use chat::session::{Greeting, Session, SessionAction};

fn line(a: SessionAction) -> (bool, String) {
    match a {
        SessionAction::Join(l) => (true, l),
        SessionAction::Forward(l) => (false, l),
    }
}

#[test]
fn first_message_joins_and_later_ones_are_forwarded() {
    let mut s = Session::new(Greeting::HasLoggedIn);
    assert_eq!(line(s.receive("alice".to_string())), (true, "alice has logged in".to_string()));
    assert_eq!(s.nickname.as_deref(), Some("alice"));
    assert_eq!(line(s.receive("hi".to_string())), (false, "alice: hi".to_string()));
    assert_eq!(line(s.receive("bob".to_string())), (false, "alice: bob".to_string()));
    assert_eq!(s.nickname.as_deref(), Some("alice"));
}

#[test]
fn thread_per_connection_greeting() {
    let mut s = Session::new(Greeting::LoggedIn);
    assert_eq!(line(s.receive("carol".to_string())), (true, "carol logged in".to_string()));
    assert_eq!(line(s.receive("".to_string())), (false, "carol: ".to_string()));
}

#[test]
fn empty_nickname_joins_too() {
    let mut s = Session::new(Greeting::HasLoggedIn);
    assert_eq!(line(s.receive(String::new())), (true, " has logged in".to_string()));
    assert_eq!(s.nickname.as_deref(), Some(""));
}
