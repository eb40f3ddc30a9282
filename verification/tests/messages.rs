use chat::messages::{
    chat_message, has_logged_in_message, logged_in_message, nickname_from_line, nickname_or_empty,
};

#[test]
fn nickname_is_trimmed() {
    assert_eq!(nickname_from_line("  alice \n"), "alice");
    assert_eq!(nickname_from_line("bob"), "bob");
    assert_eq!(nickname_from_line("\u{3000}carol smith\t"), "carol smith");
}

#[test]
fn blank_nickname_becomes_unknown() {
    assert_eq!(nickname_from_line(""), "<unknown>");
    assert_eq!(nickname_from_line(" \t\r\n"), "<unknown>");
    assert_eq!(nickname_from_line("\u{a0}\u{2028}"), "<unknown>");
}

#[test]
fn missing_nickname_is_empty() {
    assert_eq!(nickname_or_empty(Some("dave".to_string())), "dave");
    assert_eq!(nickname_or_empty(None), "");
}

#[test]
fn lines_sent_by_the_server() {
    assert_eq!(chat_message("alice", "hello all"), "alice: hello all");
    assert_eq!(chat_message("", ""), ": ");
    assert_eq!(has_logged_in_message("bob"), "bob has logged in");
    assert_eq!(logged_in_message("bob"), "bob logged in");
}
