use chat::clients::{
    add_client, prepare_broadcast, remove_disconnected, take_fresh_id, Client, Message,
};

fn ids(clients: &Vec<Client<()>>) -> Vec<u32> {
    clients.iter().map(|c| c.id).collect()
}

fn message(from: u32, text: &str) -> Message {
    Message { from, text: text.to_string() }
}

#[test]
fn fresh_ids_count_up() {
    let mut next = 0u32;
    assert_eq!(take_fresh_id(&mut next), 0);
    assert_eq!(take_fresh_id(&mut next), 1);
    assert_eq!(next, 2);
}

#[test]
fn new_clients_join_at_the_end_without_nickname() {
    let mut clients: Vec<Client<()>> = Vec::new();
    add_client(&mut clients, 5, ());
    add_client(&mut clients, 6, ());
    assert_eq!(ids(&clients), vec![5, 6]);
    assert!(clients.iter().all(|c| c.nickname.is_none()));
}

#[test]
fn first_message_is_the_nickname() {
    let mut clients: Vec<Client<()>> = Vec::new();
    add_client(&mut clients, 0, ());
    add_client(&mut clients, 1, ());
    let (line, to) = prepare_broadcast(&mut clients, message(0, "alice"));
    assert_eq!(line, "alice has logged in");
    assert_eq!(clients[0].nickname.as_deref(), Some("alice"));
    // Client 1 has no nickname yet, so it gets nothing.
    assert!(to.is_empty());
}

#[test]
fn later_messages_go_to_named_clients_but_the_sender() {
    let mut clients: Vec<Client<()>> = Vec::new();
    for id in 0..4 {
        add_client(&mut clients, id, ());
    }
    prepare_broadcast(&mut clients, message(0, "alice"));
    prepare_broadcast(&mut clients, message(1, "bob"));
    prepare_broadcast(&mut clients, message(3, "dora"));
    let (line, to) = prepare_broadcast(&mut clients, message(1, "hi there"));
    assert_eq!(line, "bob: hi there");
    assert_eq!(to, vec![0, 3]);
    assert_eq!(clients[1].nickname.as_deref(), Some("bob"));
}

fn sorted_ids(clients: &Vec<Client<()>>) -> Vec<u32> {
    let mut v = ids(clients);
    v.sort();
    v
}

#[test]
fn single_disconnected_client_is_dropped() {
    let mut clients: Vec<Client<()>> = Vec::new();
    for id in 0..4 {
        add_client(&mut clients, id, ());
    }
    remove_disconnected(&mut clients, vec![1]);
    assert_eq!(sorted_ids(&clients), vec![0, 2, 3]);
}

#[test]
fn trailing_disconnected_clients_are_dropped() {
    let mut clients: Vec<Client<()>> = Vec::new();
    for id in 0..5 {
        add_client(&mut clients, id, ());
    }
    remove_disconnected(&mut clients, vec![2, 3, 4]);
    assert_eq!(sorted_ids(&clients), vec![0, 1]);
}

#[test]
fn exactly_the_disconnected_clients_are_dropped() {
    let mut clients: Vec<Client<()>> = Vec::new();
    for id in 0..4 {
        add_client(&mut clients, id, ());
    }
    remove_disconnected(&mut clients, vec![0, 1]);
    assert_eq!(sorted_ids(&clients), vec![2, 3]);

    let mut clients: Vec<Client<()>> = Vec::new();
    for id in 0..4 {
        add_client(&mut clients, id, ());
    }
    remove_disconnected(&mut clients, vec![0, 2]);
    assert_eq!(sorted_ids(&clients), vec![1, 3]);
}

#[test]
fn dropping_keeps_nicknames_and_nothing_is_dropped_for_no_failures() {
    let mut clients: Vec<Client<()>> = Vec::new();
    for id in 0..3 {
        add_client(&mut clients, id, ());
    }
    prepare_broadcast(&mut clients, message(2, "carol"));
    remove_disconnected(&mut clients, vec![]);
    assert_eq!(ids(&clients), vec![0, 1, 2]);
    remove_disconnected(&mut clients, vec![0]);
    let carol = clients.iter().find(|c| c.id == 2).unwrap();
    assert_eq!(carol.nickname.as_deref(), Some("carol"));
    assert_eq!(sorted_ids(&clients), vec![1, 2]);
}
