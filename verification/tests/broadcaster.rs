use chat::broadcaster::Broadcaster;

fn sorted(mut v: Vec<usize>) -> Vec<usize> {
    v.sort();
    v
}

#[test]
fn subscribers_get_consecutive_ids() {
    let mut b: Broadcaster<Vec<String>> = Broadcaster::new();
    assert_eq!(b.subscribe(Vec::new()), 0);
    assert_eq!(b.subscribe(Vec::new()), 1);
    assert_eq!(b.subscribe(Vec::new()), 2);
}

#[test]
fn broadcast_skips_its_sender() {
    let mut b: Broadcaster<Vec<String>> = Broadcaster::new();
    for _ in 0..4 {
        b.subscribe(Vec::new());
    }
    assert_eq!(sorted(b.recipients(2)), vec![0, 1, 3]);
    assert_eq!(sorted(b.recipients(9)), vec![0, 1, 2, 3]);
}

#[test]
fn empty_broadcaster_has_no_recipients() {
    let b: Broadcaster<Vec<String>> = Broadcaster::new();
    assert!(b.recipients(0).is_empty());
}

#[test]
fn sinks_are_reached_by_id() {
    let mut b: Broadcaster<Vec<String>> = Broadcaster::new();
    let a = b.subscribe(Vec::new());
    let c = b.subscribe(Vec::new());
    for id in b.recipients(a) {
        b.subscriber_mut(id).unwrap().push("hello".to_string());
    }
    assert_eq!(b.subscriber_mut(c).unwrap().clone(), vec!["hello".to_string()]);
    assert!(b.subscriber_mut(a).unwrap().is_empty());
    assert!(b.subscriber_mut(7).is_none());
}

#[test]
fn closed_subscribers_are_dropped_and_ids_not_reused() {
    let mut b: Broadcaster<Vec<String>> = Broadcaster::new();
    for _ in 0..3 {
        b.subscribe(Vec::new());
    }
    b.remove_closed(&vec![0, 2, 5]);
    assert_eq!(sorted(b.recipients(99)), vec![1]);
    assert!(b.subscriber_mut(0).is_none());
    assert_eq!(b.subscribe(Vec::new()), 3);
    assert_eq!(sorted(b.recipients(1)), vec![3]);
}
