use desktop_native::connection::ReadStep;
use desktop_native::registry::Registry;

#[test]
fn identities_start_at_one_and_grow() {
    let mut registry = Registry::new();
    assert_eq!(registry.len(), 0);
    assert_eq!(registry.register(), Some(1));
    assert_eq!(registry.register(), Some(2));
    assert_eq!(registry.register(), Some(3));
    assert_eq!(registry.snapshot(), vec![1, 2, 3]);
    assert!(registry.contains(2));
    assert!(!registry.contains(4));
}

#[test]
fn identities_are_not_reused_after_unregister() {
    let mut registry = Registry::new();
    registry.register();
    registry.register();
    assert!(registry.unregister(2));
    assert_eq!(registry.register(), Some(3));
    assert_eq!(registry.snapshot(), vec![1, 3]);
}

#[test]
fn unregister_is_idempotent() {
    let mut registry = Registry::new();
    registry.register();
    registry.register();
    assert!(registry.unregister(1));
    assert_eq!(registry.snapshot(), vec![2]);
    assert!(!registry.unregister(1));
    assert_eq!(registry.snapshot(), vec![2]);
    assert!(!registry.unregister(77));
    assert_eq!(registry.snapshot(), vec![2]);
}

#[test]
fn broadcast_to_nobody_delivers_nothing() {
    let mut registry = Registry::new();
    assert_eq!(registry.broadcast(b"hello"), 0);
}

#[test]
fn broadcast_counts_the_clients_that_took_the_payload() {
    let mut registry = Registry::new();
    registry.register();
    registry.register();
    registry.register();
    assert_eq!(registry.broadcast(b"hi"), 3);
    assert_eq!(registry.dequeue(1), Some(vec![2, 0, 0, 0, b'h', b'i']));
    assert_eq!(registry.dequeue(2), Some(vec![2, 0, 0, 0, b'h', b'i']));
    assert_eq!(registry.dequeue(3), Some(vec![2, 0, 0, 0, b'h', b'i']));
    assert_eq!(registry.dequeue(3), None);
    assert_eq!(registry.dequeue(4), None);
}

#[test]
fn full_queue_of_one_client_does_not_hold_back_the_others() {
    let mut registry = Registry::new();
    registry.register();
    for _ in 0..32 {
        assert_eq!(registry.broadcast(b"x"), 1);
    }
    registry.register();
    assert_eq!(registry.broadcast(b"y"), 1);
    assert_eq!(registry.dequeue(2), Some(vec![1, 0, 0, 0, b'y']));
    assert_eq!(registry.dequeue(1), Some(vec![1, 0, 0, 0, b'x']));
    assert_eq!(registry.broadcast(b"z"), 2);
}

#[test]
fn broadcast_above_cap_reaches_nobody() {
    let mut registry = Registry::new();
    registry.register();
    assert_eq!(registry.broadcast(&vec![0u8; 1_048_577]), 0);
    assert_eq!(registry.dequeue(1), None);
    assert_eq!(registry.broadcast(&vec![0u8; 1_048_576]), 1);
}

#[test]
fn violation_removes_only_the_offender() {
    let mut registry = Registry::new();
    registry.register();
    registry.register();
    assert!(registry.start_reading(1));
    assert!(registry.start_reading(2));
    assert!(!registry.start_reading(3));
    assert!(registry.receive(1, &[0xff, 0xff, 0xff, 0xff]));
    assert!(registry.receive(2, &[1, 0, 0, 0, b'k']));
    assert!(!registry.receive(3, &[1]));
    assert!(matches!(registry.next_message(1), Some(ReadStep::Violation(_))));
    assert_eq!(registry.snapshot(), vec![2]);
    assert!(registry.next_message(1).is_none());
    assert!(matches!(registry.next_message(2), Some(ReadStep::Text(text)) if text == "k"));
    assert!(matches!(registry.next_message(2), Some(ReadStep::Pending)));
}
