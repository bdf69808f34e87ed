use seatlease::hub::NotificationHub;

#[test]
fn subscribe_hands_out_fresh_handles() {
    let mut hub = NotificationHub::new();
    let a = hub.subscribe();
    let b = hub.subscribe();
    let c = hub.subscribe();
    assert_eq!((a, b, c), (1, 2, 3));
    assert_eq!(hub.subscriber_count(), 3);
    assert_eq!(hub.recipients(), vec![1, 2, 3]);
}

#[test]
fn unsubscribe_is_idempotent() {
    let mut hub = NotificationHub::new();
    let a = hub.subscribe();
    let b = hub.subscribe();
    let c = hub.subscribe();
    hub.unsubscribe(b);
    assert_eq!(hub.recipients(), vec![a, c]);
    hub.unsubscribe(b);
    assert_eq!(hub.recipients(), vec![a, c]);
    // handles of removed subscribers are never handed out again
    let d = hub.subscribe();
    assert_eq!(d, 4);
    assert_eq!(hub.recipients(), vec![a, c, d]);
}

#[test]
fn unsubscribing_unknown_handle_changes_nothing() {
    let mut hub = NotificationHub::new();
    hub.unsubscribe(17);
    assert_eq!(hub.subscriber_count(), 0);
    let a = hub.subscribe();
    hub.unsubscribe(17);
    assert_eq!(hub.recipients(), vec![a]);
}
