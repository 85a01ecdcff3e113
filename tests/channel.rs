use gxi::channel::{forward_notification, Channel, CoreMsg};
use gxi::json::JsonValue;

#[test]
fn drains_in_push_order_exactly_once() {
    let mut c: Channel<u32> = Channel::new();
    assert!(c.push(1));
    assert!(!c.push(2));
    assert_eq!(c.drain(), vec![1, 2]);
    assert!(c.push(3));
    assert_eq!(c.drain(), vec![3]);
    assert_eq!(c.drain(), Vec::<u32>::new());
    assert_eq!(c.len(), 0);
}

#[test]
fn forwarded_notification_is_queued() {
    let mut c: Channel<CoreMsg> = Channel::new();
    assert!(forward_notification(&mut c, "update", JsonValue::Int(1)));
    assert!(!forward_notification(&mut c, "scroll_to", JsonValue::Null));
    let msgs = c.drain();
    assert_eq!(msgs.len(), 2);
    match &msgs[0] {
        CoreMsg::Notification { method, params } => {
            assert_eq!(method, "update");
            assert!(matches!(params, JsonValue::Int(1)));
        }
        other => panic!("unexpected {:?}", other),
    }
    assert!(matches!(&msgs[1], CoreMsg::Notification { method, .. } if method == "scroll_to"));
}
