use rin::bridge::{failed_of_outcomes, ClientAddr, TopicRegistry};
use rin::channel::ClientChannel;
use tokio::sync::broadcast;

fn addr(port: u16) -> ClientAddr {
    ClientAddr { v6: false, ip: 0x7f00_0001, port, flowinfo: 0, scope_id: 0 }
}

#[test]
fn first_client_of_a_topic_starts_its_feed() {
    let mut r = TopicRegistry::new();
    let (tx1, _rx1) = broadcast::channel::<String>(10);
    let (tx2, _rx2) = broadcast::channel::<String>(10);
    let (tx3, _rx3) = broadcast::channel::<String>(10);
    assert!(!r.has_topic("a"));
    assert!(r.register("a".to_string(), addr(1), ClientChannel::new(tx1)));
    assert!(!r.register("a".to_string(), addr(2), ClientChannel::new(tx2)));
    assert!(r.register("b".to_string(), addr(3), ClientChannel::new(tx3)));
    assert!(r.has_topic("a") && r.has_topic("b"));
}

#[test]
fn delivery_reaches_listening_clients() {
    let mut r = TopicRegistry::new();
    let (tx1, mut rx1) = broadcast::channel::<String>(10);
    let (tx2, mut rx2) = broadcast::channel::<String>(10);
    r.register("a".to_string(), addr(1), ClientChannel::new(tx1));
    r.register("a".to_string(), addr(2), ClientChannel::new(tx2));
    let d = r.deliver("a", &"hello".to_string());
    assert!(!d.closed);
    assert!(d.failed.is_empty());
    assert_eq!(d.delivered, vec![true, true]);
    assert_eq!(rx1.try_recv().unwrap(), "hello");
    assert_eq!(rx2.try_recv().unwrap(), "hello");
    assert!(rx1.try_recv().is_err());
    assert!(rx2.try_recv().is_err());
}

#[test]
fn clients_that_left_are_dropped_and_last_closes_topic() {
    let mut r = TopicRegistry::new();
    let (tx1, rx1) = broadcast::channel::<String>(10);
    let (tx2, mut rx2) = broadcast::channel::<String>(10);
    r.register("a".to_string(), addr(1), ClientChannel::new(tx1));
    r.register("a".to_string(), addr(2), ClientChannel::new(tx2));
    drop(rx1);
    let d = r.deliver("a", &"one".to_string());
    assert!(!d.closed);
    assert_eq!(d.failed, vec![addr(1)]);
    assert_eq!(d.delivered, vec![false, true]);
    assert!(r.has_topic("a"));
    assert_eq!(rx2.try_recv().unwrap(), "one");
    drop(rx2);
    let d = r.deliver("a", &"two".to_string());
    assert!(d.closed);
    assert_eq!(d.failed, vec![addr(2)]);
    assert_eq!(d.delivered, vec![false]);
    assert!(!r.has_topic("a"));
}

#[test]
fn delivery_on_unknown_topic_changes_nothing() {
    let mut r = TopicRegistry::new();
    let (tx1, _rx1) = broadcast::channel::<String>(10);
    r.register("a".to_string(), addr(1), ClientChannel::new(tx1));
    let d = r.deliver("b", &"x".to_string());
    assert!(!d.closed);
    assert!(d.failed.is_empty());
    assert!(d.delivered.is_empty());
    assert!(r.has_topic("a"));
}

#[test]
fn retain_drops_every_client_at_a_failed_address() {
    let mut r = TopicRegistry::new();
    let (tx1, _rx1) = broadcast::channel::<String>(10);
    let (tx2, _rx2) = broadcast::channel::<String>(10);
    let (tx3, _rx3) = broadcast::channel::<String>(10);
    r.register("a".to_string(), addr(1), ClientChannel::new(tx1));
    r.register("a".to_string(), addr(2), ClientChannel::new(tx2));
    r.register("a".to_string(), addr(1), ClientChannel::new(tx3));
    assert!(!r.retain_delivered("a", &vec![]));
    assert!(!r.retain_delivered("a", &vec![addr(1)]));
    assert!(r.has_topic("a"));
    assert!(r.retain_delivered("a", &vec![addr(2), addr(9)]));
    assert!(!r.has_topic("a"));
    assert!(!r.retain_delivered("a", &vec![addr(2)]));
}

#[test]
fn failed_addresses_follow_the_outcomes_in_client_order() {
    let (tx1, _rx1) = broadcast::channel::<String>(10);
    let (tx2, _rx2) = broadcast::channel::<String>(10);
    let (tx3, _rx3) = broadcast::channel::<String>(10);
    let clients = vec![
        (addr(1), ClientChannel::new(tx1)),
        (addr(2), ClientChannel::new(tx2)),
        (addr(3), ClientChannel::new(tx3)),
    ];
    assert_eq!(failed_of_outcomes(&clients, &vec![true, true, true]), vec![]);
    assert_eq!(failed_of_outcomes(&clients, &vec![false, true, false]), vec![addr(1), addr(3)]);
    assert_eq!(failed_of_outcomes(&clients, &vec![true, false, true]), vec![addr(2)]);
}
