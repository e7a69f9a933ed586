use rin::msg::single::StringMessage;
use rin::msg::stream::{MachineMessage, SimpleMessage, UserMessage};
use rin::node::common::{Message, Metric};

fn pairs(v: &[(&str, &str)]) -> Vec<(String, String)> {
    v.iter().map(|(a, b)| (a.to_string(), b.to_string())).collect()
}

#[test]
fn simple_message_new_with_both_values() {
    let m = SimpleMessage::new(Some(3), Some(5));
    assert_eq!(m.start, 3);
    assert_eq!(m.length, 5);
    assert_eq!(m.stream_num_metric, 3);
    assert_eq!(m.stream_test_1_metric, 0);
    assert_eq!(m.stream_test_2_metric, 0);
}

#[test]
fn simple_message_new_with_a_missing_value() {
    for m in [
        SimpleMessage::new(None, Some(5)),
        SimpleMessage::new(Some(5), None),
        SimpleMessage::new(None, None),
    ] {
        assert_eq!((m.start, m.length, m.stream_num_metric), (0, 10, 0));
        assert_eq!((m.stream_test_1_metric, m.stream_test_2_metric), (0, 0));
    }
}

#[test]
fn simple_message_default_is_all_zero() {
    let m = SimpleMessage::default();
    assert_eq!(
        (m.start, m.length, m.stream_num_metric, m.stream_test_1_metric, m.stream_test_2_metric),
        (0, 0, 0, 0, 0)
    );
}

#[test]
fn simple_message_steps() {
    let mut m = SimpleMessage::new(Some(0), Some(3));
    assert!(m.next());
    assert_eq!((m.stream_num_metric, m.stream_test_1_metric, m.stream_test_2_metric), (1, 2, 1));
    assert!(m.next());
    assert_eq!((m.stream_num_metric, m.stream_test_1_metric, m.stream_test_2_metric), (2, 4, 3));
    assert!(!m.next());
    assert_eq!((m.stream_num_metric, m.stream_test_1_metric, m.stream_test_2_metric), (3, 6, 6));
}

#[test]
fn simple_message_with_start_counts_from_start() {
    let mut m = SimpleMessage::new(Some(1), Some(2));
    assert!(m.next());
    assert_eq!((m.stream_num_metric, m.stream_test_1_metric, m.stream_test_2_metric), (2, 2, 0));
    assert!(!m.next());
    assert_eq!((m.stream_num_metric, m.stream_test_1_metric, m.stream_test_2_metric), (3, 4, 1));
}

fn published(mut m: SimpleMessage) -> u32 {
    let mut sent = 1;
    while m.next() {
        sent += 1;
    }
    sent
}

#[test]
fn stream_from_zero_publishes_length_messages() {
    assert_eq!(published(SimpleMessage::new(Some(0), Some(0))), 1);
    assert_eq!(published(SimpleMessage::new(Some(0), Some(1))), 1);
    assert_eq!(published(SimpleMessage::new(Some(0), Some(7))), 7);
    assert_eq!(published(SimpleMessage::new(None, None)), 10);
}

#[test]
fn stream_after_k_steps_follows_closed_form() {
    let mut m = SimpleMessage::new(Some(0), Some(1000));
    for k in 1..=50u32 {
        m.next();
        assert_eq!(m.stream_num_metric, k);
        assert_eq!(m.stream_test_1_metric, 2 * k);
        assert_eq!(m.stream_test_2_metric, k * (k + 1) / 2);
    }
}

#[test]
fn simple_message_metrics() {
    let mut m = SimpleMessage::new(Some(0), Some(5));
    m.next();
    m.next();
    assert_eq!(
        m.collect_metrics(),
        Some(pairs(&[
            ("stream_num_metric", "2"),
            ("stream_test_1_metric", "4"),
            ("stream_test_2_metric", "3"),
        ]))
    );
    for (_, v) in m.collect_metrics().unwrap() {
        assert!(v.parse::<u32>().is_ok());
    }
}

fn user(number: &str, count: u32, bytes: Vec<u8>) -> UserMessage {
    UserMessage { number: number.to_string(), value: "label".to_string(), count, bytes }
}

#[test]
fn user_message_steps() {
    let mut m = user("41", 0, vec![0, 1, 254]);
    assert!(m.next());
    assert_eq!(m.number, "42");
    assert_eq!(m.value, "value 42");
    assert_eq!(m.count, 1);
    assert_eq!(m.bytes, vec![1, 2, 255]);
}

#[test]
fn user_message_number_with_plus_and_zeros() {
    let mut m = user("+009", 3, vec![]);
    assert!(m.next());
    assert_eq!(m.number, "10");
    assert_eq!(m.value, "value 10");
    assert_eq!(m.count, 4);
    assert!(m.bytes.is_empty());
}

#[test]
fn user_message_stops_after_counter_twenty() {
    let mut m = user("0", 19, vec![]);
    assert!(m.next());
    assert_eq!(m.count, 20);
    assert!(!m.next());
    assert_eq!(m.count, 21);
}

#[test]
fn user_stream_from_zero_publishes_twenty_one() {
    let mut m = user("5", 0, vec![0, 1, 2, 3, 4]);
    let mut sent = 1;
    while m.next() {
        sent += 1;
    }
    assert_eq!(sent, 21);
    assert_eq!(m.number, "26");
    assert_eq!(m.value, "value 26");
    assert_eq!(m.bytes, vec![21, 22, 23, 24, 25]);
}

#[test]
fn user_and_machine_metrics_are_empty() {
    assert_eq!(user("1", 0, vec![]).collect_metrics(), Some(vec![]));
    assert_eq!(MachineMessage::default().collect_metrics(), Some(vec![]));
}

#[test]
fn user_message_default() {
    let m = UserMessage::default();
    assert_eq!((m.number.as_str(), m.value.as_str(), m.count), ("", "", 0));
    assert!(m.bytes.is_empty());
}

#[test]
fn machine_message_new_default_and_next() {
    let m = MachineMessage::new("hello".to_string(), 4);
    assert_eq!((m.message.as_str(), m.count), ("hello", 4));
    let mut d = MachineMessage::default();
    assert_eq!((d.message.as_str(), d.count), ("message 0", 0));
    assert!(d.next());
    assert_eq!((d.message.as_str(), d.count), ("message 0", 0));
}

#[test]
fn string_message_roundtrip() {
    let m = StringMessage::new("Hello World!".to_string());
    let sent = m.ser();
    assert_eq!(sent, "Hello World!");
    let back = StringMessage::default().deser(&sent);
    assert_eq!(back.data, m.data);
}

#[test]
fn string_message_next_and_metrics() {
    let mut m = StringMessage::new("x".to_string());
    assert!(m.next());
    assert_eq!(m.data, "x");
    assert_eq!(m.collect_metrics(), None);
    assert_eq!(StringMessage::default().data, "");
}

#[test]
fn step_is_defined_only_without_overflow() {
    assert!(SimpleMessage::new(Some(0), Some(3)).can_next());
    assert!(SimpleMessage::new(Some(1), Some(3)).can_next());
    // the first step from 5 would take 2 - 6 below zero
    assert!(!SimpleMessage::new(Some(5), Some(3)).can_next());
    let mut m = SimpleMessage::new(Some(0), Some(3));
    m.stream_num_metric = u32::MAX;
    assert!(!m.can_next());
    assert!(user("12", 0, vec![1, 2]).can_next());
    assert!(!user("x", 0, vec![]).can_next());
    assert!(!user("4294967295", 0, vec![]).can_next());
    assert!(!user("1", u32::MAX, vec![]).can_next());
    assert!(!user("1", 0, vec![3, 255]).can_next());
    assert!(MachineMessage::default().can_next());
    assert!(StringMessage::default().can_next());
}

#[test]
fn stream_from_a_start_publishes_length_messages() {
    let m = SimpleMessage {
        start: 5,
        length: 3,
        stream_num_metric: 5,
        stream_test_1_metric: 4,
        stream_test_2_metric: 0,
    };
    let mut s = m;
    assert!(s.next());
    assert_eq!((s.stream_num_metric, s.stream_test_1_metric, s.stream_test_2_metric), (6, 6, 0));
    assert!(s.next());
    assert_eq!((s.stream_num_metric, s.stream_test_1_metric, s.stream_test_2_metric), (7, 8, 1));
    assert!(!s.next());
    assert_eq!((s.stream_num_metric, s.stream_test_1_metric, s.stream_test_2_metric), (8, 10, 3));
    assert_eq!(published(m), 3);
}
