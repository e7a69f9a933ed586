use rin::handlers::{
    machinemessage_stream_modifier, stream_callback, stream_to_usermessage_modifier,
    usermessage_machinemachine_modifier,
};
use rin::msg::stream::{MachineMessage, SimpleMessage, UserMessage};
use rin::node::common::Message;

#[test]
fn stream_callback_greets_the_new_year() {
    let mut m = SimpleMessage::new(Some(2024), Some(5));
    assert!(!stream_callback(&m));
    m.stream_num_metric = 2025;
    assert!(stream_callback(&m));
}

#[test]
fn stream_to_user_record() {
    let m = SimpleMessage::new(Some(7), Some(2));
    let u = stream_to_usermessage_modifier(m);
    assert_eq!(u.number, "7");
    assert_eq!(u.value, "value 7");
    assert_eq!(u.count, 7);
    assert_eq!(u.bytes, vec![0, 1, 2, 3, 4]);
}

#[test]
fn user_record_to_machine_record() {
    let u = UserMessage { number: "3".to_string(), value: "v".to_string(), count: 12, bytes: vec![] };
    let m = usermessage_machinemachine_modifier(u);
    assert_eq!(m.message, "message 0");
    assert_eq!(m.count, 12);
}

#[test]
fn machine_record_to_stream() {
    let s = machinemessage_stream_modifier(MachineMessage::new("m".to_string(), 9));
    assert_eq!(
        (s.start, s.length, s.stream_num_metric, s.stream_test_1_metric, s.stream_test_2_metric),
        (9, 1, 9, 0, 0)
    );
}

#[test]
fn transform_cycle_keeps_count() {
    let mut m = SimpleMessage::new(Some(0), Some(9));
    m.next();
    m.next();
    let back = machinemessage_stream_modifier(usermessage_machinemachine_modifier(
        stream_to_usermessage_modifier(m),
    ));
    assert_eq!((back.start, back.length, back.stream_num_metric), (2, 1, 2));
}

#[test]
fn user_record_from_stream_can_step() {
    let mut u = stream_to_usermessage_modifier(SimpleMessage::new(Some(40), Some(1)));
    assert!(!u.next());
    assert_eq!(u.number, "41");
    assert_eq!(u.value, "value 41");
    assert_eq!(u.count, 41);
    assert_eq!(u.bytes, vec![1, 2, 3, 4, 5]);
}
