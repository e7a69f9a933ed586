use rin::node::common::{PropagationContext, SpannedMessage};

#[test]
fn empty_context_has_no_fields() {
    let c = PropagationContext::empty();
    assert!(c.keys().is_empty());
    assert_eq!(c.get("traceparent"), None);
}

#[test]
fn field_reads_back_after_set() {
    let mut c = PropagationContext::empty();
    c.set("traceparent", "00-abc-def-01".to_string());
    assert_eq!(c.get("traceparent"), Some("00-abc-def-01"));
    assert_eq!(c.get("tracestate"), None);
}

#[test]
fn setting_again_replaces_the_value() {
    let mut c = PropagationContext::empty();
    c.set("a", "1".to_string());
    c.set("b", "2".to_string());
    c.set("a", "3".to_string());
    assert_eq!(c.get("a"), Some("3"));
    assert_eq!(c.get("b"), Some("2"));
    let mut keys = c.keys();
    keys.sort();
    assert_eq!(keys, vec!["a", "b"]);
}

#[test]
fn fields_read_back_as_last_set_over_a_history() {
    let mut c = PropagationContext::empty();
    let sets = [("a", "1"), ("b", "2"), ("a", "3"), ("c", "4"), ("b", "5"), ("a", "6")];
    for (k, v) in sets {
        c.set(k, v.to_string());
    }
    assert_eq!(c.get("a"), Some("6"));
    assert_eq!(c.get("b"), Some("5"));
    assert_eq!(c.get("c"), Some("4"));
    assert_eq!(c.get("d"), None);
    assert_eq!(c.keys().len(), 3);
}

#[test]
fn context_clone_and_default() {
    let mut c = PropagationContext::default();
    assert!(c.keys().is_empty());
    c.set("traceparent", "x".to_string());
    let d = c.clone();
    c.set("traceparent", "y".to_string());
    assert_eq!(d.get("traceparent"), Some("x"));
    assert_eq!(c.get("traceparent"), Some("y"));
}

#[test]
fn spanned_message_clone_and_default() {
    let m = SpannedMessage::default();
    assert_eq!(m.message, "");
    assert!(m.span.keys().is_empty());
    let mut span = PropagationContext::empty();
    span.set("k", "v".to_string());
    let n = SpannedMessage { message: "hi".to_string(), span }.clone();
    assert_eq!(n.message, "hi");
    assert_eq!(n.span.get("k"), Some("v"));
}
