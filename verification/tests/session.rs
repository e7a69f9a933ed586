use rin::node::session::session_config;

#[test]
fn client_session_config() {
    let c = session_config("client", &vec!["tcp/0.0.0.0:7447".to_string()]);
    assert_eq!(c.mode, "\"client\"");
    assert_eq!(c.endpoints, "[\"tcp/0.0.0.0:7447\"]");
}

#[test]
fn session_config_escapes_and_lists() {
    let c = session_config(
        "a\"b\\c\nd\u{1}e\u{7f}é",
        &vec!["x".to_string(), "y\tz".to_string(), "".to_string()],
    );
    assert_eq!(c.mode, "\"a\\\"b\\\\c\\nd\\u0001e\u{7f}é\"");
    assert_eq!(c.endpoints, "[\"x\",\"y\\tz\",\"\"]");
}

#[test]
fn session_config_with_no_endpoint() {
    let c = session_config("peer", &vec![]);
    assert_eq!(c.mode, "\"peer\"");
    assert_eq!(c.endpoints, "[]");
}
