use rin::args::Args;

#[test]
fn default_options() {
    let a = Args::default();
    assert_eq!(a.start, 0);
    assert_eq!(a.input_key_expr, "test_topic");
    assert_eq!(a.output_key_expr, "test_topic");
    assert_eq!(a.mode, "client");
    assert_eq!(a.endpoints, vec!["tcp/0.0.0.0:7447".to_string()]);
}
