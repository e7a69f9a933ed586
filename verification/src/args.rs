//! The command-line options of the sample nodes, and their defaults.

use vstd::prelude::*;

verus! {

/// The options a node starts with.
pub struct Args {
    /// Start value for the stream.
    pub start: u32,
    /// Key expression for the publisher.
    pub input_key_expr: String,
    /// Key expression for the subscriber.
    pub output_key_expr: String,
    /// Mode of operation.
    pub mode: String,
    /// Endpoints for the publisher/subscriber.
    pub endpoints: Vec<String>,
}

impl Default for Args {
    /// The options when none is given: stream from 0 on `test_topic` in and
    /// out, as a client of `tcp/0.0.0.0:7447`.
    fn default() -> (r: Self)
        ensures
            r.start == 0,
            r.input_key_expr@ == "test_topic"@,
            r.output_key_expr@ == "test_topic"@,
            r.mode@ == "client"@,
            r.endpoints@.len() == 1,
            r.endpoints@[0]@ == "tcp/0.0.0.0:7447"@,
    {
        let mut endpoints: Vec<String> = Vec::new();
        endpoints.push(String::from_str("tcp/0.0.0.0:7447"));
        Args {
            start: 0,
            input_key_expr: String::from_str("test_topic"),
            output_key_expr: String::from_str("test_topic"),
            mode: String::from_str("client"),
            endpoints,
        }
    }
}

} // verus!
