//! A message that is a bare line of text.

use vstd::prelude::*;
use crate::node::common::{Message, Metric};

verus! {

/// A text message: its wire form is the text itself.
#[derive(Debug, Clone)]
pub struct StringMessage {
    pub data: String,
}

/// The text that a text message with contents `m` sends: the contents.
pub open spec fn string_wire_text(m: Seq<char>) -> Seq<char> {
    m
}

/// The text message read back from received text `t`: its contents are `t`.
pub open spec fn string_read_text(t: Seq<char>) -> Seq<char> {
    t
}

impl View for StringMessage {
    type V = Seq<char>;

    open spec fn view(&self) -> Seq<char> {
        self.data@
    }
}

impl StringMessage {
    pub fn new(data: String) -> (r: Self)
        ensures
            r.data == data,
    {
        Self { data }
    }

    /// The text sent on the wire.
    pub fn ser(&self) -> (r: String)
        ensures
            r@ == string_wire_text(self@),
    {
        self.data.clone()
    }

    /// The message read back from received text.
    pub fn deser(&self, msg: &String) -> (r: Self)
        ensures
            r@ == string_read_text(msg@),
    {
        Self { data: msg.clone() }
    }
}

impl Default for StringMessage {
    fn default() -> (r: Self)
        ensures
            r@ == Seq::<char>::empty(),
    {
        Self { data: String::new() }
    }
}

impl Message for StringMessage {
    open spec fn next_defined(m: Seq<char>) -> bool {
        true
    }

    open spec fn next_model(m: Seq<char>) -> Seq<char> {
        m
    }

    open spec fn next_more(m: Seq<char>) -> bool {
        true
    }

    fn can_next(&self) -> (r: bool) {
        true
    }

    /// A text message is sent again unchanged, without end.
    fn next(&mut self) -> (more: bool) {
        true
    }
}

impl Metric for StringMessage {
    open spec fn metrics(m: Seq<char>) -> Option<Seq<(Seq<char>, Seq<char>)>> {
        None
    }

    fn collect_metrics(&self) -> (r: Option<Vec<(String, String)>>) {
        None
    }
}

/// The wire text of a text message is exactly its contents, and the message
/// read back from a text has exactly that text as contents.
pub proof fn law_string_wire_is_contents(m: Seq<char>, t: Seq<char>)
    ensures
        string_wire_text(m) == m,
        string_read_text(t) == t,
{
}

/// A text message steps to itself and its stream never ends.
pub proof fn law_string_stream_endless(m: Seq<char>)
    ensures
        <StringMessage as Message>::next_defined(m),
        <StringMessage as Message>::next_model(m) == m,
        <StringMessage as Message>::next_more(m),
{
}

/// Reading back the text that a message sends gives the same message.
pub proof fn law_string_message_roundtrip(m: Seq<char>)
    ensures
        string_read_text(string_wire_text(m)) == m,
{
}

} // verus!
