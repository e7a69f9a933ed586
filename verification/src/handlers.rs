//! The callbacks and message transforms that the sample nodes plug into
//! their subscribers.

use vstd::prelude::*;
use crate::decimal::{decimal, u32_to_string};
use crate::decimal::law_parse_decimal_roundtrip;
use crate::msg::stream::{
    MachineMessage, MachineMessageModel, SimpleMessage, UserMessage, UserMessageModel, user_label,
    user_next_defined,
};
use crate::decimal::parse_u32_spec;

verus! {

/// The counter value at which the stream callback greets the new year.
pub const NEW_YEAR: u32 = 2025;

/// What the stream callback decides for a received stream message: whether
/// its count has reached the new year, which it then greets.
pub fn stream_callback(input: &SimpleMessage) -> (happy_new_year: bool)
    ensures
        happy_new_year == (input.stream_num_metric == NEW_YEAR),
{
    input.stream_num_metric == NEW_YEAR
}

/// The user record made from a stream message.
pub open spec fn user_of_stream(m: SimpleMessage) -> UserMessageModel {
    UserMessageModel {
        number: decimal(m.stream_num_metric as nat),
        value: user_label(decimal(m.stream_num_metric as nat)),
        count: m.stream_num_metric,
        bytes: seq![0u8, 1u8, 2u8, 3u8, 4u8],
    }
}

/// The machine record made from a user record.
pub open spec fn machine_of_user(m: UserMessageModel) -> MachineMessageModel {
    MachineMessageModel { message: "message 0"@, count: m.count }
}

/// The stream message made from a machine record.
pub open spec fn stream_of_machine(m: MachineMessageModel) -> SimpleMessage {
    SimpleMessage {
        start: m.count,
        length: 1,
        stream_num_metric: m.count,
        stream_test_1_metric: 0,
        stream_test_2_metric: 0,
    }
}

/// Turns a stream message into a user record: its number and counter are the
/// stream's count, its label made from that number, its bytes 0 to 4.
pub fn stream_to_usermessage_modifier(input: SimpleMessage) -> (output: UserMessage)
    ensures
        output@ == user_of_stream(input),
{
    let number = u32_to_string(input.stream_num_metric);
    let mut value = String::from_str("value ");
    value.append(number.as_str());
    let mut bytes: Vec<u8> = Vec::new();
    bytes.push(0);
    bytes.push(1);
    bytes.push(2);
    bytes.push(3);
    bytes.push(4);
    assert(bytes@ =~= seq![0u8, 1u8, 2u8, 3u8, 4u8]);
    UserMessage { number, value, count: input.stream_num_metric, bytes }
}

/// Turns a user record into a machine record `"message 0"` that keeps the
/// record's counter.
pub fn usermessage_machinemachine_modifier(input: UserMessage) -> (output: MachineMessage)
    ensures
        output@ == machine_of_user(input@),
{
    MachineMessage { message: String::from_str("message 0"), count: input.count }
}

/// Turns a machine record into a one-step stream that starts at, and counts
/// from, the record's counter.
pub fn machinemessage_stream_modifier(input: MachineMessage) -> (output: SimpleMessage)
    ensures
        output == stream_of_machine(input@),
{
    SimpleMessage {
        start: input.count,
        length: 1,
        stream_num_metric: input.count,
        stream_test_1_metric: 0,
        stream_test_2_metric: 0,
    }
}

/// Passing a stream message through the three transforms, round to a stream
/// again, keeps its count: the new stream starts at that count and runs one
/// step.
pub proof fn law_transform_cycle_keeps_count(m: SimpleMessage)
    ensures
        stream_of_machine(machine_of_user(user_of_stream(m))) == (SimpleMessage {
            start: m.stream_num_metric,
            length: 1,
            stream_num_metric: m.stream_num_metric,
            stream_test_1_metric: 0,
            stream_test_2_metric: 0,
        }),
{
}

/// The user record made from a stream message carries the stream's count
/// three ways: its number reads back as the count, its counter is the count,
/// and its label is `value ` followed by its number; its bytes are 0 to 4.
pub proof fn law_user_of_stream_fields(m: SimpleMessage)
    ensures
        parse_u32_spec(user_of_stream(m).number) == Some(m.stream_num_metric),
        user_of_stream(m).count == m.stream_num_metric,
        user_of_stream(m).value == "value "@ + user_of_stream(m).number,
        user_of_stream(m).bytes == seq![0u8, 1u8, 2u8, 3u8, 4u8],
{
    law_parse_decimal_roundtrip(m.stream_num_metric);
}

/// The user record made from a stream message can itself be streamed: its
/// number reads back as the stream's count, so it steps while that count and
/// the counter can grow.
pub proof fn law_user_of_stream_steps(m: SimpleMessage)
    requires
        m.stream_num_metric + 1 < u32::MAX,
    ensures
        parse_u32_spec(user_of_stream(m).number) == Some(m.stream_num_metric),
        user_next_defined(user_of_stream(m)),
{
    law_parse_decimal_roundtrip(m.stream_num_metric);
    let b = user_of_stream(m).bytes;
    assert forall|i: int| 0 <= i < b.len() implies #[trigger] b[i] < 255 by {
        assert(b[i] <= 4);
    }
}

} // verus!
