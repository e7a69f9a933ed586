//! Messages that a publisher streams: a counter stream, a user record and a
//! machine record.

use vstd::prelude::*;
use crate::decimal::{decimal, parse_u32, parse_u32_spec, u32_to_string, law_parse_decimal_roundtrip};
use crate::node::common::{Message, Metric};

verus! {

/// A counting stream: it starts at `start` and runs for `length` steps,
/// keeping three counters that it reports as metrics.
#[derive(Debug, Clone, Copy, PartialEq, Eq, Structural)]
pub struct SimpleMessage {
    pub start: u32,
    pub length: u32,
    pub stream_num_metric: u32,
    pub stream_test_1_metric: u32,
    pub stream_test_2_metric: u32,
}

impl View for SimpleMessage {
    type V = SimpleMessage;

    open spec fn view(&self) -> SimpleMessage {
        *self
    }
}

/// The stream that `SimpleMessage::new` builds.
pub open spec fn simple_new(start: Option<u32>, length: Option<u32>) -> SimpleMessage {
    match (start, length) {
        (Some(s), Some(l)) => SimpleMessage {
            start: s,
            length: l,
            stream_num_metric: s,
            stream_test_1_metric: 0,
            stream_test_2_metric: 0,
        },
        _ => SimpleMessage {
            start: 0,
            length: 10,
            stream_num_metric: 0,
            stream_test_1_metric: 0,
            stream_test_2_metric: 0,
        },
    }
}

/// One step of the stream is defined: no counter overflows and no
/// subtraction goes below zero.
pub open spec fn simple_next_defined(m: SimpleMessage) -> bool {
    &&& m.stream_num_metric + 1 <= u32::MAX
    &&& m.stream_test_1_metric + 2 <= u32::MAX
    &&& m.stream_test_1_metric + 2 >= m.stream_num_metric + 1
    &&& m.stream_test_2_metric + (m.stream_test_1_metric + 2 - (m.stream_num_metric + 1)) <= u32::MAX
    &&& m.stream_num_metric + 1 >= m.start
}

/// The stream after one step: the count goes up by one, the first test
/// counter by two, and the second by the difference of the new values.
pub open spec fn simple_next(m: SimpleMessage) -> SimpleMessage {
    let num = m.stream_num_metric + 1;
    let t1 = m.stream_test_1_metric + 2;
    SimpleMessage {
        stream_num_metric: num as u32,
        stream_test_1_metric: t1 as u32,
        stream_test_2_metric: (m.stream_test_2_metric + (t1 - num)) as u32,
        ..m
    }
}

/// The stream goes on while fewer than `length` steps lie past `start`.
pub open spec fn simple_more(m: SimpleMessage) -> bool {
    m.stream_num_metric + 1 - m.start < m.length
}

impl SimpleMessage {
    /// A stream from `start` of `length` steps; with either missing, the
    /// stream from 0 of 10 steps.
    pub fn new(start: Option<u32>, length: Option<u32>) -> (r: Self)
        ensures
            r == simple_new(start, length),
    {
        if let (Some(start), Some(length)) = (start, length) {
            SimpleMessage {
                start,
                length,
                stream_num_metric: start,
                stream_test_1_metric: 0,
                stream_test_2_metric: 0,
            }
        } else {
            SimpleMessage {
                start: 0,
                length: 10,
                stream_num_metric: 0,
                stream_test_1_metric: 0,
                stream_test_2_metric: 0,
            }
        }
    }
}

impl Default for SimpleMessage {
    fn default() -> (r: Self)
        ensures
            r == (SimpleMessage {
                start: 0,
                length: 0,
                stream_num_metric: 0,
                stream_test_1_metric: 0,
                stream_test_2_metric: 0,
            }),
    {
        SimpleMessage {
            start: 0,
            length: 0,
            stream_num_metric: 0,
            stream_test_1_metric: 0,
            stream_test_2_metric: 0,
        }
    }
}

impl Message for SimpleMessage {
    open spec fn next_defined(m: SimpleMessage) -> bool {
        simple_next_defined(m)
    }

    open spec fn next_model(m: SimpleMessage) -> SimpleMessage {
        simple_next(m)
    }

    open spec fn next_more(m: SimpleMessage) -> bool {
        simple_more(m)
    }

    fn can_next(&self) -> (r: bool) {
        let num = self.stream_num_metric as u64 + 1;
        let t1 = self.stream_test_1_metric as u64 + 2;
        num <= 4294967295u64 && t1 <= 4294967295u64 && t1 >= num
            && self.stream_test_2_metric as u64 + (t1 - num) <= 4294967295u64
            && num >= self.start as u64
    }

    fn next(&mut self) -> (more: bool) {
        self.stream_num_metric = self.stream_num_metric + 1;
        self.stream_test_1_metric = self.stream_test_1_metric + 2;
        self.stream_test_2_metric = self.stream_test_2_metric + (self.stream_test_1_metric
            - self.stream_num_metric);
        (self.stream_num_metric - self.start) < self.length
    }
}

/// The metrics of a counting stream: its three counters, in decimal.
pub open spec fn simple_metrics(m: SimpleMessage) -> Seq<(Seq<char>, Seq<char>)> {
    seq![
        ("stream_num_metric"@, decimal(m.stream_num_metric as nat)),
        ("stream_test_1_metric"@, decimal(m.stream_test_1_metric as nat)),
        ("stream_test_2_metric"@, decimal(m.stream_test_2_metric as nat)),
    ]
}

impl Metric for SimpleMessage {
    open spec fn metrics(m: SimpleMessage) -> Option<Seq<(Seq<char>, Seq<char>)>> {
        Some(simple_metrics(m))
    }

    fn collect_metrics(&self) -> (r: Option<Vec<(String, String)>>) {
        let mut data: Vec<(String, String)> = Vec::new();
        data.push((String::from_str("stream_num_metric"), u32_to_string(self.stream_num_metric)));
        data.push(
            (String::from_str("stream_test_1_metric"), u32_to_string(self.stream_test_1_metric)),
        );
        data.push(
            (String::from_str("stream_test_2_metric"), u32_to_string(self.stream_test_2_metric)),
        );
        assert(data@.map_values(|p: (String, String)| (p.0@, p.1@)) =~= simple_metrics(*self));
        Some(data)
    }
}

/// The metrics of a stream read back as its three counters.
pub proof fn law_metrics_read_back(m: SimpleMessage)
    ensures
        simple_metrics(m).len() == 3,
        parse_u32_spec(simple_metrics(m)[0].1) == Some(m.stream_num_metric),
        parse_u32_spec(simple_metrics(m)[1].1) == Some(m.stream_test_1_metric),
        parse_u32_spec(simple_metrics(m)[2].1) == Some(m.stream_test_2_metric),
{
    law_parse_decimal_roundtrip(m.stream_num_metric);
    law_parse_decimal_roundtrip(m.stream_test_1_metric);
    law_parse_decimal_roundtrip(m.stream_test_2_metric);
}

/// The sum 1 + 2 + ... + k.
pub open spec fn triangle(k: nat) -> nat
    decreases k,
{
    if k == 0 {
        0
    } else {
        triangle((k - 1) as nat) + k
    }
}

/// The stream after `k` steps.
pub open spec fn simple_steps(m: SimpleMessage, k: nat) -> SimpleMessage
    decreases k,
{
    if k == 0 {
        m
    } else {
        simple_next(simple_steps(m, (k - 1) as nat))
    }
}

proof fn lemma_triangle_grows(k: nat)
    ensures
        triangle(k) >= k,
        triangle(k + 1) >= 2 * k,
        k >= 3 ==> triangle(k) >= 2 * k,
    decreases k,
{
    if k > 0 {
        lemma_triangle_grows((k - 1) as nat);
    }
    if k == 3 {
        assert(triangle(0) == 0);
        assert(triangle(1) == triangle(0) + 1);
        assert(triangle(2) == triangle(1) + 2);
        assert(triangle(3) == triangle(2) + 3);
    }
}

/// The second test counter of a stream after `k` steps, from counters
/// `t2` and `t1` and start `start`: each step adds the first counter's lead
/// over the count, which grows by one per step.
pub open spec fn test_2_after(t2: int, t1: int, start: int, k: nat) -> int {
    t2 + k * (t1 - start) + triangle(k)
}

proof fn lemma_test_2_step(t2: int, t1: int, start: int, k: nat)
    ensures
        test_2_after(t2, t1, start, k + 1) == test_2_after(t2, t1, start, k) + (t1 - start) + k + 1,
{
    assert((k + 1) * (t1 - start) == k * (t1 - start) + (t1 - start)) by (nonlinear_arith);
    assert(triangle(k + 1) == triangle(k) + k + 1);
}

proof fn lemma_test_2_nonneg(t2: int, t1: int, start: int, k: nat)
    requires
        t2 >= 0,
        t1 - start >= -1,
    ensures
        test_2_after(t2, t1, start, k) >= 0,
{
    assert(k * (t1 - start) >= -k) by (nonlinear_arith)
        requires
            t1 - start >= -1,
            k >= 0,
    ;
    lemma_triangle_grows(k);
}

/// A stream whose count stands at its start (as `SimpleMessage::new` builds
/// it) and whose first test counter is at least the start less one: after
/// `k` steps its count is `start + k`, its first test counter `2k` higher
/// and its second as `test_2_after` says; while the counters fit, each step
/// is defined, and the step after the `k`-th says the stream goes on exactly
/// when `k + 1 < length`. So a publisher that sends, then steps until told to
/// stop, sends `length` messages (one when `length` is 0).
pub proof fn law_stream_length(m: SimpleMessage, k: nat)
    requires
        m.stream_num_metric == m.start,
        m.stream_test_1_metric + 1 >= m.start,
        m.start + k + 1 <= u32::MAX,
        m.stream_test_1_metric + 2 * (k + 1) <= u32::MAX,
        test_2_after(m.stream_test_2_metric as int, m.stream_test_1_metric as int, m.start as int, k + 1)
            <= u32::MAX,
    ensures
        simple_steps(m, k) == (SimpleMessage {
            start: m.start,
            length: m.length,
            stream_num_metric: (m.start + k) as u32,
            stream_test_1_metric: (m.stream_test_1_metric + 2 * k) as u32,
            stream_test_2_metric: test_2_after(
                m.stream_test_2_metric as int,
                m.stream_test_1_metric as int,
                m.start as int,
                k,
            ) as u32,
        }),
        simple_next_defined(simple_steps(m, k)),
        simple_more(simple_steps(m, k)) == (k + 1 < m.length),
    decreases k,
{
    let (t2, t1, s) = (m.stream_test_2_metric as int, m.stream_test_1_metric as int, m.start as int);
    lemma_test_2_step(t2, t1, s, k);
    lemma_test_2_nonneg(t2, t1, s, k);
    lemma_test_2_nonneg(t2, t1, s, k + 1);
    lemma_triangle_grows(k);
    if k > 0 {
        lemma_test_2_step(t2, t1, s, (k - 1) as nat);
        lemma_test_2_nonneg(t2, t1, s, (k - 1) as nat);
        law_stream_length(m, (k - 1) as nat);
        let prev = simple_steps(m, (k - 1) as nat);
        assert(simple_steps(m, k) == simple_next(prev));
    } else {
        assert(test_2_after(t2, t1, s, 0) == t2) by {
            assert(0 * (t1 - s) == 0) by (nonlinear_arith);
        }
    }
}

/// The stream that `SimpleMessage::new(Some(0), Some(length))` builds, the
/// case the sample publishers start from: after `k` steps its count is `k`,
/// its first test counter `2k` and its second `1 + 2 + ... + k`.
pub proof fn law_stream_from_zero(length: u32, k: nat)
    requires
        triangle(k + 1) <= u32::MAX,
    ensures
        simple_steps(simple_new(Some(0), Some(length)), k) == (SimpleMessage {
            start: 0,
            length,
            stream_num_metric: k as u32,
            stream_test_1_metric: (2 * k) as u32,
            stream_test_2_metric: triangle(k) as u32,
        }),
        simple_more(simple_steps(simple_new(Some(0), Some(length)), k)) == (k + 1 < length),
{
    let m = simple_new(Some(0), Some(length));
    lemma_triangle_grows(k + 1);
    lemma_triangle_grows(k);
    assert(triangle(k + 1) == triangle(k) + k + 1);
    assert((k + 1) * (0 - 0) == 0) by (nonlinear_arith);
    assert(k * (0 - 0) == 0) by (nonlinear_arith);
    law_stream_length(m, k);
}

/// A user record: a number kept as text, a label made from it, a counter
/// and a few bytes.
#[derive(Debug, Clone)]
pub struct UserMessage {
    pub number: String,
    pub value: String,
    pub count: u32,
    pub bytes: Vec<u8>,
}

/// What a user record holds, as plain values.
pub struct UserMessageModel {
    pub number: Seq<char>,
    pub value: Seq<char>,
    pub count: u32,
    pub bytes: Seq<u8>,
}

impl View for UserMessage {
    type V = UserMessageModel;

    open spec fn view(&self) -> UserMessageModel {
        UserMessageModel {
            number: self.number@,
            value: self.value@,
            count: self.count,
            bytes: self.bytes@,
        }
    }
}

/// A step of a user record is defined: its number reads as a `u32` below
/// the largest, its counter can grow, and no byte is 255.
pub open spec fn user_next_defined(m: UserMessageModel) -> bool {
    &&& parse_u32_spec(m.number) is Some
    &&& parse_u32_spec(m.number)->0 < u32::MAX
    &&& m.count < u32::MAX
    &&& forall|i: int| 0 <= i < m.bytes.len() ==> #[trigger] m.bytes[i] < 255
}

/// The label of a user record with number text `number`.
pub open spec fn user_label(number: Seq<char>) -> Seq<char> {
    "value "@ + number
}

/// Every byte one higher.
pub open spec fn bytes_plus_one(b: Seq<u8>) -> Seq<u8> {
    b.map_values(|x: u8| (x + 1) as u8)
}

/// A user record after one step: the number one higher, the label made
/// from the new number, the counter one higher and every byte one higher.
pub open spec fn user_next(m: UserMessageModel) -> UserMessageModel {
    let n = decimal((parse_u32_spec(m.number)->0 + 1) as nat);
    UserMessageModel {
        number: n,
        value: user_label(n),
        count: (m.count + 1) as u32,
        bytes: bytes_plus_one(m.bytes),
    }
}

/// A user record goes on while its counter, after the step, is at most 20.
pub open spec fn user_more(m: UserMessageModel) -> bool {
    m.count + 1 <= 20
}

fn increment_bytes(bytes: &Vec<u8>) -> (r: Vec<u8>)
    requires
        forall|i: int| 0 <= i < bytes@.len() ==> #[trigger] bytes@[i] < 255,
    ensures
        r@ == bytes_plus_one(bytes@),
{
    let mut r: Vec<u8> = Vec::new();
    let mut i: usize = 0;
    while i < bytes.len()
        invariant
            i <= bytes@.len(),
            forall|j: int| 0 <= j < bytes@.len() ==> #[trigger] bytes@[j] < 255,
            r@ =~= bytes_plus_one(bytes@).take(i as int),
        decreases bytes@.len() - i,
    {
        r.push(bytes[i] + 1);
        i = i + 1;
    }
    r
}

impl Default for UserMessage {
    fn default() -> (r: Self)
        ensures
            r@.number == Seq::<char>::empty(),
            r@.value == Seq::<char>::empty(),
            r@.count == 0,
            r@.bytes == Seq::<u8>::empty(),
    {
        UserMessage { number: String::new(), value: String::new(), count: 0, bytes: Vec::new() }
    }
}

impl Message for UserMessage {
    open spec fn next_defined(m: UserMessageModel) -> bool {
        user_next_defined(m)
    }

    open spec fn next_model(m: UserMessageModel) -> UserMessageModel {
        user_next(m)
    }

    open spec fn next_more(m: UserMessageModel) -> bool {
        user_more(m)
    }

    fn can_next(&self) -> (r: bool) {
        match parse_u32(self.number.as_str()) {
            None => false,
            Some(n) => {
                if n == 4294967295u32 || self.count == 4294967295u32 {
                    return false;
                }
                let mut i: usize = 0;
                while i < self.bytes.len()
                    invariant
                        i <= self.bytes@.len(),
                        forall|j: int| 0 <= j < i ==> #[trigger] self.bytes@[j] < 255,
                    decreases self.bytes@.len() - i,
                {
                    if self.bytes[i] == 255 {
                        assert(self@.bytes[i as int] == 255);
                        return false;
                    }
                    i = i + 1;
                }
                true
            },
        }
    }

    fn next(&mut self) -> (more: bool) {
        let ghost before = self@;
        assert forall|i: int| 0 <= i < self.bytes@.len() implies #[trigger] self.bytes@[i] < 255 by {
            assert(before.bytes[i] < 255);
        }
        let n = parse_u32(self.number.as_str()).unwrap();
        let number = u32_to_string(n + 1);
        let mut value = String::from_str("value ");
        value.append(number.as_str());
        self.number = number;
        self.value = value;
        self.count = self.count + 1;
        self.bytes = increment_bytes(&self.bytes);
        self.count <= 20
    }
}

impl Metric for UserMessage {
    open spec fn metrics(m: UserMessageModel) -> Option<Seq<(Seq<char>, Seq<char>)>> {
        Some(Seq::empty())
    }

    /// A user record has no metric fields: it reports an empty list.
    fn collect_metrics(&self) -> (r: Option<Vec<(String, String)>>) {
        let data: Vec<(String, String)> = Vec::new();
        assert(data@.map_values(|p: (String, String)| (p.0@, p.1@)) =~= Seq::empty());
        Some(data)
    }
}

/// After a step, the number of a user record reads back as one more than
/// before, so the record can step again as long as its counter and bytes
/// allow.
pub proof fn law_user_number_steps(m: UserMessageModel)
    requires
        user_next_defined(m),
    ensures
        parse_u32_spec(user_next(m).number) == Some((parse_u32_spec(m.number)->0 + 1) as u32),
{
    law_parse_decimal_roundtrip((parse_u32_spec(m.number)->0 + 1) as u32);
}

/// A user record after `k` steps.
pub open spec fn user_steps(m: UserMessageModel, k: nat) -> UserMessageModel
    decreases k,
{
    if k == 0 {
        m
    } else {
        user_next(user_steps(m, (k - 1) as nat))
    }
}

/// Every byte `k` higher.
pub open spec fn bytes_plus(b: Seq<u8>, k: nat) -> Seq<u8> {
    b.map_values(|x: u8| (x + k) as u8)
}

/// A user record whose number is the text of `n` and whose counter is 0:
/// after `k` steps its number is the text of `n + k`, its label is made from
/// that number, its counter is `k` and each byte is `k` higher; the next step
/// is defined while the number, the counter and the bytes can still grow, and
/// it says the stream goes on exactly when `k + 1 <= 20`. So a publisher that
/// starts from counter 0 sends 21 such records.
pub proof fn law_user_stream(n: u32, value: Seq<char>, bytes: Seq<u8>, k: nat)
    requires
        n + k + 1 < u32::MAX,
        k + 1 < u32::MAX,
        forall|i: int| 0 <= i < bytes.len() ==> #[trigger] bytes[i] + k < 255,
    ensures
        ({
            let m = user_steps(UserMessageModel { number: decimal(n as nat), value, count: 0, bytes }, k);
            &&& m.number == decimal((n + k) as nat)
            &&& k > 0 ==> m.value == user_label(decimal((n + k) as nat))
            &&& m.count == k
            &&& m.bytes == bytes_plus(bytes, k)
            &&& user_next_defined(m)
            &&& user_more(m) == (k + 1 <= 20)
        }),
    decreases k,
{
    let m0 = UserMessageModel { number: decimal(n as nat), value, count: 0, bytes };
    law_parse_decimal_roundtrip((n + k) as u32);
    if k > 0 {
        law_user_stream(n, value, bytes, (k - 1) as nat);
        let prev = user_steps(m0, (k - 1) as nat);
        law_parse_decimal_roundtrip((n + k - 1) as u32);
        assert(parse_u32_spec(prev.number) == Some((n + k - 1) as u32));
        assert(user_steps(m0, k) == user_next(prev));
        assert(bytes_plus_one(bytes_plus(bytes, (k - 1) as nat)) =~= bytes_plus(bytes, k));
    } else {
        assert(bytes_plus(bytes, 0) =~= bytes);
    }
    let m = user_steps(m0, k);
    assert(parse_u32_spec(m.number) == Some((n + k) as u32));
}

/// After a step, a user record's label is `value ` followed by its new
/// number, its counter is one higher, and its number reads back as one more
/// than before.
pub proof fn law_user_label_follows_number(m: UserMessageModel)
    requires
        user_next_defined(m),
    ensures
        user_next(m).value == "value "@ + user_next(m).number,
        user_next(m).count == m.count + 1,
        parse_u32_spec(user_next(m).number) == Some((parse_u32_spec(m.number)->0 + 1) as u32),
        user_next(m).bytes.len() == m.bytes.len(),
        forall|i: int| 0 <= i < m.bytes.len() ==> #[trigger] user_next(m).bytes[i] == m.bytes[i] + 1,
{
    law_user_number_steps(m);
}

/// A machine record: a text and a counter.
#[derive(Debug, Clone)]
pub struct MachineMessage {
    pub message: String,
    pub count: u32,
}

/// What a machine record holds, as plain values.
pub struct MachineMessageModel {
    pub message: Seq<char>,
    pub count: u32,
}

impl View for MachineMessage {
    type V = MachineMessageModel;

    open spec fn view(&self) -> MachineMessageModel {
        MachineMessageModel { message: self.message@, count: self.count }
    }
}

impl MachineMessage {
    pub fn new(message: String, count: u32) -> (r: Self)
        ensures
            r.message == message,
            r.count == count,
    {
        MachineMessage { message, count }
    }
}

impl Default for MachineMessage {
    /// The record `"message 0"` with counter 0.
    fn default() -> (r: Self)
        ensures
            r@.message == "message 0"@,
            r@.count == 0,
    {
        MachineMessage { message: String::from_str("message 0"), count: 0 }
    }
}

impl Message for MachineMessage {
    open spec fn next_defined(m: MachineMessageModel) -> bool {
        true
    }

    open spec fn next_model(m: MachineMessageModel) -> MachineMessageModel {
        m
    }

    open spec fn next_more(m: MachineMessageModel) -> bool {
        true
    }

    fn can_next(&self) -> (r: bool) {
        true
    }

    /// A machine record is sent again unchanged, without end.
    fn next(&mut self) -> (more: bool) {
        true
    }
}

/// A machine record steps to itself, whatever its counter, and its stream
/// never ends.
pub proof fn law_machine_stream_endless(m: MachineMessageModel)
    ensures
        <MachineMessage as Message>::next_defined(m),
        <MachineMessage as Message>::next_model(m) == m,
        <MachineMessage as Message>::next_more(m),
{
}

impl Metric for MachineMessage {
    open spec fn metrics(m: MachineMessageModel) -> Option<Seq<(Seq<char>, Seq<char>)>> {
        Some(Seq::empty())
    }

    /// A machine record has no metric fields: it reports an empty list.
    fn collect_metrics(&self) -> (r: Option<Vec<(String, String)>>) {
        let data: Vec<(String, String)> = Vec::new();
        assert(data@.map_values(|p: (String, String)| (p.0@, p.1@)) =~= Seq::empty());
        Some(data)
    }
}

} // verus!
