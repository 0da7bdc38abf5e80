//! A sample reactor: it echoes messages and measures how long they take.

use crate::msg_reader::{
    decodes_prefixes, rest_left, result_fits, DispatchResult, MessageResult,
};
use crate::read_history::{asked_for, expects_honestly, has_message, is_message};
use crate::reactor_id::{invalid_reactor_id, ReactorID};
use vstd::prelude::*;
use vstd::relations::{sorted_by, total_ordering};

verus! {

/// The header of a message.
#[derive(Debug, Clone, Copy, PartialEq, Eq, Structural)]
pub struct MsgHeader {
    /// The length of the message without its header.
    pub body_len: u16,
    /// When the message was sent.
    pub send_time: i64,
}

/// The length of an encoded header: two bytes of the body's length, then eight of the time.
pub const MSG_HEADER_SIZE: usize = 10;

/// How many durations are collected before they are reported.
pub const LATENCY_BATCH_SIZE: i32 = 10000;

/// The number whose bytes these are, the lowest first.
pub open spec fn le_value(s: Seq<u8>) -> nat
    decreases s.len(),
{
    if s.len() == 0 {
        0
    } else {
        s[0] as nat + 256 * le_value(s.skip(1))
    }
}

/// The lowest `n` bytes of a number, the lowest first.
pub open spec fn le_bytes(x: nat, n: nat) -> Seq<u8>
    decreases n,
{
    if n == 0 {
        Seq::empty()
    } else {
        seq![(x % 256) as u8] + le_bytes(x / 256, (n - 1) as nat)
    }
}

/// One more than the largest number of `n` bytes.
pub open spec fn le_limit(n: nat) -> nat
    decreases n,
{
    if n == 0 {
        1
    } else {
        256 * le_limit((n - 1) as nat)
    }
}

proof fn lemma_le_bytes(x: nat, n: nat)
    requires
        x < le_limit(n),
    ensures
        le_bytes(x, n).len() == n,
        le_value(le_bytes(x, n)) == x,
    decreases n,
{
    if n > 0 {
        lemma_le_bytes(x / 256, (n - 1) as nat);
        assert(le_bytes(x, n).skip(1) =~= le_bytes(x / 256, (n - 1) as nat));
    }
}

proof fn lemma_le_value(s: Seq<u8>)
    ensures
        le_value(s) < le_limit(s.len()),
    decreases s.len(),
{
    if s.len() > 0 {
        lemma_le_value(s.skip(1));
    }
}

/// Reads a number of up to eight bytes.
fn read_le(buf: &[u8], from: usize, to: usize) -> (r: u64)
    requires
        from <= to <= buf@.len(),
        to - from <= 8,
    ensures
        r == le_value(buf@.subrange(from as int, to as int)),
{
    let mut r: u64 = 0;
    let mut i: usize = to;
    proof {
        reveal_with_fuel(le_limit, 9);
    }
    while i > from
        invariant
            from <= i <= to <= buf@.len(),
            to - from <= 8,
            r == le_value(buf@.subrange(i as int, to as int)),
        decreases i,
    {
        let ghost s = buf@.subrange(i - 1, to as int);
        proof {
            assert(s.skip(1) =~= buf@.subrange(i as int, to as int));
            lemma_le_value(s);
            reveal_with_fuel(le_limit, 9);
        }
        i = i - 1;
        r = r * 256 + buf[i] as u64;
    }
    r
}

/// Appends the lowest `n` bytes of a number.
fn push_le(v: &mut Vec<u8>, x: u64, n: usize)
    ensures
        final(v)@ == old(v)@ + le_bytes(x as nat, n as nat),
{
    let mut rest: u64 = x;
    let mut i: usize = 0;
    let ghost start = v@;
    assert(v@ + le_bytes(x as nat, n as nat) =~= start + le_bytes(x as nat, n as nat));
    while i < n
        invariant
            i <= n,
            v@ + le_bytes(rest as nat, (n - i) as nat) == start + le_bytes(x as nat, n as nat),
        decreases n - i,
    {
        let ghost before = v@;
        let ghost tail = le_bytes((rest / 256) as nat, (n - i - 1) as nat);
        v.push((rest % 256) as u8);
        assert(before + (seq![(rest % 256) as u8] + tail) =~= v@ + tail);
        rest = rest / 256;
        i = i + 1;
    }
    assert(v@ + Seq::<u8>::empty() =~= v@);
}

/// The header at the front of the bytes.
pub open spec fn header_at(buf: Seq<u8>) -> MsgHeader {
    MsgHeader {
        body_len: le_value(buf.subrange(0, 2)) as u16,
        send_time: (le_value(buf.subrange(2, 10)) as u64) as i64,
    }
}

/// The bytes of a header.
pub open spec fn header_bytes(header: MsgHeader) -> Seq<u8> {
    le_bytes(header.body_len as nat, 2) + le_bytes((header.send_time as u64) as nat, 8)
}

impl MsgHeader {
    /// Reads the header at the front of the bytes.
    pub fn decode(buf: &[u8]) -> (r: Self)
        requires
            buf@.len() >= MSG_HEADER_SIZE,
        ensures
            r == header_at(buf@),
    {
        proof {
            lemma_le_value(buf@.subrange(0, 2));
            reveal_with_fuel(le_limit, 3);
        }
        Self { body_len: read_le(buf, 0, 2) as u16, send_time: read_le(buf, 2, 10) as i64 }
    }

    /// The bytes of the header.
    pub fn encode(&self) -> (r: Vec<u8>)
        ensures
            r@ == header_bytes(*self),
            r@.len() == MSG_HEADER_SIZE,
    {
        let mut v: Vec<u8> = Vec::new();
        push_le(&mut v, self.body_len as u64, 2);
        push_le(&mut v, self.send_time as u64, 8);
        proof {
            lemma_header_len(*self);
            assert(v@ =~= header_bytes(*self));
        }
        v
    }
}

proof fn lemma_header_len(header: MsgHeader)
    ensures
        le_bytes(header.body_len as nat, 2).len() == 2,
        le_value(le_bytes(header.body_len as nat, 2)) == header.body_len,
        le_bytes((header.send_time as u64) as nat, 8).len() == 8,
        le_value(le_bytes((header.send_time as u64) as nat, 8)) == header.send_time as u64,
{
    reveal_with_fuel(le_limit, 9);
    lemma_le_bytes(header.body_len as nat, 2);
    lemma_le_bytes((header.send_time as u64) as nat, 8);
}

/// A header comes back from its bytes, whatever follows them.
pub proof fn law_header_round_trip(header: MsgHeader, body: Seq<u8>)
    ensures
        header_bytes(header).len() == MSG_HEADER_SIZE,
        header_at(header_bytes(header) + body) == header,
{
    lemma_header_len(header);
    let all = header_bytes(header) + body;
    assert(all.subrange(0, 2) =~= le_bytes(header.body_len as nat, 2));
    assert(all.subrange(2, 10) =~= le_bytes((header.send_time as u64) as nat, 8));
    let t = header.send_time;
    assert((t as u64) as i64 == t) by (bit_vector);
}

/// How a message is cut from the bytes: by the length in its header, once that has come.
pub open spec fn echo_decode(buf: Seq<u8>) -> MessageResult {
    if buf.len() < MSG_HEADER_SIZE {
        MessageResult::ExpectMsgSize(0)
    } else {
        let size = header_at(buf).body_len + MSG_HEADER_SIZE;
        if size > buf.len() {
            MessageResult::ExpectMsgSize(size as usize)
        } else {
            MessageResult::DropMsgSize(size as usize)
        }
    }
}

/// Where a message ends does not depend on what follows it, and there is no message in fewer bytes
/// than are waited for: a dispatcher that answers so is shown the messages of a stream, however they
/// arrive.
pub proof fn law_echo_decodes_streams()
    ensures
        decodes_prefixes(|buf: Seq<u8>| echo_decode(buf)),
        expects_honestly(|buf: Seq<u8>| echo_decode(buf)),
{
    let decode = |buf: Seq<u8>| echo_decode(buf);
    assert forall|b: Seq<u8>, more: Seq<u8>|
        decode(b) is DropMsgSize && result_fits(b, decode(b)) implies #[trigger] decode(b + more)
        == decode(b) by {
        assert((b + more).subrange(0, 2) =~= b.subrange(0, 2));
    }
    assert forall|b: Seq<u8>, more: Seq<u8>|
        (decode(b) matches MessageResult::ExpectMsgSize(n) && (b + more).len()
            < n) implies !#[trigger] has_message(decode, b + more) by {
        assert((b + more).subrange(0, 2) =~= b.subrange(0, 2));
    }
}

/// Where the size is one that was asked for, and as many bytes are there, it is the size of the message
/// that they begin with. A new time in the header of a message changes no byte behind the message.
pub proof fn law_echo_answers(buf: Seq<u8>, msg_size: usize, send_time: i64)
    requires
        asked_for(|b: Seq<u8>| echo_decode(b), buf, msg_size),
        msg_size <= buf.len(),
    ensures
        msg_size == 0 || (MSG_HEADER_SIZE <= msg_size && echo_decode(buf)
            == MessageResult::DropMsgSize(msg_size)),
        echo_decode(buf) is DropMsgSize ==> rest_left(
            buf,
            header_bytes(MsgHeader { send_time, ..header_at(buf) }) + buf.skip(
                MSG_HEADER_SIZE as int,
            ),
            echo_decode(buf),
        ),
{
    if msg_size != 0 {
        let decode = |b: Seq<u8>| echo_decode(b);
        let n = choose|n: int|
            0 <= n <= buf.len() && decode(#[trigger] buf.take(n)) == MessageResult::ExpectMsgSize(
                msg_size,
            );
        assert(decode(buf.take(n)) == echo_decode(buf.take(n)));
        assert(buf.take(n).subrange(0, 2) =~= buf.subrange(0, 2));
    }
    if echo_decode(buf) is DropMsgSize {
        let header = MsgHeader { send_time, ..header_at(buf) };
        let size = echo_decode(buf)->DropMsgSize_0 as int;
        lemma_header_len(header);
        let after = header_bytes(header) + buf.skip(MSG_HEADER_SIZE as int);
        assert(after.skip(size) =~= buf.skip(size));
    }
}

/// A header that tells the length of the body, with the body behind it, is one message.
pub proof fn law_encoded_is_message(header: MsgHeader, body: Seq<u8>)
    requires
        header.body_len == body.len(),
    ensures
        is_message(|buf: Seq<u8>| echo_decode(buf), header_bytes(header) + body),
{
    law_header_round_trip(header, body);
}

/// What is left to do for the bytes that were shown.
#[derive(Debug, Clone, Copy, PartialEq, Eq, Structural)]
pub enum EchoStep {
    /// Wait for this many bytes, or for any if zero.
    Expect(usize),
    /// A message of this size: whether to report the durations, and whether to send it back.
    Message { size: usize, report: bool, echo: bool },
}

/// Durations in microseconds.
#[derive(Debug, Clone, Copy, PartialEq, Eq, Structural)]
pub struct LatencyReport {
    pub size: usize,
    pub min: i64,
    pub median: i64,
    pub p99: i64,
    pub max: i64,
}

/// Echoes messages, up to a number of them, and collects how long they took.
#[derive(Debug)]
pub struct EchoAndLatency {
    pub parent_listener: ReactorID,
    pub is_client: bool,
    pub max_echo: i32,
    pub count_echo: i32,
    pub latency_batch: i32,
    pub last_sent_time: i64,
    pub single_trip_durations: Vec<i64>,
    pub round_trip_durations: Vec<i64>,
}

/// The durations with one more, if a message has been sent before.
pub open spec fn measured(durations: Seq<i64>, last_sent_time: i64, now: i64, then: i64) -> Seq<i64> {
    if last_sent_time > 0 {
        durations.push(now.wrapping_sub(then))
    } else {
        durations
    }
}

/// Nanoseconds as microseconds, rounded towards zero.
pub open spec fn micros(nanos: i64) -> int {
    if nanos >= 0 {
        nanos as int / 1000
    } else {
        -((-nanos) / 1000)
    }
}

/// The durations in ascending order.
pub open spec fn ascending(durations: Seq<i64>) -> Seq<i64> {
    durations.sort_by(|a: i64, b: i64| a <= b)
}

/// `<[i64]>::sort`: puts the same numbers in ascending order.
#[verifier::external_body]
fn sort_numbers(v: &mut Vec<i64>)
    ensures
        final(v)@.to_multiset() == old(v)@.to_multiset(),
        forall|i: int, j: int|
            0 <= i <= j < final(v)@.len() ==> #[trigger] final(v)@[i] <= #[trigger] final(v)@[j],
{
    v.sort();
}

/// What the arrival of bytes comes to: `msg_size` is what was asked for, or zero. A full message is
/// measured.
pub open spec fn echo_dispatched(
    before: EchoAndLatency,
    buf: Seq<u8>,
    msg_size: usize,
    recvtime: i64,
    r: EchoStep,
    after: EchoAndLatency,
) -> bool {
    let header = header_at(buf);
    let size = if msg_size == 0 {
        header.body_len + MSG_HEADER_SIZE
    } else {
        msg_size as int
    };
    if msg_size == 0 && echo_decode(buf) is ExpectMsgSize {
        &&& r == EchoStep::Expect(echo_decode(buf)->ExpectMsgSize_0)
        &&& after == before
    } else {
        &&& MSG_HEADER_SIZE <= buf.len()
        &&& r == (EchoStep::Message {
            size: size as usize,
            report: (after.round_trip_durations@.len() as usize) as i32 == before.latency_batch,
            echo: before.count_echo < before.max_echo,
        })
        &&& after.round_trip_durations@ == measured(
            before.round_trip_durations@,
            before.last_sent_time,
            recvtime,
            before.last_sent_time,
        )
        &&& after.single_trip_durations@ == measured(
            before.single_trip_durations@,
            before.last_sent_time,
            recvtime,
            header.send_time,
        )
        &&& after == (EchoAndLatency {
            round_trip_durations: after.round_trip_durations,
            single_trip_durations: after.single_trip_durations,
            ..before
        })
    }
}

impl EchoAndLatency {
    /// Bytes have come: `msg_size` is what was asked for, or zero. A full message is measured by the
    /// time `recvtime` of its arrival.
    pub fn dispatch(&mut self, buf: &[u8], msg_size: usize, recvtime: i64) -> (r: EchoStep)
        requires
            msg_size == 0 || MSG_HEADER_SIZE <= msg_size <= buf@.len(),
        ensures
            echo_dispatched(*old(self), buf@, msg_size, recvtime, r, *final(self)),
    {
        let mut size: usize = msg_size;
        if msg_size == 0 {
            if buf.len() < MSG_HEADER_SIZE {
                return EchoStep::Expect(0);
            }
            size = MsgHeader::decode(buf).body_len as usize + MSG_HEADER_SIZE;
            if size > buf.len() {
                return EchoStep::Expect(size);
            }
        }
        let header = MsgHeader::decode(buf);
        if self.last_sent_time > 0 {
            self.round_trip_durations.push(recvtime.wrapping_sub(self.last_sent_time));
            self.single_trip_durations.push(recvtime.wrapping_sub(header.send_time));
        }
        let report = self.round_trip_durations.len() as i32 == self.latency_batch;
        let echo = self.count_echo < self.max_echo;
        EchoStep::Message { size, report, echo }
    }

    /// A message gets a new time, `send_time`, before it is sent back. Where it is to be sent back,
    /// `sent_time` is when that is.
    pub fn stamp(&mut self, buf: &mut [u8], send_time: i64, sent_time: i64)
        requires
            MSG_HEADER_SIZE <= old(buf)@.len(),
        ensures
            final(buf)@ == header_bytes(MsgHeader { send_time, ..header_at(old(buf)@) }) + old(
                buf
            )@.skip(MSG_HEADER_SIZE as int),
            stamped(*old(self), old(buf)@, send_time, sent_time, *final(self), final(buf)@),
            *final(self) == (EchoAndLatency {
                last_sent_time: (if old(self).count_echo < old(self).max_echo {
                    sent_time
                } else {
                    old(self).last_sent_time
                }),
                ..*old(self)
            }),
    {
        let header = MsgHeader::decode(buf);
        let bytes = MsgHeader { body_len: header.body_len, send_time }.encode();
        write_front(buf, &bytes);
        if self.count_echo < self.max_echo {
            self.last_sent_time = sent_time;
        }
    }

    /// A message has been handled; `sent` is whether it could be sent back, if it was to be.
    pub fn end_message(&mut self, size: usize, sent: Option<bool>) -> (r: DispatchResult)
        requires
            sent == Some(true) ==> old(self).count_echo < i32::MAX,
        ensures
            r == (if sent == Some(false) {
                DispatchResult::Error
            } else {
                DispatchResult::DropMsgSize(size)
            }),
            message_ended(*old(self), size, sent, r, *final(self)),
            *final(self) == (EchoAndLatency {
                count_echo: (if sent == Some(true) {
                    old(self).count_echo + 1
                } else {
                    old(self).count_echo as int
                }) as i32,
                ..*old(self)
            }),
    {
        if let Some(ok) = sent {
            if !ok {
                return DispatchResult::Error;
            }
            self.count_echo = self.count_echo + 1;
        }
        DispatchResult::DropMsgSize(size)
    }

    /// What the collected round trips come to; they are dropped with it. `p99_index` is the place
    /// of the one that 99 of 100 do not exceed, in ascending order. The largest is left out: `max` is
    /// the one before it.
    pub fn report_latencies(&mut self, p99_index: usize) -> (r: LatencyReport)
        requires
            old(self).round_trip_durations@.len() >= 2,
            p99_index < old(self).round_trip_durations@.len(),
        ensures
            ({
                let n = old(self).round_trip_durations@.len();
                let d = ascending(old(self).round_trip_durations@);
                &&& d.len() == n
                &&& r.size == n
                &&& r.min == micros(d[0])
                &&& r.median == micros(d[n as int / 2])
                &&& r.p99 == micros(d[p99_index as int])
                &&& r.max == micros(d[n - 2])
            }),
            latencies_reported(old(self).round_trip_durations@, p99_index, r),
            final(self).round_trip_durations@ == Seq::<i64>::empty(),
            final(self).single_trip_durations@ == Seq::<i64>::empty(),
            *final(self) == (EchoAndLatency {
                round_trip_durations: final(self).round_trip_durations,
                single_trip_durations: final(self).single_trip_durations,
                ..*old(self)
            }),
    {
        let ghost before = self.round_trip_durations@;
        let fact: i64 = 1000;
        sort_numbers(&mut self.round_trip_durations);
        proof {
            lemma_ascending(before, self.round_trip_durations@);
        }
        let d = &self.round_trip_durations;
        let n = d.len();
        let r = LatencyReport {
            size: n,
            min: d[0] / fact,
            median: d[n / 2] / fact,
            p99: d[p99_index] / fact,
            max: d[n - 2] / fact,
        };
        self.single_trip_durations.clear();
        self.round_trip_durations.clear();
        r
    }
}

/// There is one way to put numbers in ascending order.
proof fn lemma_ascending(s: Seq<i64>, sorted: Seq<i64>)
    requires
        sorted.to_multiset() == s.to_multiset(),
        forall|i: int, j: int|
            0 <= i <= j < sorted.len() ==> #[trigger] sorted[i] <= #[trigger] sorted[j],
    ensures
        sorted == ascending(s),
        sorted.len() == s.len(),
{
    let leq = |a: i64, b: i64| a <= b;
    assert(total_ordering(leq));
    s.lemma_sort_by_ensures(leq);
    assert(sorted_by(sorted, leq));
    vstd::seq_lib::lemma_sorted_unique(sorted, ascending(s), leq);
    vstd::seq_lib::to_multiset_len(s);
    vstd::seq_lib::to_multiset_len(sorted);
}

/// What a reactor does when it is connected.
#[derive(Debug)]
pub enum ConnectedStep {
    /// Send the first message.
    SendMsg(Vec<u8>),
    /// Close the listener that accepted the connection.
    CloseListener(ReactorID),
}

/// The body of the first message.
pub open spec fn first_body() -> Seq<u8> {
    seq![116u8, 101u8, 115u8, 116u8, 32u8, 109u8, 115u8, 103u8, 48u8, 48u8]
}

/// A reactor that echoes messages; a client sends the first one.
#[derive(Debug)]
pub struct MyReactor {
    pub dispatcher: EchoAndLatency,
}

impl Default for MyReactor {
    /// A server that echoes as long as it can.
    fn default() -> (r: Self)
        ensures
            r.is_new(false, i32::MAX, LATENCY_BATCH_SIZE),
    {
        Self::new(false, i32::MAX, LATENCY_BATCH_SIZE)
    }
}

impl MyReactor {
    /// The reactor as it is made.
    pub open spec fn is_new(&self, is_client: bool, max_echo: i32, latency_batch: i32) -> bool {
        &&& self.dispatcher.parent_listener == invalid_reactor_id()
        &&& self.dispatcher.is_client == is_client
        &&& self.dispatcher.max_echo == max_echo
        &&& self.dispatcher.count_echo == 0
        &&& self.dispatcher.latency_batch == latency_batch
        &&& self.dispatcher.last_sent_time == 0
        &&& self.dispatcher.single_trip_durations@ == Seq::<i64>::empty()
        &&& self.dispatcher.round_trip_durations@ == Seq::<i64>::empty()
    }

    pub fn new(is_client: bool, max_echo: i32, latency_batch: i32) -> (r: Self)
        ensures
            r.is_new(is_client, max_echo, latency_batch),
    {
        Self {
            dispatcher: EchoAndLatency {
                parent_listener: invalid_reactor_id(),
                is_client,
                max_echo,
                count_echo: 0,
                latency_batch,
                last_sent_time: 0,
                single_trip_durations: Vec::new(),
                round_trip_durations: Vec::new(),
            },
        }
    }

    pub fn new_client(max_echo: i32, latency_batch: i32) -> (r: Box<Self>)
        ensures
            r.is_new(true, max_echo, latency_batch),
    {
        Box::new(Self::new(true, max_echo, latency_batch))
    }

    /// The reactor is connected, by the listener if it is a server.
    pub fn on_connected(&mut self, listener: ReactorID, send_time: i64) -> (r: ConnectedStep)
        ensures
            final(self).dispatcher == (EchoAndLatency {
                parent_listener: listener,
                ..old(self).dispatcher
            }),
            first_step(old(self).dispatcher.is_client, listener, send_time, r),
            match r {
                ConnectedStep::SendMsg(msg) => old(self).dispatcher.is_client && msg@
                    == header_bytes(MsgHeader { body_len: 10, send_time }) + first_body(),
                ConnectedStep::CloseListener(id) => !old(self).dispatcher.is_client && id
                    == listener,
            },
    {
        self.dispatcher.parent_listener = listener;
        if self.dispatcher.is_client {
            let mut msg = MsgHeader { body_len: 10, send_time }.encode();
            let body: [u8; 10] = [116, 101, 115, 116, 32, 109, 115, 103, 48, 48];
            msg.extend_from_slice(body.as_slice());
            assert(body@ =~= first_body());
            assert(msg@ =~= header_bytes(MsgHeader { body_len: 10, send_time }) + first_body());
            ConnectedStep::SendMsg(msg)
        } else {
            ConnectedStep::CloseListener(listener)
        }
    }

    /// The socket has been read; `ok` is whether it can be read on. Returns false to close it, also
    /// when all messages have been echoed.
    pub fn on_readable(&self, ok: bool) -> (r: bool)
        ensures
            r == (ok && self.dispatcher.count_echo < self.dispatcher.max_echo),
    {
        ok && self.dispatcher.count_echo < self.dispatcher.max_echo
    }
}

/// Overwrites the front of the bytes.
fn write_front(buf: &mut [u8], bytes: &Vec<u8>)
    requires
        bytes@.len() <= old(buf)@.len(),
    ensures
        final(buf)@ == bytes@ + old(buf)@.skip(bytes@.len() as int),
{
    let ghost before = buf@;
    let mut i: usize = 0;
    while i < bytes.len()
        invariant
            i <= bytes@.len() <= before.len(),
            buf@ == bytes@.take(i as int) + before.skip(i as int),
        decreases bytes@.len() - i,
    {
        buf[i] = bytes[i];
        i = i + 1;
        assert(buf@ =~= bytes@.take(i as int) + before.skip(i as int));
    }
    assert(bytes@.take(i as int) =~= bytes@);
}

/// A header is ten bytes: two of the body's length and eight of the time, each with the lowest byte
/// first. The time is counted modulo the largest number of eight bytes.
pub proof fn law_header_layout(header: MsgHeader)
    ensures
        MSG_HEADER_SIZE == 10,
        ({
            let b = header_bytes(header);
            let t = (header.send_time as u64) as int;
            &&& b.len() == 10
            &&& b[0] == header.body_len as int % 256
            &&& b[1] == header.body_len as int / 256
            &&& b[2] == t % 256
            &&& b[3] == t / 0x100 % 256
            &&& b[4] == t / 0x1_0000 % 256
            &&& b[5] == t / 0x100_0000 % 256
            &&& b[6] == t / 0x1_0000_0000 % 256
            &&& b[7] == t / 0x100_0000_0000 % 256
            &&& b[8] == t / 0x1_0000_0000_0000 % 256
            &&& b[9] == t / 0x100_0000_0000_0000
        }),
{
    lemma_header_len(header);
    let t = (header.send_time as u64) as nat;
    let (head, tail) = (le_bytes(header.body_len as nat, 2), le_bytes(t, 8));
    lemma_byte_at(header.body_len as nat, 2, 0);
    lemma_byte_at(header.body_len as nat, 2, 1);
    lemma_byte_at(t, 8, 0);
    lemma_byte_at(t, 8, 1);
    lemma_byte_at(t, 8, 2);
    lemma_byte_at(t, 8, 3);
    lemma_byte_at(t, 8, 4);
    lemma_byte_at(t, 8, 5);
    lemma_byte_at(t, 8, 6);
    lemma_byte_at(t, 8, 7);
    assert(le_limit(0) == 1);
    assert(le_limit(1) == 0x100);
    assert(le_limit(2) == 0x1_0000);
    assert(le_limit(3) == 0x100_0000);
    assert(le_limit(4) == 0x1_0000_0000);
    assert(le_limit(5) == 0x100_0000_0000);
    assert(le_limit(6) == 0x1_0000_0000_0000);
    assert(le_limit(7) == 0x100_0000_0000_0000);
    let b = header_bytes(header);
    assert(b[0] == head[0] && b[1] == head[1]);
    assert forall|i: int| 0 <= i < 8 implies b[2 + i] == #[trigger] tail[i] by {}
}

/// The bytes of a number are its digits to the base of 256, the lowest first.
proof fn lemma_byte_at(x: nat, n: nat, i: nat)
    requires
        i < n,
    ensures
        le_bytes(x, n).len() == n,
        le_bytes(x, n)[i as int] == x as int / le_limit(i) as int % 256,
    decreases n,
{
    let rest = le_bytes(x / 256, (n - 1) as nat);
    assert(rest.len() == n - 1) by {
        if n > 1 {
            lemma_byte_at(x / 256, (n - 1) as nat, 0);
        }
    }
    if i == 0 {
        assert(le_limit(0) == 1);
        assert(x as int / 1 == x);
    } else {
        lemma_byte_at(x / 256, (n - 1) as nat, (i - 1) as nat);
        let m = le_limit((i - 1) as nat) as int;
        lemma_limit_positive((i - 1) as nat);
        assert(le_bytes(x, n)[i as int] == rest[i - 1]);
        assert(x as int / 256 / m == x as int / (256 * m)) by {
            vstd::arithmetic::div_mod::lemma_div_denominator(x as int, 256, m);
        }
    }
}

proof fn lemma_limit_positive(n: nat)
    ensures
        le_limit(n) > 0,
    decreases n,
{
    if n > 0 {
        lemma_limit_positive((n - 1) as nat);
    }
}

/// Of a message that comes in parts, nothing is known until its header is there; then its whole size
/// is waited for, and once all of it is there it is dropped, whatever follows it.
pub proof fn law_echo_cuts_messages(header: MsgHeader, body: Seq<u8>, more: Seq<u8>, n: int)
    requires
        header.body_len == body.len(),
        0 <= n <= 10 + body.len(),
    ensures
        ({
            let msg = header_bytes(header) + body;
            let size = 10 + body.len();
            &&& msg.len() == size
            &&& n < 10 ==> echo_decode(msg.take(n)) == MessageResult::ExpectMsgSize(0)
            &&& 10 <= n < size ==> echo_decode(msg.take(n)) == MessageResult::ExpectMsgSize(
                size as usize,
            )
            &&& echo_decode(msg + more) == MessageResult::DropMsgSize(size as usize)
        }),
{
    law_header_round_trip(header, body);
    let msg = header_bytes(header) + body;
    if n >= 10 {
        assert(msg.take(n).subrange(0, 2) =~= msg.subrange(0, 2));
    }
    assert((msg + more).subrange(0, 2) =~= msg.subrange(0, 2));
}

/// A duration is measured once a message has been sent, and is the time between the two; the ones
/// measured before are kept.
pub proof fn law_measured(durations: Seq<i64>, last_sent_time: i64, now: i64, then: i64)
    ensures
        last_sent_time <= 0 ==> measured(durations, last_sent_time, now, then) == durations,
        last_sent_time > 0 ==> {
            let after = measured(durations, last_sent_time, now, then);
            &&& after.len() == durations.len() + 1
            &&& after.drop_last() == durations
            &&& i64::MIN <= now - then <= i64::MAX ==> after.last() == now - then
        },
{
    assert(durations.push(now.wrapping_sub(then)).drop_last() =~= durations);
}

/// The durations are put in order: the same ones, none before one that is less.
pub proof fn law_ascending(durations: Seq<i64>)
    ensures
        ascending(durations).len() == durations.len(),
        ascending(durations).to_multiset() == durations.to_multiset(),
        forall|i: int, j: int|
            0 <= i <= j < durations.len() ==> #[trigger] ascending(durations)[i]
                <= #[trigger] ascending(durations)[j],
{
    let leq = |a: i64, b: i64| a <= b;
    assert(total_ordering(leq));
    durations.lemma_sort_by_ensures(leq);
    vstd::seq_lib::to_multiset_len(durations);
    vstd::seq_lib::to_multiset_len(ascending(durations));
    let sorted = ascending(durations);
    assert forall|i: int, j: int| 0 <= i <= j < durations.len() implies #[trigger] sorted[i]
        <= #[trigger] sorted[j] by {
        if i < j {
            assert(leq(sorted[i], sorted[j]));
        }
    }
}

/// A microsecond is a thousand nanoseconds, and a part of one does not count.
pub proof fn law_micros(nanos: i64)
    ensures
        nanos >= 0 ==> 0 <= nanos - 1000 * micros(nanos) < 1000,
        nanos <= 0 ==> -1000 < nanos - 1000 * micros(nanos) <= 0,
{
}

/// What the arrival of bytes means: the size of a message is that of its header and the length in it,
/// or what was asked for. It is echoed exactly as long as fewer messages have been than are to be, and
/// the durations are reported when as many have been collected as make a batch. Nothing is measured
/// before the message is complete.
pub proof fn law_echo_dispatched(
    before: EchoAndLatency,
    buf: Seq<u8>,
    msg_size: usize,
    recvtime: i64,
    r: EchoStep,
    after: EchoAndLatency,
)
    requires
        echo_dispatched(before, buf, msg_size, recvtime, r, after),
        before.round_trip_durations@.len() < i32::MAX,
    ensures
        r is Expect <==> msg_size == 0 && (buf.len() < 10 || 10 + header_at(buf).body_len
            > buf.len()),
        r is Expect ==> after == before,
        r matches EchoStep::Message { size, report, echo } ==> {
            &&& size == (if msg_size == 0 {
                10 + header_at(buf).body_len
            } else {
                msg_size as int
            })
            &&& echo <==> before.count_echo < before.max_echo
            &&& report <==> after.round_trip_durations@.len() == before.latency_batch
            &&& after.count_echo == before.count_echo
            &&& after.last_sent_time == before.last_sent_time
            &&& before.last_sent_time <= 0 ==> after.round_trip_durations@
                == before.round_trip_durations@
            &&& before.last_sent_time > 0 ==> after.round_trip_durations@.len()
                == before.round_trip_durations@.len() + 1
        },
{
    law_measured(
        before.round_trip_durations@,
        before.last_sent_time,
        recvtime,
        before.last_sent_time,
    );
}

/// A new reactor has echoed nothing and measured nothing.
pub proof fn law_new_reactor(reactor: MyReactor, is_client: bool, max_echo: i32, latency_batch: i32)
    requires
        reactor.is_new(is_client, max_echo, latency_batch),
    ensures
        reactor.dispatcher.is_client == is_client,
        reactor.dispatcher.max_echo == max_echo,
        reactor.dispatcher.latency_batch == latency_batch,
        reactor.dispatcher.count_echo == 0,
        reactor.dispatcher.last_sent_time == 0,
        reactor.dispatcher.round_trip_durations@.len() == 0,
        reactor.dispatcher.single_trip_durations@.len() == 0,
        LATENCY_BATCH_SIZE == 10000,
{
}

/// A message has got a new time.
pub open spec fn stamped(
    before: EchoAndLatency,
    buf: Seq<u8>,
    send_time: i64,
    sent_time: i64,
    after: EchoAndLatency,
    buf_after: Seq<u8>,
) -> bool {
    &&& buf_after == header_bytes(MsgHeader { send_time, ..header_at(buf) }) + buf.skip(
        MSG_HEADER_SIZE as int,
    )
    &&& after.last_sent_time == (if before.count_echo < before.max_echo {
        sent_time
    } else {
        before.last_sent_time
    })
}

/// A message that gets a new time has that time in its header, and keeps its length and its body. The
/// time of the sending is kept exactly if the message is to be sent.
pub proof fn law_stamped(
    before: EchoAndLatency,
    buf: Seq<u8>,
    send_time: i64,
    sent_time: i64,
    after: EchoAndLatency,
    buf_after: Seq<u8>,
)
    requires
        stamped(before, buf, send_time, sent_time, after, buf_after),
        buf.len() >= 10,
    ensures
        buf_after.len() == buf.len(),
        header_at(buf_after).send_time == send_time,
        header_at(buf_after).body_len == header_at(buf).body_len,
        buf_after.skip(10) == buf.skip(10),
        before.count_echo < before.max_echo ==> after.last_sent_time == sent_time,
        before.count_echo >= before.max_echo ==> after.last_sent_time == before.last_sent_time,
{
    let header = MsgHeader { send_time, ..header_at(buf) };
    law_header_round_trip(header, buf.skip(10));
    assert(buf_after.skip(10) =~= buf.skip(10));
}

/// A message has been handled.
pub open spec fn message_ended(
    before: EchoAndLatency,
    size: usize,
    sent: Option<bool>,
    r: DispatchResult,
    after: EchoAndLatency,
) -> bool {
    &&& r == (if sent == Some(false) {
        DispatchResult::Error
    } else {
        DispatchResult::DropMsgSize(size)
    })
    &&& after.count_echo == before.count_echo + (if sent == Some(true) {
        1int
    } else {
        0
    })
}

/// A message is dropped unless it could not be sent back, and counts exactly if it was.
pub proof fn law_message_ended(
    before: EchoAndLatency,
    size: usize,
    sent: Option<bool>,
    r: DispatchResult,
    after: EchoAndLatency,
)
    requires
        message_ended(before, size, sent, r, after),
    ensures
        match sent {
            None => r == DispatchResult::DropMsgSize(size) && after.count_echo == before.count_echo,
            Some(true) => r == DispatchResult::DropMsgSize(size) && after.count_echo
                == before.count_echo + 1,
            Some(false) => r == DispatchResult::Error && after.count_echo == before.count_echo,
        },
{
}

/// What the durations come to.
pub open spec fn latencies_reported(durations: Seq<i64>, p99_index: usize, r: LatencyReport) -> bool {
    let n = durations.len() as int;
    let d = ascending(durations);
    &&& r.size == n
    &&& r.min == micros(d[0])
    &&& r.median == micros(d[n / 2])
    &&& r.p99 == micros(d[p99_index as int])
    &&& r.max == micros(d[n - 2])
}

/// The report counts all durations. It tells the least of them, and the one that only one other may
/// exceed; the median and the one at the given place lie between the least and the largest.
pub proof fn law_latencies_reported(durations: Seq<i64>, p99_index: usize, r: LatencyReport)
    requires
        latencies_reported(durations, p99_index, r),
        durations.len() >= 2,
        p99_index < durations.len(),
    ensures
        r.size == durations.len(),
        forall|i: int| 0 <= i < durations.len() ==> r.min <= micros(#[trigger] durations[i]),
        exists|i: int| 0 <= i < durations.len() && r.min == micros(#[trigger] durations[i]),
        exists|i: int| 0 <= i < durations.len() && r.max == micros(#[trigger] durations[i]),
        r.min <= r.median,
        r.min <= r.p99,
        r.min <= r.max,
        durations.len() > 2 ==> r.median <= r.max,
{
    broadcast use vstd::seq_lib::group_to_multiset_ensures;

    let n = durations.len() as int;
    let d = ascending(durations);
    law_ascending(durations);
    assert forall|i: int| 0 <= i < n implies r.min <= micros(#[trigger] durations[i]) by {
        assert(durations.contains(durations[i]));
        assert(d.to_multiset().count(durations[i]) > 0);
        assert(d.contains(durations[i]));
        let j = choose|j: int| 0 <= j < d.len() && d[j] == durations[i];
        assert(d[0] <= d[j]);
    }
    assert(d.contains(d[0]));
    assert(durations.to_multiset().count(d[0]) > 0);
    assert(d.contains(d[n - 2]));
    assert(durations.to_multiset().count(d[n - 2]) > 0);
    assert(d[0] <= d[n / 2]);
    assert(d[0] <= d[p99_index as int]);
    assert(d[0] <= d[n - 2]);
    if n > 2 {
        assert(d[n / 2] <= d[n - 2]);
    }
}

/// What a reactor does first.
pub open spec fn first_step(
    is_client: bool,
    listener: ReactorID,
    send_time: i64,
    r: ConnectedStep,
) -> bool {
    match r {
        ConnectedStep::SendMsg(msg) => is_client && msg@ == header_bytes(
            MsgHeader { body_len: 10, send_time },
        ) + first_body(),
        ConnectedStep::CloseListener(id) => !is_client && id == listener,
    }
}

/// A client sends a message of twenty bytes, complete and with the given time; a server closes the
/// listener that accepted it.
pub proof fn law_first_step(is_client: bool, listener: ReactorID, send_time: i64, r: ConnectedStep)
    requires
        first_step(is_client, listener, send_time, r),
    ensures
        is_client <==> r is SendMsg,
        r matches ConnectedStep::SendMsg(msg) ==> {
            &&& msg@.len() == 20
            &&& header_at(msg@).send_time == send_time
            &&& echo_decode(msg@) == MessageResult::DropMsgSize(20)
        },
        r matches ConnectedStep::CloseListener(id) ==> id == listener,
{
    let header = MsgHeader { body_len: 10, send_time };
    law_header_round_trip(header, first_body());
}

} // verus!
