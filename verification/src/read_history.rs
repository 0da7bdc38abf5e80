//! What a reader has done over its life: the messages are those of the stream.

use crate::msg_reader::{
    call_fits, call_made, calls_decode, calls_made, decodes_prefixes, dispatch_calls,
    dispatch_goes_on, dispatch_outcome, dispatch_run, dispatched, dropped_messages,
    fast_dispatch_outcome, law_dispatch_splits_stream, law_reads_split_anywhere, rest_left,
    result_fits, split_messages, MessageResult, MsgDispatcher, ReadStep, ReaderError, Shown,
};
use vstd::prelude::*;

verus! {

/// Bytes are read, and the dispatcher is called for them.
pub struct ReadRound {
    pub part: Seq<u8>,
    pub calls: Seq<Shown>,
}

/// A message begins the bytes, and all of it is there.
pub open spec fn has_message(decode: spec_fn(Seq<u8>) -> MessageResult, bytes: Seq<u8>) -> bool {
    decode(bytes) is DropMsgSize && result_fits(bytes, decode(bytes))
}

/// A dispatcher that expects a size finds no message in fewer bytes.
pub open spec fn expects_honestly(decode: spec_fn(Seq<u8>) -> MessageResult) -> bool {
    forall|b: Seq<u8>, more: Seq<u8>|
        (decode(b) matches MessageResult::ExpectMsgSize(n) && (b + more).len() < n)
            ==> !#[trigger] has_message(decode, b + more)
}

/// The pending bytes and the expected size after the rounds.
pub open spec fn reader_after(rounds: Seq<ReadRound>) -> (Seq<u8>, usize)
    decreases rounds.len(),
{
    if rounds.len() == 0 {
        (Seq::empty(), 0)
    } else {
        let (rest, expected) = reader_after(rounds.drop_last());
        dispatched(rest + rounds.last().part, expected, rounds.last().calls)
    }
}

/// In each round the reader makes the calls that it is to make, to a dispatcher that answers by
/// `decode`.
pub open spec fn rounds_fit(
    decode: spec_fn(Seq<u8>) -> MessageResult,
    rounds: Seq<ReadRound>,
) -> bool
    decreases rounds.len(),
{
    rounds.len() == 0 || {
        let (rest, expected) = reader_after(rounds.drop_last());
        let round = rounds.last();
        let arrived = rest + round.part;
        &&& rounds_fit(decode, rounds.drop_last())
        &&& dispatch_calls(arrived, expected, round.part.len() as usize, round.calls)
        &&& !dispatch_goes_on(arrived, expected, round.calls)
        &&& calls_decode(decode, round.calls)
    }
}

/// All bytes that were read.
pub open spec fn all_bytes(rounds: Seq<ReadRound>) -> Seq<u8>
    decreases rounds.len(),
{
    if rounds.len() == 0 {
        Seq::empty()
    } else {
        all_bytes(rounds.drop_last()) + rounds.last().part
    }
}

/// All messages that were dispatched.
pub open spec fn all_dispatched(rounds: Seq<ReadRound>) -> Seq<Seq<u8>>
    decreases rounds.len(),
{
    if rounds.len() == 0 {
        Seq::empty()
    } else {
        all_dispatched(rounds.drop_last()) + dropped_messages(rounds.last().calls)
    }
}

/// There is no message in the pending bytes with some more, while these are fewer than expected.
spec fn waits_rightly(
    decode: spec_fn(Seq<u8>) -> MessageResult,
    rest: Seq<u8>,
    expected: usize,
) -> bool {
    forall|more: Seq<u8>|
        (rest + more).len() < expected ==> !#[trigger] has_message(decode, rest + more)
}

proof fn lemma_waits_rightly(
    decode: spec_fn(Seq<u8>) -> MessageResult,
    rest: Seq<u8>,
    expected: usize,
    part: Seq<u8>,
    calls: Seq<Shown>,
)
    requires
        expects_honestly(decode),
        waits_rightly(decode, rest, expected),
        dispatch_calls(rest + part, expected, part.len() as usize, calls),
        calls_decode(decode, calls),
    ensures
        ({
            let (after, size) = dispatched(rest + part, expected, calls);
            waits_rightly(decode, after, size)
        }),
{
    let (after, size) = dispatched(rest + part, expected, calls);
    assert forall|more: Seq<u8>| (after + more).len() < size implies !#[trigger] has_message(
        decode,
        after + more,
    ) by {
        if calls.len() == 0 {
            assert(after + more =~= rest + (part + more));
        } else {
            assert(call_fits(rest + part, expected, part.len() as usize, calls, calls.len() - 1));
            assert(calls[calls.len() - 1] == calls.last());
        }
    }
}

proof fn lemma_rounds(decode: spec_fn(Seq<u8>) -> MessageResult, rounds: Seq<ReadRound>)
    requires
        decodes_prefixes(decode),
        expects_honestly(decode),
        rounds_fit(decode, rounds),
    ensures
        split_messages(decode, all_bytes(rounds)) == (
            all_dispatched(rounds),
            reader_after(rounds).0,
        ),
        waits_rightly(decode, reader_after(rounds).0, reader_after(rounds).1),
    decreases rounds.len(),
{
    if rounds.len() == 0 {
        assert(!has_message(decode, Seq::<u8>::empty()));
    } else {
        let before = rounds.drop_last();
        let round = rounds.last();
        let (rest, expected) = reader_after(before);
        lemma_rounds(decode, before);
        law_reads_split_anywhere(decode, all_bytes(before), round.part);
        assert((rest + round.part).len() < expected ==> !has_message(decode, rest + round.part));
        law_dispatch_splits_stream(
            decode,
            rest + round.part,
            expected,
            round.part.len() as usize,
            round.calls,
        );
        lemma_waits_rightly(decode, rest, expected, round.part, round.calls);
    }
}

/// However the reads cut the stream, and however long the dispatcher waits for a size that it asked
/// for: all messages of the stream that have come in full have been dispatched, once and in order, and
/// the rest of the stream is what is pending.
pub proof fn law_reader_keeps_all(
    decode: spec_fn(Seq<u8>) -> MessageResult,
    rounds: Seq<ReadRound>,
)
    requires
        decodes_prefixes(decode),
        expects_honestly(decode),
        rounds_fit(decode, rounds),
    ensures
        split_messages(decode, all_bytes(rounds)) == (
            all_dispatched(rounds),
            reader_after(rounds).0,
        ),
{
    lemma_rounds(decode, rounds);
}

/// The size is one that was asked for: zero, or what `decode` expects of fewer of these bytes.
pub open spec fn asked_for(
    decode: spec_fn(Seq<u8>) -> MessageResult,
    buf: Seq<u8>,
    msg_size: usize,
) -> bool {
    msg_size == 0 || exists|n: int|
        0 <= n <= buf.len() && decode(#[trigger] buf.take(n)) == MessageResult::ExpectMsgSize(
            msg_size,
        )
}

/// A dispatcher that answers by `decode`, in whatever state it is and where the size is one that it
/// asked for, and changes no byte but those of the messages that it drops. It may refuse any bytes.
pub open spec fn answers_by<Ctx, D: MsgDispatcher<Ctx>>(
    decode: spec_fn(Seq<u8>) -> MessageResult,
) -> bool {
    forall|
        before: (D, Ctx),
        buf: Seq<u8>,
        new_bytes: usize,
        msg_size: usize,
        after: (D, Ctx),
        left: Seq<u8>,
        r: Result<MessageResult, String>,
    | #[trigger]
        D::answers(before, buf, new_bytes, msg_size, after, left, r) && asked_for(
            decode,
            buf,
            msg_size,
        ) ==> (r matches Ok(answer) ==> answer == decode(buf) && rest_left(buf, left, answer))
}

/// One call of a reader that read something and dispatched it: the dispatcher with its context before
/// and after it, and the pending bytes and the expected size that it left.
pub struct ReaderCall<Ctx, D> {
    pub part: Seq<u8>,
    pub before: (D, Ctx),
    pub rest: Seq<u8>,
    pub size: usize,
    pub after: (D, Ctx),
}

/// The call found these pending bytes and this expected size, and came to what the contract of
/// `try_read_fast_dispatch` or of `try_read_fast_read` says.
pub open spec fn reader_called<Ctx, D: MsgDispatcher<Ctx>>(
    rest: Seq<u8>,
    expected: usize,
    call: ReaderCall<Ctx, D>,
) -> bool {
    let n = call.part.len() as usize;
    ||| fast_dispatch_outcome(
        rest + call.part,
        expected,
        ReadStep::Enough(n),
        call.before,
        Ok::<bool, ReaderError>(false),
        call.rest,
        call.size,
        call.after,
    )
    ||| fast_dispatch_outcome(
        rest + call.part,
        expected,
        ReadStep::More(n),
        call.before,
        Ok::<bool, ReaderError>(true),
        call.rest,
        call.size,
        call.after,
    )
    ||| dispatch_outcome(
        rest + call.part,
        expected,
        n,
        call.before,
        Ok(()),
        call.rest,
        call.size,
        call.after,
    )
}

/// The pending bytes and the expected size that the calls of a new reader leave.
pub open spec fn left_pending<Ctx, D>(calls: Seq<ReaderCall<Ctx, D>>) -> (Seq<u8>, usize) {
    if calls.len() == 0 {
        (Seq::empty(), 0)
    } else {
        (calls.last().rest, calls.last().size)
    }
}

/// The calls are made to a new reader, one after the other.
pub open spec fn reader_calls<Ctx, D: MsgDispatcher<Ctx>>(calls: Seq<ReaderCall<Ctx, D>>) -> bool
    decreases calls.len(),
{
    calls.len() == 0 || {
        let (rest, expected) = left_pending(calls.drop_last());
        &&& reader_calls(calls.drop_last())
        &&& reader_called(rest, expected, calls.last())
    }
}

/// All bytes that the calls read.
pub open spec fn bytes_read<Ctx, D>(calls: Seq<ReaderCall<Ctx, D>>) -> Seq<u8>
    decreases calls.len(),
{
    if calls.len() == 0 {
        Seq::empty()
    } else {
        bytes_read(calls.drop_last()) + calls.last().part
    }
}

/// In the rounds, the dispatcher of the calls is shown what it is shown: each round takes it from the
/// state before a call to the state after it.
pub open spec fn rounds_made<Ctx, D: MsgDispatcher<Ctx>>(
    calls: Seq<ReaderCall<Ctx, D>>,
    rounds: Seq<ReadRound>,
) -> bool {
    &&& rounds.len() == calls.len()
    &&& forall|i: int| 0 <= i < calls.len() ==> #[trigger] round_made(calls[i], rounds[i])
}

pub open spec fn round_made<Ctx, D: MsgDispatcher<Ctx>>(
    call: ReaderCall<Ctx, D>,
    round: ReadRound,
) -> bool {
    &&& round.part == call.part
    &&& exists|states: Seq<(D, Ctx)>| #[trigger]
        calls_made(round.calls, states) && states[0] == call.before && states.last() == call.after
}

/// The calls of a round follow `decode`, and what they ask for is asked for by it.
proof fn lemma_shown<Ctx, D: MsgDispatcher<Ctx>>(
    decode: spec_fn(Seq<u8>) -> MessageResult,
    rest: Seq<u8>,
    part: Seq<u8>,
    expected: usize,
    shown: Seq<Shown>,
    states: Seq<(D, Ctx)>,
)
    requires
        answers_by::<Ctx, D>(decode),
        asked_for(decode, rest, expected),
        dispatch_calls(rest + part, expected, part.len() as usize, shown),
        calls_made(shown, states),
    ensures
        calls_decode(decode, shown),
        ({
            let (after, size) = dispatched(rest + part, expected, shown);
            asked_for(decode, after, size)
        }),
{
    let pending = rest + part;
    assert(asked_for(decode, pending, expected)) by {
        if expected != 0 {
            let n = choose|n: int|
                0 <= n <= rest.len() && decode(#[trigger] rest.take(n))
                    == MessageResult::ExpectMsgSize(expected);
            assert(pending.take(n) =~= rest.take(n));
        }
    }
    assert forall|i: int| 0 <= i < shown.len() implies (#[trigger] shown[i]).answer == decode(
        shown[i].before,
    ) && rest_left(shown[i].before, shown[i].after, shown[i].answer) by {
        assert(call_made(shown, states, i));
        assert(call_fits(pending, expected, part.len() as usize, shown, i));
        assert(shown.take(0) =~= Seq::empty());
        if i > 0 {
            assert(shown.take(i).last() == shown[i - 1]);
        }
        assert(asked_for(decode, shown[i].before, shown[i].msg_size));
    }
    if shown.len() > 0 {
        let last = shown[shown.len() - 1];
        assert(last == shown.last());
        assert(last.before.take(last.before.len() as int) =~= last.before);
    }
}

proof fn lemma_reader_calls<Ctx, D: MsgDispatcher<Ctx>>(
    decode: spec_fn(Seq<u8>) -> MessageResult,
    calls: Seq<ReaderCall<Ctx, D>>,
) -> (rounds: Seq<ReadRound>)
    requires
        answers_by::<Ctx, D>(decode),
        reader_calls(calls),
    ensures
        rounds_made(calls, rounds),
        rounds_fit(decode, rounds),
        reader_after(rounds) == left_pending(calls),
        all_bytes(rounds) == bytes_read(calls),
        asked_for(decode, left_pending(calls).0, left_pending(calls).1),
    decreases calls.len(),
{
    if calls.len() == 0 {
        Seq::empty()
    } else {
        let (rest, expected) = left_pending(calls.drop_last());
        let call = calls.last();
        let n = call.part.len() as usize;
        let before = lemma_reader_calls(decode, calls.drop_last());
        assert(dispatch_outcome(
            rest + call.part,
            expected,
            n,
            call.before,
            Ok(()),
            call.rest,
            call.size,
            call.after,
        ));
        let (shown, states) = choose|shown: Seq<Shown>, states: Seq<(D, Ctx)>|
            #![trigger dispatch_calls(rest + call.part, expected, n, shown), calls_made(shown, states)]
            dispatch_run(
                rest + call.part,
                expected,
                n,
                call.before,
                shown,
                states,
                Ok(()),
                call.rest,
                call.size,
                call.after,
            );
        lemma_shown(decode, rest, call.part, expected, shown, states);
        let round = ReadRound { part: call.part, calls: shown };
        let rounds = before.push(round);
        assert(rounds.drop_last() =~= before);
        assert(calls_made(round.calls, states));
        assert(round_made(call, round));
        assert forall|i: int| 0 <= i < calls.len() implies #[trigger] round_made(
            calls[i],
            rounds[i],
        ) by {
            if i < before.len() {
                assert(round_made(calls.drop_last()[i], before[i]));
            }
        }
        rounds
    }
}

/// Whatever a new reader is called with, `try_read_fast_dispatch` and `try_read_fast_read` show a
/// dispatcher that answers by `decode` the messages of the stream: all that have come in full, once
/// and in order, however the reads cut the stream. The rest of the stream is what is pending.
pub proof fn law_reader_dispatches_stream<Ctx, D: MsgDispatcher<Ctx>>(
    decode: spec_fn(Seq<u8>) -> MessageResult,
    calls: Seq<ReaderCall<Ctx, D>>,
)
    requires
        decodes_prefixes(decode),
        expects_honestly(decode),
        answers_by::<Ctx, D>(decode),
        reader_calls(calls),
    ensures
        split_messages(decode, bytes_read(calls)).1 == left_pending(calls).0,
        exists|rounds: Seq<ReadRound>| #[trigger]
            rounds_made(calls, rounds) && all_dispatched(rounds) == split_messages(
                decode,
                bytes_read(calls),
            ).0,
{
    let rounds = lemma_reader_calls(decode, calls);
    law_reader_keeps_all(decode, rounds);
}

/// Messages one after the other.
pub open spec fn joined(messages: Seq<Seq<u8>>) -> Seq<u8>
    decreases messages.len(),
{
    if messages.len() == 0 {
        Seq::empty()
    } else {
        joined(messages.drop_last()) + messages.last()
    }
}

/// The bytes are one message.
pub open spec fn is_message(decode: spec_fn(Seq<u8>) -> MessageResult, bytes: Seq<u8>) -> bool {
    decode(bytes) matches MessageResult::DropMsgSize(n) && n == bytes.len() && n > 0
}

/// Messages that are written one after the other are read as the same messages, with nothing left.
pub proof fn law_written_messages_are_read(
    decode: spec_fn(Seq<u8>) -> MessageResult,
    messages: Seq<Seq<u8>>,
)
    requires
        decodes_prefixes(decode),
        forall|i: int| 0 <= i < messages.len() ==> #[trigger] is_message(decode, messages[i]),
    ensures
        split_messages(decode, joined(messages)) == (messages, Seq::<u8>::empty()),
    decreases messages.len(),
{
    let empty = Seq::<u8>::empty();
    assert(!has_message(decode, empty));
    if messages.len() > 0 {
        let before = messages.drop_last();
        let last = messages.last();
        assert forall|i: int| 0 <= i < before.len() implies #[trigger] is_message(
            decode,
            before[i],
        ) by {
            assert(is_message(decode, messages[i]));
        }
        law_written_messages_are_read(decode, before);
        law_reads_split_anywhere(decode, joined(before), last);
        assert(is_message(decode, messages[messages.len() - 1]));
        assert(empty + last =~= last);
        assert(last.skip(last.len() as int) =~= empty);
        assert(last.take(last.len() as int) =~= last);
        assert(split_messages(decode, empty) == (Seq::<Seq<u8>>::empty(), empty));
        assert(seq![last] + Seq::<Seq<u8>>::empty() =~= seq![last]);
        assert(before + seq![last] =~= messages);
    } else {
        assert(messages =~= Seq::<Seq<u8>>::empty());
    }
}

} // verus!
