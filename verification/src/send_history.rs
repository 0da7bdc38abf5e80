//! What a sender has done over its life: nothing is lost, repeated or reordered.

use crate::msg_sender::{
    buffer_sent, completions, due, fired, fired_count, law_buffer_sends_message,
    law_completions_kept, law_message_sent, law_queue_keeps_stream, law_send_keeps_stream,
    lemma_fired_bounds, marks_sorted, msg_sent, msg_sent_once, queue_written,
    straight_out, taken, waiting, SendError, SendOrQueResult,
};
use crate::socket_io::IoErrorKind;
use vstd::prelude::*;

verus! {

/// Something that happens to a sender.
#[allow(inconsistent_fields)]
pub enum SendOp<C> {
    /// A message is sent, of which the socket takes what `sent` says if it is written to.
    Msg { msg: Seq<u8>, completion: Option<C>, sent: Result<usize, IoErrorKind> },
    /// A message is sent with a single write.
    Once { msg: Seq<u8>, completion: C, written: Result<usize, IoErrorKind> },
    /// A message is queued.
    Queue { msg: Seq<u8>, completion: C },
    /// Bytes are collected in a buffer, and sent as one message.
    Collected { msg: Seq<u8>, completion: Option<C>, sent: Result<usize, IoErrorKind> },
    /// The socket is writable, and takes what `written` says of the queue.
    Writable { written: Result<usize, IoErrorKind> },
}

/// A sender, with all bytes that the socket took and all completions that were handed back.
pub struct SendHistory<C> {
    pub queued: Seq<u8>,
    pub marks: Seq<(int, C)>,
    pub closing: bool,
    pub out: Seq<u8>,
    pub done: Seq<C>,
    pub failed: bool,
}

/// A socket that is written to takes no more than it is given.
pub open spec fn write_fits<C>(
    h: SendHistory<C>,
    msg: Seq<u8>,
    written: Result<usize, IoErrorKind>,
) -> bool {
    h.queued.len() == 0 && msg.len() > 0 ==> (written matches Ok(n) ==> n <= msg.len())
}

/// The socket takes no more than it is given.
pub open spec fn op_fits<C>(h: SendHistory<C>, op: SendOp<C>) -> bool {
    match op {
        SendOp::Msg { msg, sent, .. } => write_fits(h, msg, sent),
        SendOp::Once { msg, written, .. } => write_fits(h, msg, written),
        SendOp::Queue { .. } => true,
        SendOp::Collected { msg, sent, .. } => write_fits(h, msg, sent),
        SendOp::Writable { written } => written matches Ok(n) ==> n <= h.queued.len(),
    }
}

/// The history with what an operation came to, and the bytes that the socket took.
pub open spec fn extended<C>(
    h: SendHistory<C>,
    queued: Seq<u8>,
    marks: Seq<(int, C)>,
    closing: bool,
    res: Result<SendOrQueResult, SendError>,
    handed: Seq<C>,
    out: Seq<u8>,
) -> SendHistory<C> {
    SendHistory {
        queued,
        marks,
        closing,
        out: h.out + out,
        done: h.done + handed,
        failed: h.failed || res is Err,
    }
}

pub open spec fn after_op<C>(h: SendHistory<C>, op: SendOp<C>) -> SendHistory<C> {
    match op {
        SendOp::Msg { msg, completion, sent } => {
            let (queued, marks, closing, res, handed) = msg_sent(
                h.queued,
                h.marks,
                h.closing,
                msg,
                completion,
                sent,
            );
            let out = straight_out(h.queued, msg, sent);
            extended(h, queued, marks, closing, res, due(handed), out)
        },
        SendOp::Once { msg, completion, written } => {
            let (queued, marks, closing, res, handed) = msg_sent_once(
                h.queued,
                h.marks,
                h.closing,
                msg,
                completion,
                written,
            );
            let out = straight_out(h.queued, msg, written);
            extended(h, queued, marks, closing, res, due(handed), out)
        },
        SendOp::Queue { msg, completion } => {
            let queued = h.queued + msg;
            SendHistory { queued, marks: h.marks.push((queued.len() as int, completion)), ..h }
        },
        SendOp::Collected { msg, completion, sent } => {
            let (queued, marks, closing, res, handed) = buffer_sent(
                h.queued.len(),
                h.queued + msg,
                h.marks,
                h.closing,
                completion,
                sent,
            );
            extended(h, queued, marks, closing, res, handed, straight_out(h.queued, msg, sent))
        },
        SendOp::Writable { written } => {
            let (queued, marks, closing, res, handed) = queue_written(
                h.queued,
                h.marks,
                h.closing,
                written,
            );
            let out = match written {
                Ok(n) => h.queued.take(n as int),
                Err(_) => Seq::empty(),
            };
            extended(h, queued, marks, closing, res, handed, out)
        },
    }
}

/// A new sender.
pub open spec fn no_history<C>() -> SendHistory<C> {
    SendHistory {
        queued: Seq::empty(),
        marks: Seq::empty(),
        closing: false,
        out: Seq::empty(),
        done: Seq::empty(),
        failed: false,
    }
}

pub open spec fn history<C>(ops: Seq<SendOp<C>>) -> SendHistory<C>
    decreases ops.len(),
{
    if ops.len() == 0 {
        no_history()
    } else {
        after_op(history(ops.drop_last()), ops.last())
    }
}

/// Each operation fits the sender as the ones before it left it.
pub open spec fn ops_fit<C>(ops: Seq<SendOp<C>>) -> bool
    decreases ops.len(),
{
    ops.len() == 0 || (ops_fit(ops.drop_last()) && op_fits(history(ops.drop_last()), ops.last()))
}

/// The message of an operation, and what waits for it.
pub open spec fn op_message<C>(op: SendOp<C>) -> (Seq<u8>, Option<C>) {
    match op {
        SendOp::Msg { msg, completion, .. } => (msg, completion),
        SendOp::Once { msg, completion, .. } => (msg, Some(completion)),
        SendOp::Queue { msg, completion } => (msg, Some(completion)),
        SendOp::Collected { msg, completion, .. } => (msg, completion),
        SendOp::Writable { .. } => (Seq::empty(), None),
    }
}

/// The messages, one after the other.
pub open spec fn all_messages<C>(ops: Seq<SendOp<C>>) -> Seq<u8>
    decreases ops.len(),
{
    if ops.len() == 0 {
        Seq::empty()
    } else {
        all_messages(ops.drop_last()) + op_message(ops.last()).0
    }
}

/// The completions of the messages, in their order.
pub open spec fn all_completions<C>(ops: Seq<SendOp<C>>) -> Seq<C>
    decreases ops.len(),
{
    if ops.len() == 0 {
        Seq::empty()
    } else {
        all_completions(ops.drop_last()) + due(op_message(ops.last()).1)
    }
}

pub open spec fn no_empty_messages<C>(ops: Seq<SendOp<C>>) -> bool {
    forall|i: int|
        0 <= i < ops.len() ==> (#[trigger] ops[i]) is Writable || op_message(ops[i]).0.len() > 0
}

/// The marks are in order, none of them behind the queue.
spec fn history_ok<C>(h: SendHistory<C>) -> bool {
    &&& marks_sorted(h.marks)
    &&& forall|i: int| 0 <= i < h.marks.len() ==> (#[trigger] h.marks[i]).0 <= h.queued.len()
}

/// Each mark is behind a byte that waits.
spec fn marks_behind<C>(h: SendHistory<C>) -> bool {
    forall|i: int| 0 <= i < h.marks.len() ==> 0 < (#[trigger] h.marks[i]).0
}

proof fn lemma_history_ok<C>(h: SendHistory<C>, op: SendOp<C>)
    requires
        history_ok(h),
        op_fits(h, op),
    ensures
        history_ok(after_op(h, op)),
        marks_behind(h) && (op is Writable || op_message(op).0.len() > 0) ==> marks_behind(
            after_op(h, op),
        ),
{
    let after = after_op(h, op);
    let written = match op {
        SendOp::Collected { msg, sent, .. } if h.queued.len() == 0 && msg.len() > 0 => taken(sent),
        SendOp::Writable { written } => written,
        _ => Ok(0),
    };
    if let Ok(n) = written {
        lemma_fired_bounds(h.marks, n as int);
        let k = fired_count(h.marks, n as int) as int;
        let left = waiting(h.marks, n as int);
        assert forall|i: int| 0 <= i < left.len() implies 0 < (#[trigger] left[i]).0 && left[i].0
            == h.marks[k + i].0 - n by {
            assert(h.marks[k + i].0 > n);
        }
    }
}

/// One operation keeps the stream and the completions. It keeps the completions in order too, unless
/// it sends an empty message, or is the first to be written while completions wait.
proof fn lemma_op_keeps<C>(h: SendHistory<C>, op: SendOp<C>)
    requires
        history_ok(h),
        op_fits(h, op),
        !after_op(h, op).failed,
    ensures
        ({
            let after = after_op(h, op);
            let (msg, completion) = op_message(op);
            let before = h.done + completions(h.marks) + due(completion);
            &&& after.out + after.queued == h.out + h.queued + msg
            &&& (after.done + completions(after.marks)).to_multiset() == before.to_multiset()
            &&& (op is Writable || msg.len() > 0) && (h.queued.len() == 0 ==> h.marks.len() == 0)
                ==> after.done + completions(after.marks) == before
        }),
{
    let after = after_op(h, op);
    let (msg, completion) = op_message(op);
    let old = completions(h.marks);
    lemma_at_once(h.done, old, due(completion));
    match op {
        SendOp::Msg { sent, .. } => {
            lemma_msg_keeps(h, msg, completion, sent);
        },
        SendOp::Once { written, .. } => {
            lemma_msg_keeps(h, msg, completion, written);
        },
        SendOp::Queue { .. } => {
            assert(h.out + (h.queued + msg) =~= h.out + h.queued + msg);
            assert(h.done + completions(after.marks) =~= h.done + old + due(completion));
        },
        SendOp::Collected { sent, .. } => {
            assert(after.out + after.queued =~= h.out + h.queued + msg);
            if msg.len() == 0 {
                assert(h.queued + msg =~= h.queued);
                assert(after.done + old =~= h.done + due(completion) + old);
            } else if h.queued.len() > 0 {
                assert(after.done + completions(after.marks) =~= h.done + old + due(completion));
            } else if let Ok(n) = taken(sent) {
                lemma_fired_bounds(h.marks, n as int);
                law_completions_kept(h.marks, n as int);
                let k = fired_count(h.marks, n as int);
                if k < h.marks.len() {
                    assert(h.marks[k as int].0 <= 0);
                }
                assert(waiting(h.marks, n as int) =~= Seq::empty());
                assert(fired(h.marks, n as int) =~= old);
                assert(after.done + completions(after.marks) =~= h.done + old + due(completion));
            }
        },
        SendOp::Writable { written } => {
            if let Ok(n) = written {
                law_queue_keeps_stream(h.queued, h.marks, h.closing, n);
                law_completions_kept(h.marks, n as int);
                assert(after.out + after.queued =~= h.out + (h.queued.take(n as int)
                    + after.queued));
                if h.queued.len() > 0 {
                    assert(after.done + completions(after.marks) =~= h.done + (fired(
                        h.marks,
                        n as int,
                    ) + completions(waiting(h.marks, n as int))));
                }
            } else {
                assert(after.out =~= h.out);
            }
            assert(h.out + h.queued + msg =~= h.out + h.queued);
            assert(h.done + old + due(completion) =~= h.done + old);
            assert(after.done + completions(after.marks) =~= h.done + old);
        },
    }
}

/// Handing a completion back at once keeps the completions, and their order where none waits.
proof fn lemma_at_once<C>(done: Seq<C>, wait: Seq<C>, now: Seq<C>)
    ensures
        (done + now + wait).to_multiset() == (done + wait + now).to_multiset(),
        wait.len() == 0 ==> done + now + wait == done + wait + now,
{
    vstd::seq_lib::lemma_multiset_commutative(now, wait);
    vstd::seq_lib::lemma_multiset_commutative(wait, now);
    assert((now + wait).to_multiset() =~= (wait + now).to_multiset());
    vstd::seq_lib::lemma_multiset_commutative(done, now + wait);
    vstd::seq_lib::lemma_multiset_commutative(done, wait + now);
    assert(done + now + wait =~= done + (now + wait));
    assert(done + wait + now =~= done + (wait + now));
    if wait.len() == 0 {
        assert(now + wait =~= wait + now);
    }
}

/// A message that is sent keeps the stream, and its completion is handed back at once or waits behind
/// all others.
proof fn lemma_msg_keeps<C>(
    h: SendHistory<C>,
    msg: Seq<u8>,
    completion: Option<C>,
    sent: Result<usize, IoErrorKind>,
)
    requires
        write_fits(h, msg, sent),
    ensures
        ({
            let (queued, marks, _, res, handed) = msg_sent(
                h.queued,
                h.marks,
                h.closing,
                msg,
                completion,
                sent,
            );
            let out = h.out + straight_out(h.queued, msg, sent);
            let old = completions(h.marks);
            res is Ok ==> {
                &&& out + queued == h.out + h.queued + msg
                &&& h.done + due(handed) + completions(marks) == (if handed == completion && marks
                    == h.marks {
                    h.done + due(completion) + old
                } else {
                    h.done + old + due(completion)
                })
                &&& handed == completion && marks == h.marks ==> completion is None || msg.len()
                    == 0 || h.queued.len() == 0
            }
        }),
{
    let (queued, marks, _, res, handed) = msg_sent(
        h.queued,
        h.marks,
        h.closing,
        msg,
        completion,
        sent,
    );
    let out = straight_out(h.queued, msg, sent);
    law_send_keeps_stream(h.queued, h.marks, h.closing, msg, completion, sent);
    if res is Ok {
        assert(h.out + out + queued =~= h.out + (out + queued));
        assert(h.out + (h.queued + msg) =~= h.out + h.queued + msg);
        if !(handed == completion && marks == h.marks) {
            assert(h.done + due(handed) + completions(marks) =~= h.done + completions(h.marks)
                + due(completion));
        }
    }
}

proof fn lemma_history<C>(ops: Seq<SendOp<C>>)
    requires
        ops_fit(ops),
    ensures
        history_ok(history(ops)),
        no_empty_messages(ops) ==> marks_behind(history(ops)),
    decreases ops.len(),
{
    if ops.len() > 0 {
        let before = ops.drop_last();
        lemma_history(before);
        lemma_history_ok(history(before), ops.last());
        if no_empty_messages(ops) {
            lemma_fewer_messages(ops);
        }
    }
}

proof fn lemma_fewer_messages<C>(ops: Seq<SendOp<C>>)
    requires
        ops.len() > 0,
        no_empty_messages(ops),
    ensures
        no_empty_messages(ops.drop_last()),
        ops.last() is Writable || op_message(ops.last()).0.len() > 0,
{
    let before = ops.drop_last();
    assert(ops[ops.len() - 1] == ops.last());
    assert forall|i: int| 0 <= i < before.len() implies (#[trigger] before[i]) is Writable
        || op_message(before[i]).0.len() > 0 by {
        assert(ops[i] == before[i]);
    }
}

/// Whatever the socket takes and whenever it blocks, as long as it does not fail: the bytes that it
/// took, followed by those that wait, are the messages one after the other, in whichever way each was
/// sent. Each completion has been handed back or waits, once, and where no message is empty they come
/// in the order of the messages.
pub proof fn law_sender_keeps_all<C>(ops: Seq<SendOp<C>>)
    requires
        ops_fit(ops),
        !history(ops).failed,
    ensures
        ({
            let h = history(ops);
            &&& h.out + h.queued == all_messages(ops)
            &&& (h.done + completions(h.marks)).to_multiset() == all_completions(ops).to_multiset()
            &&& no_empty_messages(ops) ==> h.done + completions(h.marks) == all_completions(ops)
        }),
    decreases ops.len(),
{
    let h = history(ops);
    if ops.len() == 0 {
        assert(h.out + h.queued =~= Seq::<u8>::empty());
        assert(h.done + completions(h.marks) =~= Seq::<C>::empty());
    } else {
        let before = ops.drop_last();
        let hb = history(before);
        let (msg, completion) = op_message(ops.last());
        lemma_history(before);
        law_sender_keeps_all(before);
        lemma_op_keeps(hb, ops.last());
        vstd::seq_lib::lemma_multiset_commutative(hb.done + completions(hb.marks), due(completion));
        vstd::seq_lib::lemma_multiset_commutative(all_completions(before), due(completion));
        if no_empty_messages(ops) {
            lemma_fewer_messages(ops);
            if hb.queued.len() == 0 && hb.marks.len() > 0 {
                assert(0 < hb.marks[0].0 <= hb.queued.len());
            }
        }
    }
}

/// After a failure the socket is to be closed, for good, and the completion of the message that failed
/// is not handed back.
pub proof fn law_failure_closes<C>(ops: Seq<SendOp<C>>, op: SendOp<C>)
    ensures
        history(ops).failed ==> history(ops).closing,
        history(ops).closing ==> after_op(history(ops), op).closing,
        !history(ops).failed && after_op(history(ops), op).failed ==> after_op(
            history(ops),
            op,
        ).done == history(ops).done,
    decreases ops.len(),
{
    if ops.len() > 0 {
        law_failure_closes(ops.drop_last(), ops.last());
    }
    let h = history(ops);
    if !h.failed && after_op(h, op).failed {
        assert(after_op(h, op).done =~= h.done);
    }
}

/// Where the messages end that a completion waits for, counted in bytes from the first message on.
spec fn message_ends<C>(ops: Seq<SendOp<C>>) -> Seq<int>
    decreases ops.len(),
{
    if ops.len() == 0 {
        Seq::empty()
    } else {
        let before = message_ends(ops.drop_last());
        match op_message(ops.last()).1 {
            Some(_) => before.push(all_messages(ops).len() as int),
            None => before,
        }
    }
}

/// The completions that were handed back are those of messages that are out, and the marks of the
/// others tell how many bytes of theirs and of those before them are not.
spec fn ends_ok<C>(h: SendHistory<C>, ends: Seq<int>) -> bool {
    &&& h.done.len() + h.marks.len() == ends.len()
    &&& forall|j: int| 0 <= j < h.done.len() ==> #[trigger] ends[j] <= h.out.len()
    &&& forall|i: int|
        #![trigger h.marks[i]]
        0 <= i < h.marks.len() ==> h.marks[i].0 == ends[h.done.len() + i] - h.out.len()
}

proof fn lemma_ends<C>(ops: Seq<SendOp<C>>)
    requires
        ops_fit(ops),
        !history(ops).failed,
        no_empty_messages(ops),
    ensures
        ends_ok(history(ops), message_ends(ops)),
    decreases ops.len(),
{
    if ops.len() > 0 {
        let before = ops.drop_last();
        let (h, after) = (history(before), history(ops));
        let (ends, all) = (message_ends(before), message_ends(ops));
        let op = ops.last();
        let (msg, completion) = op_message(op);
        lemma_fewer_messages(ops);
        lemma_ends(before);
        lemma_history(before);
        law_sender_keeps_all(before);
        law_sender_keeps_all(ops);
        assert((h.out + h.queued).len() == all_messages(before).len());
        assert((after.out + after.queued).len() == all_messages(ops).len());
        assert(h.queued.len() == 0 ==> h.marks.len() == 0) by {
            if h.queued.len() == 0 && h.marks.len() > 0 {
                assert(0 < h.marks[0].0 <= h.queued.len());
            }
        }
        match op {
            SendOp::Msg { sent, .. } => {
                law_message_sent(h.queued, h.marks, h.closing, msg, completion, sent);
            },
            SendOp::Once { written, .. } => {
                law_message_sent(h.queued, h.marks, h.closing, msg, completion, written);
            },
            SendOp::Queue { .. } => {},
            SendOp::Collected { sent, .. } => {
                law_message_sent(h.queued, h.marks, h.closing, msg, completion, sent);
                law_buffer_sends_message(h.queued, h.marks, h.closing, msg, completion, sent);
            },
            SendOp::Writable { written } => {
                if let Ok(n) = written {
                    lemma_fired_bounds(h.marks, n as int);
                }
                assert(all =~= ends);
            },
        }
        assert forall|j: int| 0 <= j < after.done.len() implies #[trigger] all[j]
            <= after.out.len() by {
            if j >= h.done.len() && j < ends.len() {
                assert(h.marks[j - h.done.len()].0 == ends[j] - h.out.len());
            }
        }
        assert forall|i: int|
            #![trigger after.marks[i]]
            0 <= i < after.marks.len() implies after.marks[i].0 == all[after.done.len() + i]
            - after.out.len() by {
            let k = after.done.len() - h.done.len();
            if k + i < h.marks.len() {
                assert(h.marks[k + i].0 == ends[h.done.len() + (k + i)] - h.out.len());
            }
        }
    }
}

proof fn lemma_end_of<C>(ops: Seq<SendOp<C>>, k: int)
    requires
        0 <= k < ops.len(),
        op_message(ops[k]).1 is Some,
    ensures
        message_ends(ops).len() == all_completions(ops).len(),
        ({
            let j = all_completions(ops.take(k)).len() as int;
            &&& j < message_ends(ops).len()
            &&& message_ends(ops)[j] == all_messages(ops.take(k + 1)).len()
            &&& all_completions(ops)[j] == op_message(ops[k]).1->0
        }),
    decreases ops.len(),
{
    let before = ops.drop_last();
    lemma_ends_counted(before);
    if k == ops.len() - 1 {
        assert(ops.take(k) =~= before);
        assert(ops.take(k + 1) =~= ops);
    } else {
        lemma_end_of(before, k);
        assert(before.take(k) =~= ops.take(k));
        assert(before.take(k + 1) =~= ops.take(k + 1));
    }
}

proof fn lemma_ends_counted<C>(ops: Seq<SendOp<C>>)
    ensures
        message_ends(ops).len() == all_completions(ops).len(),
    decreases ops.len(),
{
    if ops.len() > 0 {
        lemma_ends_counted(ops.drop_last());
    }
}

/// A completion tells that its message has been sent. Over any operations without a failure: the
/// completion of a message has been handed back exactly if the socket has taken every byte of the
/// message, and of all messages before it. It is the one at its place among those handed back.
/// An empty message has no byte to wait for, so there is none among these.
pub proof fn law_completion_means_sent<C>(ops: Seq<SendOp<C>>, k: int)
    requires
        ops_fit(ops),
        !history(ops).failed,
        no_empty_messages(ops),
        0 <= k < ops.len(),
        op_message(ops[k]).1 is Some,
    ensures
        ({
            let h = history(ops);
            let place = all_completions(ops.take(k)).len();
            &&& place < h.done.len() <==> h.out.len() >= all_messages(ops.take(k + 1)).len()
            &&& place < h.done.len() ==> h.done[place as int] == op_message(ops[k]).1->0
        }),
{
    let h = history(ops);
    let ends = message_ends(ops);
    let j = all_completions(ops.take(k)).len() as int;
    lemma_ends(ops);
    lemma_end_of(ops, k);
    lemma_history(ops);
    law_sender_keeps_all(ops);
    if j < h.done.len() {
        assert(ends[j] <= h.out.len());
        assert((h.done + completions(h.marks))[j] == h.done[j]);
    } else {
        let i = j - h.done.len();
        assert(h.marks[i].0 == ends[h.done.len() + i] - h.out.len());
        assert(0 < h.marks[i].0);
    }
}

} // verus!
