//! The receiving side of a socket: bytes read so far, cut into messages.

use crate::bytes::copy_to_front;
use crate::socket_io::IoErrorKind;
use vstd::prelude::*;

verus! {

/// What a dispatcher answers when it is shown the received bytes.
#[derive(Debug, Clone, Copy, PartialEq, Eq, Structural)]
pub enum MessageResult {
    /// A partial message: the dispatcher is called again once this many bytes are there. Zero means
    /// that the size is not known yet; it is called again when there are more bytes.
    ExpectMsgSize(usize),
    /// A full message has been processed: this many bytes are dropped.
    DropMsgSize(usize),
}

/// What a dispatcher that cannot say why it closes a socket answers.
#[derive(Debug, Clone, Copy, PartialEq, Eq, Structural)]
pub enum DispatchResult {
    /// The socket is to be closed.
    Error,
    ExpectMsgSize(usize),
    DropMsgSize(usize),
}

impl DispatchResult {
    /// The same answer as one with a reason, which is empty.
    pub fn into_result(self) -> (r: Result<MessageResult, String>)
        ensures
            match self {
                DispatchResult::Error => r matches Err(reason) && reason@.len() == 0,
                DispatchResult::ExpectMsgSize(n) => r == Ok::<MessageResult, String>(
                    MessageResult::ExpectMsgSize(n),
                ),
                DispatchResult::DropMsgSize(n) => r == Ok::<MessageResult, String>(
                    MessageResult::DropMsgSize(n),
                ),
            },
    {
        match self {
            DispatchResult::Error => Err(String::new()),
            DispatchResult::ExpectMsgSize(n) => Ok(MessageResult::ExpectMsgSize(n)),
            DispatchResult::DropMsgSize(n) => Ok(MessageResult::DropMsgSize(n)),
        }
    }
}

/// Receives the messages of a socket. `Ctx` is what it needs to answer them.
pub trait MsgDispatcher<Ctx>: Sized {
    /// What a call of `dispatch` comes to: the dispatcher and its context before and after it, the
    /// bytes as they were shown and as they were left, the other arguments and the answer. A
    /// dispatcher that says nothing here may answer in any way.
    open spec fn answers(
        before: (Self, Ctx),
        buf: Seq<u8>,
        new_bytes: usize,
        msg_size: usize,
        after: (Self, Ctx),
        left: Seq<u8>,
        r: Result<MessageResult, String>,
    ) -> bool {
        true
    }

    /// * `buf` - all received bytes that have not been dropped.
    /// * `new_bytes` - how many of them are new since the last call, or since a message was dropped.
    /// * `msg_size` - the size that the last call asked for, or zero.
    /// * returns an error to close the socket.
    ///
    /// The bytes may be changed in place; a slice keeps its length.
    fn dispatch(&mut self, buf: &mut [u8], new_bytes: usize, msg_size: usize, ctx: &mut Ctx) -> (r:
        Result<MessageResult, String>)
        ensures
            final(buf)@.len() == old(buf)@.len(),
            Self::answers(
                (*old(self), *old(ctx)),
                old(buf)@,
                new_bytes,
                msg_size,
                (*final(self), *final(ctx)),
                final(buf)@,
                r,
            ),
    ;
}

/// Why a socket cannot be read from any more.
#[derive(Debug, Clone, Copy, PartialEq, Eq, Structural)]
pub enum ReadError {
    PeerClosed,
    ConnectionReset,
    ConnectionAborted,
    Io(IoErrorKind),
}

/// What came of one read.
#[derive(Debug, Clone, Copy, PartialEq, Eq, Structural)]
pub enum ReadStep {
    /// So many new bytes, and the buffer is full: there may be more to read.
    More(usize),
    /// So many new bytes, and the buffer is not full: wait for the next event.
    Enough(usize),
    /// Nothing to read now.
    Blocked,
    Close(ReadError),
}

/// Why dispatching stopped.
#[derive(Debug)]
pub enum DispatchError {
    /// The dispatcher asked for the socket to be closed.
    Closed(String),
    /// The dispatcher dropped nothing, or more than there is.
    DropsTooMuch(usize),
}

#[derive(Debug)]
pub enum ReaderError {
    Read(ReadError),
    Dispatch(DispatchError),
}

/// Whether the dispatcher is to be called: there are bytes, and all that it asked for.
pub open spec fn dispatch_ready(pending: Seq<u8>, expected: usize) -> bool {
    pending.len() > 0 && (expected == 0 || expected <= pending.len())
}

/// Whether the bytes that the dispatcher was shown can be treated as it says: it drops at least one
/// byte, and no more than there are.
pub open spec fn result_fits(pending: Seq<u8>, res: MessageResult) -> bool {
    match res {
        MessageResult::ExpectMsgSize(_) => true,
        MessageResult::DropMsgSize(n) => 0 < n <= pending.len(),
    }
}

/// The bytes and the expected size after an answer.
pub open spec fn after_result(pending: Seq<u8>, res: MessageResult) -> (Seq<u8>, usize) {
    match res {
        MessageResult::ExpectMsgSize(n) => (pending, n),
        MessageResult::DropMsgSize(n) => (pending.skip(n as int), 0),
    }
}

pub open spec fn spec_read_error(kind: IoErrorKind) -> ReadError {
    match kind {
        IoErrorKind::ConnectionReset => ReadError::ConnectionReset,
        IoErrorKind::ConnectionAborted => ReadError::ConnectionAborted,
        _ => ReadError::Io(kind),
    }
}

/// What one read into a free space of `space` bytes comes to.
pub open spec fn read_step(space: nat, outcome: Result<usize, IoErrorKind>) -> ReadStep {
    match outcome {
        Ok(0) => ReadStep::Close(ReadError::PeerClosed),
        Ok(n) => if n < space {
            ReadStep::Enough(n)
        } else {
            ReadStep::More(n)
        },
        Err(kind) => if kind == IoErrorKind::WouldBlock || kind == IoErrorKind::Interrupted {
            ReadStep::Blocked
        } else {
            ReadStep::Close(spec_read_error(kind))
        },
    }
}

/// The bytes that a read brought into the free space are pending behind those that were.
pub open spec fn bytes_arrived(
    pending: Seq<u8>,
    space: Seq<u8>,
    outcome: Result<usize, IoErrorKind>,
    pending_after: Seq<u8>,
    space_after: Seq<u8>,
) -> bool {
    &&& pending_after == pending + space.take(read_bytes(outcome))
    &&& space_after == space.skip(read_bytes(outcome))
}

/// How many bytes a read brought.
pub open spec fn read_bytes(outcome: Result<usize, IoErrorKind>) -> int {
    match outcome {
        Ok(n) => n as int,
        Err(_) => 0,
    }
}

/// `MsgReader` is a per-socket helper that collects what is read and cuts it into messages, however
/// the socket splits or joins them.
pub struct MsgReader {
    recv_buffer: Vec<u8>,
    min_reserve: usize,
    startpos: usize,
    bufsize: usize,
    decoded_msgsize: usize,
}

/// One call of the dispatcher: the bytes it was shown, what it left of them, its other arguments
/// and its answer.
pub struct Shown {
    pub before: Seq<u8>,
    pub after: Seq<u8>,
    pub new_bytes: usize,
    pub msg_size: usize,
    pub answer: MessageResult,
}

/// The calls are those that dispatching `pending` makes: the first shows all pending bytes, and each
/// later one what the one before it left when it dropped a message. Each is made only when there are
/// bytes, and as many as were asked for.
pub open spec fn dispatch_calls(
    pending: Seq<u8>,
    expected: usize,
    new_bytes: usize,
    calls: Seq<Shown>,
) -> bool {
    forall|i: int| 0 <= i < calls.len() ==> #[trigger] call_fits(pending, expected, new_bytes, calls, i)
}

pub open spec fn call_fits(
    pending: Seq<u8>,
    expected: usize,
    new_bytes: usize,
    calls: Seq<Shown>,
    i: int,
) -> bool {
    let call = calls[i];
    &&& dispatch_ready(call.before, call.msg_size)
    &&& call.after.len() == call.before.len()
    &&& result_fits(call.after, call.answer)
    &&& (call.before, call.msg_size) == dispatched(pending, expected, calls.take(i))
    &&& call.new_bytes == (if i == 0 {
        new_bytes as int
    } else {
        call.before.len() as int
    })
    &&& i > 0 ==> calls[i - 1].answer is DropMsgSize
}

/// The pending bytes and the expected size after the calls.
pub open spec fn dispatched(pending: Seq<u8>, expected: usize, calls: Seq<Shown>) -> (
    Seq<u8>,
    usize,
) {
    if calls.len() == 0 {
        (pending, expected)
    } else {
        after_result(calls.last().after, calls.last().answer)
    }
}

/// Dispatching goes on: the last call dropped a message, and there is more to show.
pub open spec fn dispatch_goes_on(pending: Seq<u8>, expected: usize, calls: Seq<Shown>) -> bool {
    let (rest, size) = dispatched(pending, expected, calls);
    &&& dispatch_ready(rest, size)
    &&& calls.len() > 0 ==> calls.last().answer is DropMsgSize
}

/// How many bytes are new to the dispatcher when it is called after the calls.
pub open spec fn unseen(
    pending: Seq<u8>,
    expected: usize,
    new_bytes: usize,
    calls: Seq<Shown>,
) -> usize {
    if calls.len() == 0 {
        new_bytes
    } else {
        dispatched(pending, expected, calls).0.len() as usize
    }
}

/// The calls are made to a dispatcher that goes through the states, each with the context: one before
/// each call, and one behind the last.
pub open spec fn calls_made<Ctx, D: MsgDispatcher<Ctx>>(
    calls: Seq<Shown>,
    states: Seq<(D, Ctx)>,
) -> bool {
    &&& states.len() == calls.len() + 1
    &&& forall|i: int| 0 <= i < calls.len() ==> #[trigger] call_made(calls, states, i)
}

pub open spec fn call_made<Ctx, D: MsgDispatcher<Ctx>>(
    calls: Seq<Shown>,
    states: Seq<(D, Ctx)>,
    i: int,
) -> bool {
    D::answers(
        states[i],
        calls[i].before,
        calls[i].new_bytes,
        calls[i].msg_size,
        states[i + 1],
        calls[i].after,
        Ok(calls[i].answer),
    )
}

/// How dispatching ends: with all that can be dispatched dispatched, or with a call that asks for
/// the socket to be closed, or with one whose answer does not fit. That last call finds the
/// dispatcher in the state `reached`, and may have changed the bytes, of which `rest` are left.
pub open spec fn dispatch_ends<Ctx, D: MsgDispatcher<Ctx>>(
    pending: Seq<u8>,
    expected: usize,
    new_bytes: usize,
    calls: Seq<Shown>,
    reached: (D, Ctx),
    r: Result<(), DispatchError>,
    rest: Seq<u8>,
    size: usize,
    after: (D, Ctx),
) -> bool {
    let (shown, msg_size) = dispatched(pending, expected, calls);
    let new_bytes = unseen(pending, expected, new_bytes, calls);
    match r {
        Ok(_) => {
            &&& !dispatch_goes_on(pending, expected, calls)
            &&& (shown, msg_size) == (rest, size)
            &&& reached == after
        },
        Err(DispatchError::Closed(text)) => {
            &&& dispatch_goes_on(pending, expected, calls)
            &&& rest.len() == shown.len()
            &&& size == msg_size
            &&& D::answers(reached, shown, new_bytes, msg_size, after, rest, Err(text))
        },
        Err(DispatchError::DropsTooMuch(n)) => {
            let answer = MessageResult::DropMsgSize(n);
            &&& dispatch_goes_on(pending, expected, calls)
            &&& rest.len() == shown.len()
            &&& size == msg_size
            &&& !result_fits(rest, answer)
            &&& D::answers(reached, shown, new_bytes, msg_size, after, rest, Ok(answer))
        },
    }
}

/// Dispatching `pending` makes the calls, which take the dispatcher through the states, and ends with
/// the result.
pub open spec fn dispatch_run<Ctx, D: MsgDispatcher<Ctx>>(
    pending: Seq<u8>,
    expected: usize,
    new_bytes: usize,
    before: (D, Ctx),
    calls: Seq<Shown>,
    states: Seq<(D, Ctx)>,
    r: Result<(), DispatchError>,
    rest: Seq<u8>,
    size: usize,
    after: (D, Ctx),
) -> bool {
    &&& dispatch_calls(pending, expected, new_bytes, calls)
    &&& calls_made(calls, states)
    &&& states[0] == before
    &&& dispatch_ends(pending, expected, new_bytes, calls, states.last(), r, rest, size, after)
}

/// The outcome is one of dispatching `pending` to a dispatcher that was in the state `before`.
pub open spec fn dispatch_outcome<Ctx, D: MsgDispatcher<Ctx>>(
    pending: Seq<u8>,
    expected: usize,
    new_bytes: usize,
    before: (D, Ctx),
    r: Result<(), DispatchError>,
    rest: Seq<u8>,
    size: usize,
    after: (D, Ctx),
) -> bool {
    exists|calls: Seq<Shown>, states: Seq<(D, Ctx)>|
        #![trigger dispatch_calls(pending, expected, new_bytes, calls), calls_made(calls, states)]
        dispatch_run(pending, expected, new_bytes, before, calls, states, r, rest, size, after)
}

/// The calls go on with one that shows what the others left.
proof fn lemma_call_added(
    pending: Seq<u8>,
    expected: usize,
    new_bytes: usize,
    calls: Seq<Shown>,
    call: Shown,
)
    requires
        dispatch_calls(pending, expected, new_bytes, calls),
        dispatch_goes_on(pending, expected, calls),
        call.after.len() == call.before.len(),
        result_fits(call.after, call.answer),
        (call.before, call.msg_size) == dispatched(pending, expected, calls),
        call.new_bytes == (if calls.len() == 0 {
            new_bytes as int
        } else {
            call.before.len() as int
        }),
    ensures
        dispatch_calls(pending, expected, new_bytes, calls.push(call)),
{
    let more = calls.push(call);
    assert forall|i: int| 0 <= i < more.len() implies #[trigger] call_fits(
        pending,
        expected,
        new_bytes,
        more,
        i,
    ) by {
        assert(more.take(i) =~= calls.take(i));
        if i < calls.len() {
            assert(call_fits(pending, expected, new_bytes, calls, i));
        } else {
            assert(calls.take(i) =~= calls);
        }
    }
}

/// The calls go on with one that finds the dispatcher in the state that the others left.
proof fn lemma_call_made<Ctx, D: MsgDispatcher<Ctx>>(
    calls: Seq<Shown>,
    states: Seq<(D, Ctx)>,
    call: Shown,
    state: (D, Ctx),
)
    requires
        calls_made(calls, states),
        D::answers(
            states.last(),
            call.before,
            call.new_bytes,
            call.msg_size,
            state,
            call.after,
            Ok(call.answer),
        ),
    ensures
        calls_made(calls.push(call), states.push(state)),
{
    let more = calls.push(call);
    let after = states.push(state);
    assert forall|i: int| 0 <= i < more.len() implies #[trigger] call_made(more, after, i) by {
        if i < calls.len() {
            assert(call_made(calls, states, i));
        }
    }
}

impl MsgReader {
    /// The bytes that have been received and not dropped.
    pub closed spec fn pending(&self) -> Seq<u8> {
        self.recv_buffer@.subrange(self.startpos as int, self.bufsize as int)
    }

    /// The free space behind them.
    pub closed spec fn space(&self) -> Seq<u8> {
        self.recv_buffer@.skip(self.bufsize as int)
    }

    /// The size that the dispatcher waits for, or zero.
    pub closed spec fn expected(&self) -> usize {
        self.decoded_msgsize
    }

    pub closed spec fn min_reserve(&self) -> usize {
        self.min_reserve
    }

    /// The length of the whole buffer: what is pending, what is free, and what was dropped since the
    /// pending bytes were moved to the front last.
    pub closed spec fn buffer_len(&self) -> nat {
        self.recv_buffer@.len()
    }

    /// The pending bytes are at the front of the buffer.
    pub closed spec fn at_front(&self) -> bool {
        self.startpos == 0
    }

    pub closed spec fn wf(&self) -> bool {
        self.startpos <= self.bufsize <= self.recv_buffer@.len()
    }

    pub fn new(min_reserved_bytes: usize) -> (r: Self)
        ensures
            r.wf(),
            r.at_front(),
            r.pending() == Seq::<u8>::empty(),
            r.expected() == 0,
            r.min_reserve() == min_reserved_bytes,
            r.buffer_len() == min_reserved_bytes,
            r.space().len() == min_reserved_bytes,
    {
        let r = Self {
            recv_buffer: vec![0u8; min_reserved_bytes],
            min_reserve: min_reserved_bytes,
            startpos: 0,
            bufsize: 0,
            decoded_msgsize: 0,
        };
        assert(r.pending() =~= Seq::<u8>::empty());
        r
    }

    /// The buffer sizes that `reserve` computes are in range.
    pub closed spec fn can_grow(&self) -> bool {
        &&& self.bufsize + self.min_reserve <= usize::MAX
        &&& self.recv_buffer@.len() * 2 <= usize::MAX
    }

    pub fn check_can_grow(&self) -> (r: bool)
        ensures
            r == self.can_grow(),
    {
        self.min_reserve <= usize::MAX - self.bufsize && self.recv_buffer.len() <= usize::MAX / 2
    }

    /// Makes room for at least `min_reserve` bytes, doubling the buffer where it is too small.
    pub fn reserve(&mut self)
        requires
            old(self).wf(),
            old(self).can_grow(),
        ensures
            final(self).wf(),
            final(self).pending() == old(self).pending(),
            final(self).expected() == old(self).expected(),
            final(self).min_reserve() == old(self).min_reserve(),
            final(self).at_front() == old(self).at_front(),
            final(self).space().len() >= final(self).min_reserve(),
            final(self).buffer_len() == grown(
                old(self).buffer_len(),
                old(self).space().len(),
                old(self).min_reserve() as nat,
            ),
    {
        let need: usize = self.bufsize + self.min_reserve;
        let len = self.recv_buffer.len();
        if need > len {
            let double: usize = len * 2;
            self.grow(
                if need > double {
                    need
                } else {
                    double
                },
            );
        }
    }

    /// Makes room for at least `min_reserve` bytes, adding no more than is missing.
    pub fn reserve_exact(&mut self)
        requires
            old(self).wf(),
            old(self).can_grow(),
        ensures
            final(self).wf(),
            final(self).pending() == old(self).pending(),
            final(self).expected() == old(self).expected(),
            final(self).min_reserve() == old(self).min_reserve(),
            final(self).at_front() == old(self).at_front(),
            final(self).space().len() == (if old(self).space().len() < old(self).min_reserve() {
                old(self).min_reserve() as nat
            } else {
                old(self).space().len()
            }),
            final(self).buffer_len() == old(self).buffer_len() - old(self).space().len()
                + final(self).space().len(),
    {
        let need: usize = self.bufsize + self.min_reserve;
        if need > self.recv_buffer.len() {
            self.grow(need);
        }
    }

    /// Makes the buffer `len` bytes long, with the new ones free.
    fn grow(&mut self, len: usize)
        requires
            old(self).wf(),
            old(self).buffer_len() <= len,
        ensures
            final(self).wf(),
            final(self).pending() == old(self).pending(),
            final(self).expected() == old(self).expected(),
            final(self).min_reserve() == old(self).min_reserve(),
            final(self).at_front() == old(self).at_front(),
            final(self).space().len() == old(self).space().len() + len - old(self).buffer_len(),
            final(self).buffer_len() == len,
    {
        self.recv_buffer.resize(len, 0);
        proof {
            let before = old(self).recv_buffer@;
            assert(self.recv_buffer@.take(before.len() as int) =~= before);
            assert forall|i: int| 0 <= i < before.len() implies self.recv_buffer@[i]
                == before[i] by {
                assert(self.recv_buffer@.take(before.len() as int)[i] == before[i]);
            }
            assert(self.pending() =~= old(self).pending());
        }
    }

    /// The number of pending bytes.
    pub fn count_pending(&self) -> (r: usize)
        requires
            self.wf(),
        ensures
            r == self.pending().len(),
    {
        self.bufsize - self.startpos
    }

    /// The free space, to read into. It keeps its length.
    pub fn space_mut(&mut self) -> (r: &mut [u8])
        requires
            old(self).wf(),
        ensures
            r@ == old(self).space(),
            final(r)@.len() == r@.len() ==> {
                &&& final(self).wf()
                &&& final(self).space() == final(r)@
                &&& final(self).pending() == old(self).pending()
                &&& final(self).expected() == old(self).expected()
                &&& final(self).min_reserve() == old(self).min_reserve()
                &&& final(self).buffer_len() == old(self).buffer_len()
                &&& final(self).at_front() == old(self).at_front()
                &&& final(self).can_grow() == old(self).can_grow()
            },
    {
        let ghost before = *self;
        let ghost after = *final(self);
        let (head, tail) = self.recv_buffer.as_mut_slice().split_at_mut(self.bufsize);
        proof {
            assert(after.recv_buffer@ == head@ + final(tail)@);
            assert((head@ + final(tail)@).subrange(before.startpos as int, before.bufsize as int)
                =~= before.pending());
            assert((head@ + final(tail)@).skip(before.bufsize as int) =~= final(tail)@);
        }
        tail
    }

    /// Takes in the outcome of one read into the free space. Reading goes on, with more space
    /// reserved, while there may be more to read.
    pub fn try_read_all(&mut self, outcome: Result<usize, IoErrorKind>) -> (r: ReadStep)
        requires
            old(self).wf(),
            read_bytes(outcome) <= old(self).space().len(),
        ensures
            final(self).wf(),
            r == read_step(old(self).space().len(), outcome),
            final(self).pending() == old(self).pending() + old(self).space().take(
                read_bytes(outcome),
            ),
            final(self).space() == old(self).space().skip(read_bytes(outcome)),
            bytes_arrived(
                old(self).pending(),
                old(self).space(),
                outcome,
                final(self).pending(),
                final(self).space(),
            ),
            final(self).expected() == old(self).expected(),
            final(self).min_reserve() == old(self).min_reserve(),
            final(self).buffer_len() == old(self).buffer_len(),
            final(self).at_front() == old(self).at_front(),
    {
        let r = match outcome {
            Ok(0) => ReadStep::Close(ReadError::PeerClosed),
            Ok(n) => {
                assert(self.bufsize + n <= self.recv_buffer.len());
                self.bufsize = self.bufsize + n;
                if self.bufsize < self.recv_buffer.len() {
                    ReadStep::Enough(n)
                } else {
                    ReadStep::More(n)
                }
            },
            Err(kind) => match kind {
                IoErrorKind::WouldBlock | IoErrorKind::Interrupted => ReadStep::Blocked,
                IoErrorKind::ConnectionReset => ReadStep::Close(ReadError::ConnectionReset),
                IoErrorKind::ConnectionAborted => ReadStep::Close(ReadError::ConnectionAborted),
                IoErrorKind::Other => ReadStep::Close(ReadError::Io(kind)),
            },
        };
        proof {
            assert(self.pending() =~= old(self).pending() + old(self).space().take(
                read_bytes(outcome),
            ));
            assert(self.space() =~= old(self).space().skip(read_bytes(outcome)));
        }
        r
    }

    /// Whether the dispatcher is to be called.
    fn ready(&self) -> (r: bool)
        requires
            self.wf(),
        ensures
            r == dispatch_ready(self.pending(), self.expected()),
    {
        self.startpos < self.bufsize && (self.decoded_msgsize == 0 || self.decoded_msgsize
            <= self.bufsize - self.startpos)
    }

    /// The pending bytes, to be shown to the dispatcher.
    fn message_mut(&mut self) -> (r: &mut [u8])
        requires
            old(self).wf(),
        ensures
            r@ == old(self).pending(),
            final(r)@.len() == r@.len() ==> {
                &&& final(self).wf()
                &&& final(self).pending() == final(r)@
                &&& final(self).expected() == old(self).expected()
                &&& final(self).min_reserve() == old(self).min_reserve()
                &&& final(self).buffer_len() == old(self).buffer_len()
            },
    {
        let ghost before = *self;
        let ghost after = *final(self);
        let (head, tail) = self.recv_buffer.as_mut_slice().split_at_mut(self.bufsize);
        let (dropped, pending) = head.split_at_mut(self.startpos);
        proof {
            let whole = (dropped@ + final(pending)@) + tail@;
            assert(pending@ =~= before.pending());
            assert(after.recv_buffer@ == whole);
            assert(whole.subrange(before.startpos as int, before.startpos + final(pending)@.len())
                =~= final(pending)@);
        }
        pending
    }

    /// Moves the pending bytes to the front of the buffer.
    fn move_front(&mut self)
        requires
            old(self).wf(),
        ensures
            final(self).wf(),
            final(self).at_front(),
            final(self).pending() == old(self).pending(),
            final(self).expected() == old(self).expected(),
            final(self).min_reserve() == old(self).min_reserve(),
            final(self).buffer_len() == old(self).buffer_len(),
    {
        if self.startpos != 0 {
            copy_to_front(&mut self.recv_buffer, self.startpos, self.bufsize);
            self.bufsize = self.bufsize - self.startpos;
            self.startpos = 0;
        }
        assert(self.pending() =~= old(self).pending());
    }

    /// Treats the pending bytes as the dispatcher says.
    fn apply(&mut self, res: MessageResult)
        requires
            old(self).wf(),
            result_fits(old(self).pending(), res),
        ensures
            final(self).wf(),
            (final(self).pending(), final(self).expected()) == after_result(
                old(self).pending(),
                res,
            ),
            final(self).min_reserve() == old(self).min_reserve(),
            final(self).buffer_len() == old(self).buffer_len(),
    {
        match res {
            MessageResult::ExpectMsgSize(n) => {
                self.decoded_msgsize = n;
            },
            MessageResult::DropMsgSize(n) => {
                self.startpos = self.startpos + n;
                self.decoded_msgsize = 0;
            },
        }
        assert(self.pending() =~= after_result(old(self).pending(), res).0);
    }

    /// Shows the pending bytes to the dispatcher, and again what it leaves, until it asks for more
    /// than there is. `new_bytes` says how many bytes are new to it.
    ///
    /// An answer that expects a size of which all bytes are there already ends the dispatching as
    /// well: the dispatcher is called again after the next read.
    pub fn try_dispatch_all<Ctx, D: MsgDispatcher<Ctx>>(
        &mut self,
        new_bytes: usize,
        ctx: &mut Ctx,
        dispatcher: &mut D,
    ) -> (r: Result<(), DispatchError>)
        requires
            old(self).wf(),
        ensures
            final(self).wf(),
            dispatch_outcome(
                old(self).pending(),
                old(self).expected(),
                new_bytes,
                (*old(dispatcher), *old(ctx)),
                r,
                final(self).pending(),
                final(self).expected(),
                (*final(dispatcher), *final(ctx)),
            ),
            r is Ok ==> final(self).at_front(),
            final(self).min_reserve() == old(self).min_reserve(),
            final(self).buffer_len() == old(self).buffer_len(),
    {
        let ghost pending = self.pending();
        let ghost expected = self.expected();
        let ghost first = (*dispatcher, *ctx);
        let ghost mut calls = Seq::<Shown>::empty();
        let ghost mut states = seq![first];
        let mut new_to_it: usize = new_bytes;
        let mut waits = false;
        while !waits && self.ready()
            invariant
                self.wf(),
                self.min_reserve() == old(self).min_reserve(),
                self.buffer_len() == old(self).buffer_len(),
                dispatch_calls(pending, expected, new_bytes, calls),
                dispatched(pending, expected, calls) == (self.pending(), self.expected()),
                waits == (calls.len() > 0 && calls.last().answer is ExpectMsgSize),
                new_to_it == (if calls.len() == 0 {
                    new_bytes as int
                } else {
                    self.pending().len() as int
                }),
                calls_made(calls, states),
                states[0] == first,
                states.last() == (*dispatcher, *ctx),
                first == (*old(dispatcher), *old(ctx)),
                pending == old(self).pending(),
                expected == old(self).expected(),
            decreases self.pending().len(), if waits { 0int } else { 1int },
        {
            let ghost before = self.pending();
            let msg_size = self.decoded_msgsize;
            let buf = self.message_mut();
            let answer = dispatcher.dispatch(buf, new_to_it, msg_size, ctx);
            let ghost after = self.pending();
            let ghost state = (*dispatcher, *ctx);
            let res = match answer {
                Ok(res) => res,
                Err(err) => {
                    assert(dispatch_run(
                        pending,
                        expected,
                        new_bytes,
                        first,
                        calls,
                        states,
                        Err(DispatchError::Closed(err)),
                        self.pending(),
                        self.expected(),
                        state,
                    ));
                    return Err(DispatchError::Closed(err));
                },
            };
            match res {
                MessageResult::ExpectMsgSize(_) => {
                    waits = true;
                },
                MessageResult::DropMsgSize(n) => {
                    if n == 0 || n > self.bufsize - self.startpos {
                        assert(dispatch_run(
                            pending,
                            expected,
                            new_bytes,
                            first,
                            calls,
                            states,
                            Err(DispatchError::DropsTooMuch(n)),
                            self.pending(),
                            self.expected(),
                            state,
                        ));
                        return Err(DispatchError::DropsTooMuch(n));
                    }
                },
            }
            self.apply(res);
            proof {
                let call = Shown { before, after, new_bytes: new_to_it, msg_size, answer: res };
                lemma_call_added(pending, expected, new_bytes, calls, call);
                lemma_call_made(calls, states, call, state);
                calls = calls.push(call);
                states = states.push(state);
            }
            new_to_it = self.bufsize - self.startpos;
        }
        self.move_front();
        assert(dispatch_run(
            pending,
            expected,
            new_bytes,
            first,
            calls,
            states,
            Ok(()),
            self.pending(),
            self.expected(),
            (*dispatcher, *ctx),
        ));
        Ok(())
    }

    /// Takes in the outcome of one read and dispatches what came. Returns whether to read on at once.
    pub fn try_read_fast_dispatch<Ctx, D: MsgDispatcher<Ctx>>(
        &mut self,
        outcome: Result<usize, IoErrorKind>,
        ctx: &mut Ctx,
        dispatcher: &mut D,
    ) -> (r: Result<bool, ReaderError>)
        requires
            old(self).wf(),
            read_bytes(outcome) <= old(self).space().len(),
        ensures
            final(self).wf(),
            fast_dispatch_outcome(
                old(self).pending() + old(self).space().take(read_bytes(outcome)),
                old(self).expected(),
                read_step(old(self).space().len(), outcome),
                (*old(dispatcher), *old(ctx)),
                r,
                final(self).pending(),
                final(self).expected(),
                (*final(dispatcher), *final(ctx)),
            ),
            r is Ok && old(self).at_front() ==> final(self).at_front(),
            final(self).min_reserve() == old(self).min_reserve(),
            final(self).buffer_len() == old(self).buffer_len(),
    {
        let (new_bytes, again) = match self.try_read_all(outcome) {
            ReadStep::Close(err) => {
                return Err(ReaderError::Read(err));
            },
            ReadStep::Blocked => {
                return Ok(false);
            },
            ReadStep::Enough(n) => (n, false),
            ReadStep::More(n) => (n, true),
        };
        match self.try_dispatch_all(new_bytes, ctx, dispatcher) {
            Ok(_) => Ok(again),
            Err(err) => Err(ReaderError::Dispatch(err)),
        }
    }

    /// Dispatches all that has been read since there were `old_bytes` pending bytes, also where the
    /// reading ended with an error, which then is the result.
    pub fn try_read_fast_read<Ctx, D: MsgDispatcher<Ctx>>(
        &mut self,
        old_bytes: usize,
        read: Result<(), ReadError>,
        ctx: &mut Ctx,
        dispatcher: &mut D,
    ) -> (r: Result<(), ReaderError>)
        requires
            old(self).wf(),
            old_bytes <= old(self).pending().len(),
        ensures
            final(self).wf(),
            exists|res: Result<(), DispatchError>|
                {
                    &&& #[trigger] dispatch_outcome(
                        old(self).pending(),
                        old(self).expected(),
                        (old(self).pending().len() - old_bytes) as usize,
                        (*old(dispatcher), *old(ctx)),
                        res,
                        final(self).pending(),
                        final(self).expected(),
                        (*final(dispatcher), *final(ctx)),
                    )
                    &&& r == fast_read_result(read, res)
                    &&& res is Ok ==> final(self).at_front()
                },
            final(self).min_reserve() == old(self).min_reserve(),
            final(self).buffer_len() == old(self).buffer_len(),
    {
        let new_bytes: usize = self.count_pending() - old_bytes;
        let res = self.try_dispatch_all(new_bytes, ctx, dispatcher);
        match read {
            Err(err) => Err(ReaderError::Read(err)),
            Ok(_) => match res {
                Ok(_) => Ok(()),
                Err(err) => Err(ReaderError::Dispatch(err)),
            },
        }
    }
}

impl Default for MsgReader {
    /// A reader that reserves one kilobyte for each read.
    fn default() -> (r: Self)
        ensures
            r.wf(),
            r.at_front(),
            r.pending() == Seq::<u8>::empty(),
            r.expected() == 0,
            r.min_reserve() == 1024,
            r.buffer_len() == 1024,
    {
        Self::new(1024)
    }
}

/// What one round of reading and dispatching comes to; `arrived` are the pending bytes with those
/// that were read. Where nothing is dispatched, the dispatcher is left as it was.
pub open spec fn fast_dispatch_outcome<Ctx, D: MsgDispatcher<Ctx>>(
    arrived: Seq<u8>,
    expected: usize,
    step: ReadStep,
    before: (D, Ctx),
    r: Result<bool, ReaderError>,
    rest: Seq<u8>,
    size: usize,
    after: (D, Ctx),
) -> bool {
    match step {
        ReadStep::Close(err) => {
            &&& r == Err::<bool, _>(ReaderError::Read(err))
            &&& (rest, size) == (arrived, expected)
            &&& before == after
        },
        ReadStep::Blocked => {
            &&& r == Ok::<bool, ReaderError>(false)
            &&& (rest, size) == (arrived, expected)
            &&& before == after
        },
        ReadStep::Enough(n) => {
            &&& r != Ok::<bool, ReaderError>(true)
            &&& round_dispatched(arrived, expected, n, before, r, rest, size, after)
        },
        ReadStep::More(n) => {
            &&& r != Ok::<bool, ReaderError>(false)
            &&& round_dispatched(arrived, expected, n, before, r, rest, size, after)
        },
    }
}

/// What the dispatching of one round comes to.
pub open spec fn round_dispatched<Ctx, D: MsgDispatcher<Ctx>>(
    arrived: Seq<u8>,
    expected: usize,
    new_bytes: usize,
    before: (D, Ctx),
    r: Result<bool, ReaderError>,
    rest: Seq<u8>,
    size: usize,
    after: (D, Ctx),
) -> bool {
    match r {
        Ok(_) => dispatch_outcome(
            arrived,
            expected,
            new_bytes,
            before,
            Ok(()),
            rest,
            size,
            after,
        ),
        Err(ReaderError::Dispatch(err)) => dispatch_outcome(
            arrived,
            expected,
            new_bytes,
            before,
            Err(err),
            rest,
            size,
            after,
        ),
        Err(ReaderError::Read(_)) => false,
    }
}

/// The error that reading ended with comes before one of dispatching.
pub open spec fn fast_read_result(
    read: Result<(), ReadError>,
    res: Result<(), DispatchError>,
) -> Result<(), ReaderError> {
    match (read, res) {
        (Err(err), _) => Err(ReaderError::Read(err)),
        (Ok(_), Err(err)) => Err(ReaderError::Dispatch(err)),
        (Ok(_), Ok(_)) => Ok(()),
    }
}

/// The length of a buffer of `len` bytes, `space` of them free, that has to have `min` free bytes.
pub open spec fn grown(len: nat, space: nat, min: nat) -> nat {
    let need = (len - space + min) as nat;
    if need <= len {
        len
    } else if need > 2 * len {
        need
    } else {
        2 * len
    }
}

/// The bytes are left as they are, but for a message that is dropped: that may be changed.
pub open spec fn rest_left(before: Seq<u8>, after: Seq<u8>, answer: MessageResult) -> bool {
    match answer {
        MessageResult::DropMsgSize(n) => n <= before.len() ==> after.skip(n as int) == before.skip(
            n as int,
        ),
        MessageResult::ExpectMsgSize(_) => after == before,
    }
}

/// Each of the calls leaves the bytes as they are, but for a message that it drops.
pub open spec fn calls_leave_rest(calls: Seq<Shown>) -> bool {
    forall|i: int|
        0 <= i < calls.len() ==> rest_left(
            (#[trigger] calls[i]).before,
            calls[i].after,
            calls[i].answer,
        )
}

/// How many bytes the calls dropped.
pub open spec fn dropped_bytes(calls: Seq<Shown>) -> int
    decreases calls.len(),
{
    if calls.len() == 0 {
        0
    } else {
        dropped_bytes(calls.drop_last()) + match calls.last().answer {
            MessageResult::DropMsgSize(n) => n as int,
            MessageResult::ExpectMsgSize(_) => 0,
        }
    }
}

/// Dispatching loses, repeats and reorders no byte: a dispatcher that changes no byte but those of the
/// messages that it drops is shown, at each call, all pending bytes behind those that it dropped
/// before. What it has not dropped is pending afterwards.
pub proof fn law_dispatch_keeps_bytes<Ctx, D: MsgDispatcher<Ctx>>(
    pending: Seq<u8>,
    expected: usize,
    new_bytes: usize,
    before: (D, Ctx),
    calls: Seq<Shown>,
    states: Seq<(D, Ctx)>,
    rest: Seq<u8>,
    size: usize,
    after: (D, Ctx),
)
    requires
        dispatch_run(
            pending,
            expected,
            new_bytes,
            before,
            calls,
            states,
            Ok(()),
            rest,
            size,
            after,
        ),
        calls_leave_rest(calls),
    ensures
        0 <= dropped_bytes(calls) <= pending.len(),
        rest == pending.skip(dropped_bytes(calls)),
        forall|i: int|
            0 <= i < calls.len() ==> (#[trigger] calls[i]).before == pending.skip(
                dropped_bytes(calls.take(i)),
            ),
{
    assert forall|i: int| 0 <= i < calls.len() implies (#[trigger] calls[i]).before == pending.skip(
        dropped_bytes(calls.take(i)),
    ) by {
        lemma_dropped(pending, expected, new_bytes, calls, i);
        assert(call_fits(pending, expected, new_bytes, calls, i));
    }
    lemma_dropped(pending, expected, new_bytes, calls, calls.len() as int);
    assert(calls.take(calls.len() as int) =~= calls);
}

proof fn lemma_dropped(
    pending: Seq<u8>,
    expected: usize,
    new_bytes: usize,
    calls: Seq<Shown>,
    k: int,
)
    requires
        dispatch_calls(pending, expected, new_bytes, calls),
        calls_leave_rest(calls),
        0 <= k <= calls.len(),
    ensures
        0 <= dropped_bytes(calls.take(k)) <= pending.len(),
        dispatched(pending, expected, calls.take(k)).0 == pending.skip(
            dropped_bytes(calls.take(k)),
        ),
    decreases k,
{
    if k > 0 {
        lemma_dropped(pending, expected, new_bytes, calls, k - 1);
        assert(calls.take(k).drop_last() =~= calls.take(k - 1));
        assert(calls.take(k).last() == calls[k - 1]);
        assert(call_fits(pending, expected, new_bytes, calls, k - 1));
        let call = calls[k - 1];
        assert(rest_left(call.before, call.after, call.answer));
    }
    assert(dispatched(pending, expected, calls.take(k)).0 =~= pending.skip(
        dropped_bytes(calls.take(k)),
    ));
}

/// A stream of bytes as a dispatcher that answers by `decode` cuts it: the messages, and what is
/// left behind them.
pub open spec fn split_messages(
    decode: spec_fn(Seq<u8>) -> MessageResult,
    bytes: Seq<u8>,
) -> (Seq<Seq<u8>>, Seq<u8>)
    decreases bytes.len(),
{
    match decode(bytes) {
        MessageResult::DropMsgSize(n) => if 0 < n <= bytes.len() {
            let (messages, rest) = split_messages(decode, bytes.skip(n as int));
            (seq![bytes.take(n as int)] + messages, rest)
        } else {
            (Seq::empty(), bytes)
        },
        MessageResult::ExpectMsgSize(_) => (Seq::empty(), bytes),
    }
}

/// Bytes that follow a message do not change where it ends.
pub open spec fn decodes_prefixes(decode: spec_fn(Seq<u8>) -> MessageResult) -> bool {
    forall|b: Seq<u8>, more: Seq<u8>|
        decode(b) is DropMsgSize && result_fits(b, decode(b)) ==> #[trigger] decode(b + more)
            == decode(b)
}

/// The messages that the calls dropped, in order and as they were shown.
pub open spec fn dropped_messages(calls: Seq<Shown>) -> Seq<Seq<u8>>
    decreases calls.len(),
{
    if calls.len() == 0 {
        Seq::empty()
    } else {
        match calls.last().answer {
            MessageResult::DropMsgSize(n) => dropped_messages(calls.drop_last()).push(
                calls.last().before.take(n as int),
            ),
            MessageResult::ExpectMsgSize(_) => dropped_messages(calls.drop_last()),
        }
    }
}

/// The dispatcher answers by `decode` alone, and changes no byte but those of the messages that it
/// drops.
pub open spec fn calls_decode(
    decode: spec_fn(Seq<u8>) -> MessageResult,
    calls: Seq<Shown>,
) -> bool {
    &&& calls_leave_rest(calls)
    &&& forall|i: int|
        0 <= i < calls.len() ==> (#[trigger] calls[i]).answer == decode(calls[i].before)
}

/// It makes no difference to the messages how the reads cut the stream: messages that come in parts,
/// or several at once, are the same.
pub proof fn law_reads_split_anywhere(
    decode: spec_fn(Seq<u8>) -> MessageResult,
    first: Seq<u8>,
    second: Seq<u8>,
)
    requires
        decodes_prefixes(decode),
    ensures
        ({
            let (messages, rest) = split_messages(decode, first);
            let (more, end) = split_messages(decode, rest + second);
            split_messages(decode, first + second) == (messages + more, end)
        }),
    decreases first.len(),
{
    let (messages, rest) = split_messages(decode, first);
    let (more, end) = split_messages(decode, rest + second);
    if decode(first) is DropMsgSize && result_fits(first, decode(first)) {
        let n = decode(first)->DropMsgSize_0 as int;
        assert(decode(first + second) == decode(first));
        law_reads_split_anywhere(decode, first.skip(n), second);
        assert((first + second).skip(n) =~= first.skip(n) + second);
        assert((first + second).take(n) =~= first.take(n));
        let tail = split_messages(decode, first.skip(n)).0;
        assert((seq![first.take(n)] + tail) + more =~= seq![first.take(n)] + (tail + more));
    } else {
        assert(messages + more =~= more);
    }
}

/// What the calls dropped and left is what there was: the messages are those of the stream, each
/// dispatched when all of it has come, in order, and the rest waits for more.
pub proof fn law_dispatch_splits_stream(
    decode: spec_fn(Seq<u8>) -> MessageResult,
    pending: Seq<u8>,
    expected: usize,
    new_bytes: usize,
    calls: Seq<Shown>,
)
    requires
        dispatch_calls(pending, expected, new_bytes, calls),
        !dispatch_goes_on(pending, expected, calls),
        calls_decode(decode, calls),
        pending.len() < expected ==> !(decode(pending) is DropMsgSize
            && result_fits(pending, decode(pending))),
    ensures
        split_messages(decode, pending) == (
            dropped_messages(calls),
            dispatched(pending, expected, calls).0,
        ),
{
    lemma_dispatch_prefix(decode, pending, expected, new_bytes, calls, calls.len() as int);
    assert(calls.take(calls.len() as int) =~= calls);
    if calls.len() > 0 {
        assert(call_fits(pending, expected, new_bytes, calls, calls.len() - 1));
    }
    let rest = dispatched(pending, expected, calls).0;
    assert(split_messages(decode, rest) == (Seq::<Seq<u8>>::empty(), rest));
    assert(dropped_messages(calls) + Seq::<Seq<u8>>::empty() =~= dropped_messages(calls));
}

proof fn lemma_dispatch_prefix(
    decode: spec_fn(Seq<u8>) -> MessageResult,
    pending: Seq<u8>,
    expected: usize,
    new_bytes: usize,
    calls: Seq<Shown>,
    k: int,
)
    requires
        dispatch_calls(pending, expected, new_bytes, calls),
        calls_decode(decode, calls),
        0 <= k <= calls.len(),
    ensures
        ({
            let rest = dispatched(pending, expected, calls.take(k)).0;
            let (messages, end) = split_messages(decode, rest);
            split_messages(decode, pending) == (dropped_messages(calls.take(k)) + messages, end)
        }),
    decreases k,
{
    let rest = dispatched(pending, expected, calls.take(k)).0;
    let (messages, end) = split_messages(decode, rest);
    if k == 0 {
        assert(dropped_messages(calls.take(k)) + messages =~= messages);
    } else {
        lemma_dispatch_prefix(decode, pending, expected, new_bytes, calls, k - 1);
        assert(calls.take(k).drop_last() =~= calls.take(k - 1));
        assert(call_fits(pending, expected, new_bytes, calls, k - 1));
        let call = calls[k - 1];
        assert(calls.take(k).last() == call);
        let before = dropped_messages(calls.take(k - 1));
        if call.answer is DropMsgSize {
            let n = call.answer->DropMsgSize_0 as int;
            let message = call.before.take(n);
            assert(before + (seq![message] + messages) =~= before.push(message) + messages);
        }
    }
}

/// What a read means: one that brings nothing tells that the peer has closed, and one that fails that
/// the socket is to be closed, unless it would block or was interrupted. A read that fills the space
/// may have left more to be read, and one that does not has not.
pub proof fn law_read_outcome(space: nat, outcome: Result<usize, IoErrorKind>)
    ensures
        ({
            let step = read_step(space, outcome);
            match outcome {
                Ok(n) => {
                    &&& n == 0 ==> step == ReadStep::Close(ReadError::PeerClosed)
                    &&& 0 < n < space ==> step == ReadStep::Enough(n)
                    &&& 0 < n && n == space ==> step == ReadStep::More(n)
                },
                Err(IoErrorKind::WouldBlock) => step == ReadStep::Blocked,
                Err(IoErrorKind::Interrupted) => step == ReadStep::Blocked,
                Err(IoErrorKind::ConnectionReset) => step == ReadStep::Close(
                    ReadError::ConnectionReset,
                ),
                Err(IoErrorKind::ConnectionAborted) => step == ReadStep::Close(
                    ReadError::ConnectionAborted,
                ),
                Err(IoErrorKind::Other) => step == ReadStep::Close(
                    ReadError::Io(IoErrorKind::Other),
                ),
            }
        }),
        read_bytes(outcome) == (match outcome {
            Ok(n) => n as int,
            Err(_) => 0,
        }),
{
}

/// A round of reading and dispatching: whatever a read brings is dispatched, with as many bytes new as
/// it brought. The socket is read again at once exactly where nothing failed and the read filled the
/// space. Where a read brings nothing the dispatcher is not called, and nothing changes.
pub proof fn law_read_round<Ctx, D: MsgDispatcher<Ctx>>(
    space: nat,
    outcome: Result<usize, IoErrorKind>,
    arrived: Seq<u8>,
    expected: usize,
    before: (D, Ctx),
    r: Result<bool, ReaderError>,
    rest: Seq<u8>,
    size: usize,
    after: (D, Ctx),
)
    requires
        outcome matches Ok(n) ==> n <= space,
        fast_dispatch_outcome(
            arrived,
            expected,
            read_step(space, outcome),
            before,
            r,
            rest,
            size,
            after,
        ),
    ensures
        match outcome {
            Ok(n) if n > 0 => match r {
                Ok(again) => {
                    &&& again == (n == space)
                    &&& dispatch_outcome(arrived, expected, n, before, Ok(()), rest, size, after)
                },
                Err(ReaderError::Dispatch(err)) => dispatch_outcome(
                    arrived,
                    expected,
                    n,
                    before,
                    Err(err),
                    rest,
                    size,
                    after,
                ),
                Err(ReaderError::Read(_)) => false,
            },
            _ => (rest, size) == (arrived, expected) && after == before,
        },
        match outcome {
            Ok(n) => n == 0 ==> r == Err::<bool, ReaderError>(
                ReaderError::Read(ReadError::PeerClosed),
            ),
            Err(IoErrorKind::WouldBlock) => r == Ok::<bool, ReaderError>(false),
            Err(IoErrorKind::Interrupted) => r == Ok::<bool, ReaderError>(false),
            Err(IoErrorKind::ConnectionReset) => r == Err::<bool, ReaderError>(
                ReaderError::Read(ReadError::ConnectionReset),
            ),
            Err(IoErrorKind::ConnectionAborted) => r == Err::<bool, ReaderError>(
                ReaderError::Read(ReadError::ConnectionAborted),
            ),
            Err(kind) => r == Err::<bool, ReaderError>(ReaderError::Read(ReadError::Io(kind))),
        },
{
}

/// When the dispatcher is called, and with what. It is called at all exactly where there are bytes,
/// and as many as it asked for. The first call shows all pending bytes, with the size that was asked
/// for and the given number of new bytes. A later one follows only on a message that was dropped, and
/// shows what is behind it, all of it new and with no size asked for. Dispatching ends when the
/// dispatcher asks for more, when nothing is left, or with an error.
pub proof fn law_dispatcher_calls<Ctx, D: MsgDispatcher<Ctx>>(
    pending: Seq<u8>,
    expected: usize,
    new_bytes: usize,
    before: (D, Ctx),
    calls: Seq<Shown>,
    states: Seq<(D, Ctx)>,
    r: Result<(), DispatchError>,
    rest: Seq<u8>,
    size: usize,
    after: (D, Ctx),
)
    requires
        dispatch_run(
            pending,
            expected,
            new_bytes,
            before,
            calls,
            states,
            r,
            rest,
            size,
            after,
        ),
    ensures
        (calls.len() > 0 || r is Err) <==> pending.len() > 0 && (expected == 0 || expected
            <= pending.len()),
        calls.len() > 0 ==> {
            &&& calls[0].before == pending
            &&& calls[0].msg_size == expected
            &&& calls[0].new_bytes == new_bytes
        },
        forall|i: int|
            #![trigger calls[i]]
            0 <= i < calls.len() ==> {
                &&& calls[i].before.len() > 0
                &&& calls[i].after.len() == calls[i].before.len()
                &&& calls[i].answer matches MessageResult::DropMsgSize(n) ==> 0 < n
                    <= calls[i].before.len()
            },
        forall|i: int, j: int|
            #![trigger calls[i], calls[j]]
            0 <= i < calls.len() && j == i + 1 && j < calls.len() ==> {
                &&& calls[i].answer matches MessageResult::DropMsgSize(n) && calls[j].before
                    == calls[i].after.skip(n as int)
                &&& calls[j].msg_size == 0
                &&& calls[j].new_bytes == calls[j].before.len()
            },
        r is Ok ==> if calls.len() == 0 {
            (rest, size) == (pending, expected)
        } else {
            match calls.last().answer {
                MessageResult::ExpectMsgSize(n) => (rest, size) == (calls.last().after, n),
                MessageResult::DropMsgSize(n) => rest.len() == 0 && size == 0 && n
                    == calls.last().before.len(),
            }
        },
        r matches Err(DispatchError::DropsTooMuch(n)) ==> n == 0 || n > rest.len(),
{
    assert(calls.take(0) =~= Seq::empty());
    if calls.len() > 0 {
        assert(call_fits(pending, expected, new_bytes, calls, 0));
        assert(call_fits(pending, expected, new_bytes, calls, calls.len() - 1));
        assert(calls.last() == calls[calls.len() - 1]);
    }
    assert forall|i: int|
        #![trigger calls[i]]
        0 <= i < calls.len() implies {
        &&& calls[i].before.len() > 0
        &&& calls[i].after.len() == calls[i].before.len()
        &&& calls[i].answer matches MessageResult::DropMsgSize(n) ==> 0 < n
            <= calls[i].before.len()
    } by {
        assert(call_fits(pending, expected, new_bytes, calls, i));
    }
    assert forall|i: int, j: int|
        #![trigger calls[i], calls[j]]
        0 <= i < calls.len() && j == i + 1 && j < calls.len() implies {
        &&& calls[i].answer matches MessageResult::DropMsgSize(n) && calls[j].before
            == calls[i].after.skip(n as int)
        &&& calls[j].msg_size == 0
        &&& calls[j].new_bytes == calls[j].before.len()
    } by {
        assert(call_fits(pending, expected, new_bytes, calls, j));
        assert(calls.take(j).last() == calls[i]);
    }
}

/// Reading and dispatching succeed only together, and an error of reading comes first.
pub proof fn law_read_error_first(read: Result<(), ReadError>, res: Result<(), DispatchError>)
    ensures
        fast_read_result(read, res) is Ok <==> read is Ok && res is Ok,
        read matches Err(err) ==> fast_read_result(read, res) == Err::<(), ReaderError>(
            ReaderError::Read(err),
        ),
        read is Ok && res is Err ==> (fast_read_result(read, res) matches Err(
            ReaderError::Dispatch(_),
        )),
{
}

/// A buffer that has to grow is at least doubled, and always holds what is reserved; one that has the
/// space stays as it is.
pub proof fn law_buffer_grows(len: nat, space: nat, min: nat)
    requires
        space <= len,
    ensures
        grown(len, space, min) >= len - space + min,
        space >= min ==> grown(len, space, min) == len,
        space < min ==> grown(len, space, min) >= 2 * len,
        grown(len, space, min) == len || grown(len, space, min) == 2 * len || grown(
            len,
            space,
            min,
        ) == len - space + min,
{
}

/// A reader can reserve as long as the lengths that come of it can be counted.
pub proof fn law_reader_can_grow(reader: MsgReader)
    requires
        reader.wf(),
    ensures
        reader.can_grow() <==> reader.buffer_len() - reader.space().len() + reader.min_reserve()
            <= usize::MAX && 2 * reader.buffer_len() <= usize::MAX,
        reader.pending().len() + reader.space().len() <= reader.buffer_len(),
{
}

/// A read adds exactly the bytes that it brought, behind those that were pending, and takes them from
/// the free space. One that fails adds none.
pub proof fn law_reads_add_bytes(
    pending: Seq<u8>,
    space: Seq<u8>,
    outcome: Result<usize, IoErrorKind>,
    pending_after: Seq<u8>,
    space_after: Seq<u8>,
)
    requires
        bytes_arrived(pending, space, outcome, pending_after, space_after),
        outcome matches Ok(n) ==> n <= space.len(),
    ensures
        pending_after + space_after == pending + space,
        outcome matches Ok(n) ==> pending_after.len() == pending.len() + n,
        outcome is Err ==> pending_after == pending && space_after == space,
{
    assert(pending_after + space_after =~= pending + space);
    if outcome is Err {
        assert(pending_after =~= pending);
        assert(space_after =~= space);
    }
}

} // verus!
