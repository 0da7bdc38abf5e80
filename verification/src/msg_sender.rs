//! The sending side of a socket: what could not be written yet, and who waits for it.

use crate::bytes::copy_to_front;
use crate::flat_storage::FlatStorage;
use crate::socket_io::IoErrorKind;
use vstd::prelude::*;

verus! {

/// The end mark of the list of waiting completions.
const NO_PENDING: usize = usize::MAX;

/// A message whose bytes are in the queue and whose sender waits for a notification.
pub struct PendingSend<C> {
    next_id: usize,
    startpos: usize,
    msgsize: usize,
    completion: C,
}

/// The outcome of handing over a message.
#[derive(Debug, Clone, Copy, PartialEq, Eq, Structural)]
pub enum SendOrQueResult {
    /// No message in queue.
    Complete,
    /// Message in queue.
    InQueue,
}

/// Why a socket cannot be written to any more.
#[derive(Debug, Clone, Copy, PartialEq, Eq, Structural)]
pub enum SendError {
    /// The socket took no byte.
    ZeroBytes,
    ConnectionReset,
    Io(IoErrorKind),
}

/// `MsgSender` is a per-socket object. What a non-blocking socket does not take at once is queued,
/// and goes out in order when the socket becomes writable again. A message may carry a completion
/// of type `C`, which is handed back once the last byte of the message has been written.
pub struct MsgSender<C> {
    buf: Vec<u8>,
    pending: FlatStorage<PendingSend<C>>,
    first_pending_id: usize,
    last_pending_id: usize,
    /// Bytes written since the queue was empty last; `buf[0]` is the next one.
    bytes_sent: usize,
    close_or_error: bool,
    order: Ghost<Seq<usize>>,
}

/// How many completions at the head of `marks` are reached once `n` bytes are written.
pub open spec fn fired_count<C>(marks: Seq<(int, C)>, n: int) -> nat
    decreases marks.len(),
{
    if marks.len() == 0 || marks[0].0 > n {
        0
    } else {
        1 + fired_count(marks.drop_first(), n)
    }
}

/// The completions that are handed back when `n` bytes are written, in the order of their messages.
pub open spec fn fired<C>(marks: Seq<(int, C)>, n: int) -> Seq<C> {
    marks.take(fired_count(marks, n) as int).map_values(|m: (int, C)| m.1)
}

/// The marks when `n` bytes before them are gone.
pub open spec fn shifted<C>(marks: Seq<(int, C)>, n: int) -> Seq<(int, C)> {
    marks.map_values(|m: (int, C)| (m.0 - n, m.1))
}

/// The completions that still wait when `n` bytes are written.
pub open spec fn waiting<C>(marks: Seq<(int, C)>, n: int) -> Seq<(int, C)> {
    shifted(marks.skip(fired_count(marks, n) as int), n)
}

/// Where messages begin when `n` bytes are gone: one of which only a part is left begins at once.
pub open spec fn begun(starts: Seq<int>, n: int) -> Seq<int> {
    starts.map_values(
        |start: int|
            if start < n {
                0
            } else {
                start - n
            },
    )
}

/// Where the messages begin whose completions still wait when `n` bytes are written.
pub open spec fn waiting_starts<C>(starts: Seq<int>, marks: Seq<(int, C)>, n: int) -> Seq<int> {
    begun(starts.skip(fired_count(marks, n) as int), n)
}

/// What is left of a sender with the same completions, when `n` bytes at the front of its queue are
/// gone.
proof fn lemma_same_pending<C>(a: MsgSender<C>, b: MsgSender<C>, n: int)
    requires
        a.wf(),
        b.pending == a.pending,
        b.order == a.order,
        b.first_pending_id == a.first_pending_id,
        b.last_pending_id == a.last_pending_id,
        0 <= n,
        a.marks().len() == 0 || b.bytes_sent == a.bytes_sent + n,
        b.bytes_sent + b.buf@.len() <= usize::MAX,
        b.buf@.len() == 0 ==> b.bytes_sent == 0,
        forall|i: int|
            0 <= i < a.marks().len() ==> (#[trigger] a.marks()[i]).0 - n <= b.buf@.len(),
    ensures
        b.wf(),
        b.marks() == shifted(a.marks(), n),
        b.starts() == begun(a.starts(), n),
        n == 0 ==> b.marks() == a.marks() && b.starts() == a.starts(),
{
    assert forall|i: int| 0 <= i < b.order@.len() implies #[trigger] b.link_ok(i) && b.end(i)
        == a.end(i) by {
        assert(a.link_ok(i));
        assert(a.marks()[i].0 - n <= b.buf@.len());
    }
    assert forall|i: int, j: int| 0 <= i <= j < b.order@.len() implies #[trigger] b.end(i)
        <= #[trigger] b.end(j) by {
        assert(a.end(i) <= a.end(j));
    }
    assert(b.marks() =~= shifted(a.marks(), n));
    assert(b.starts() =~= begun(a.starts(), n));
    assert(n == 0 ==> b.marks() =~= a.marks());
    assert(n == 0 ==> b.starts() =~= a.starts());
}

/// Taking the first waiting completion out of the list keeps the sender well formed.
proof fn lemma_popped<C>(a: MsgSender<C>, b: MsgSender<C>)
    requires
        a.wf(),
        a.order@.len() > 0,
        b.order@ == a.order@.drop_first(),
        b.pending.wf(),
        b.pending@ == a.pending@.remove(a.order@[0]),
        b.pending.spec_len() == a.pending.spec_len() - 1,
        b.first_pending_id == a.pending@[a.order@[0]].next_id,
        b.last_pending_id == if b.first_pending_id == NO_PENDING {
            NO_PENDING
        } else {
            a.last_pending_id
        },
        b.buf == a.buf,
        b.bytes_sent == a.bytes_sent,
    ensures
        b.wf(),
        b.marks() == a.marks().drop_first(),
        b.starts() == a.starts().drop_first(),
{
    let n = b.order@.len();
    assert(a.link_ok(0));
    if n > 0 {
        assert(a.link_ok(1));
        a.pending.lemma_key_valid(a.order@[1]);
    }
    assert forall|i: int| 0 <= i < n implies #[trigger] b.link_ok(i) && b.end(i) == a.end(i + 1) by {
        assert(a.link_ok(i + 1));
        assert(a.order@[i + 1] != a.order@[0]);
    }
    assert forall|i: int, j: int| 0 <= i <= j < n implies #[trigger] b.end(i) <= #[trigger] b.end(
        j,
    ) by {
        assert(b.link_ok(i) && b.link_ok(j));
        assert(a.end(i + 1) <= a.end(j + 1));
    }
    assert(b.marks() =~= a.marks().drop_first()) by {
        assert forall|i: int| 0 <= i < n implies #[trigger] b.marks()[i] == a.marks()[i + 1] by {
            assert(b.link_ok(i));
        }
    }
    assert(b.starts() =~= a.starts().drop_first()) by {
        assert forall|i: int| 0 <= i < n implies #[trigger] b.starts()[i] == a.starts()[i + 1] by {
            assert(b.link_ok(i));
        }
    }
}

pub open spec fn spec_send_error(kind: IoErrorKind) -> SendError {
    match kind {
        IoErrorKind::ConnectionReset => SendError::ConnectionReset,
        _ => SendError::Io(kind),
    }
}

fn send_error(kind: IoErrorKind) -> (r: SendError)
    ensures
        r == spec_send_error(kind),
{
    match kind {
        IoErrorKind::ConnectionReset => SendError::ConnectionReset,
        _ => SendError::Io(kind),
    }
}

/// What the result of sending says of the queue.
pub open spec fn queue_result(queued: Seq<u8>) -> SendOrQueResult {
    if queued.len() == 0 {
        SendOrQueResult::Complete
    } else {
        SendOrQueResult::InQueue
    }
}

/// What a socket took. That it would block, or the write was interrupted, is no error: it took
/// nothing, and the rest waits.
pub open spec fn taken(written: Result<usize, IoErrorKind>) -> Result<usize, IoErrorKind> {
    match written {
        Err(IoErrorKind::WouldBlock) | Err(IoErrorKind::Interrupted) => Ok(0),
        _ => written,
    }
}

fn bytes_taken(written: Result<usize, IoErrorKind>) -> (r: Result<usize, IoErrorKind>)
    ensures
        r == taken(written),
{
    match written {
        Ok(n) => Ok(n),
        Err(kind) => match kind {
            IoErrorKind::WouldBlock | IoErrorKind::Interrupted => Ok(0),
            _ => Err(kind),
        },
    }
}

/// What writing a queue comes to: the queue, the waiting completions and whether the socket is to
/// be closed afterwards, the result, and the completions that are handed back.
pub open spec fn queue_written<C>(
    queued: Seq<u8>,
    marks: Seq<(int, C)>,
    closing: bool,
    written: Result<usize, IoErrorKind>,
) -> (Seq<u8>, Seq<(int, C)>, bool, Result<SendOrQueResult, SendError>, Seq<C>) {
    let nothing = Seq::<C>::empty();
    if queued.len() == 0 {
        (queued, marks, closing, Ok(queue_result(queued)), nothing)
    } else {
        match written {
            Ok(0) => (queued, marks, true, Err(SendError::ZeroBytes), nothing),
            Ok(n) => (
                queued.skip(n as int),
                waiting(marks, n as int),
                closing,
                Ok(queue_result(queued.skip(n as int))),
                fired(marks, n as int),
            ),
            Err(kind) => if kind == IoErrorKind::WouldBlock || kind == IoErrorKind::Interrupted {
                (queued, marks, closing, Ok(queue_result(queued)), nothing)
            } else {
                (queued, marks, true, Err(spec_send_error(kind)), nothing)
            },
        }
    }
}

pub open spec fn mark_end<C>(marks: Seq<(int, C)>, end: int, completion: Option<C>) -> Seq<(int, C)> {
    match completion {
        Some(c) => marks.push((end, c)),
        None => marks,
    }
}

/// The bytes written since the queue was empty last, of which there were `before`, when the queue is
/// written.
pub open spec fn sent_after(
    before: nat,
    queued: Seq<u8>,
    written: Result<usize, IoErrorKind>,
) -> nat {
    match written {
        Ok(n) if queued.len() > 0 => if n == queued.len() {
            0
        } else {
            before + n as nat
        },
        _ => before,
    }
}

/// Where the waiting messages begin when the queue is written.
pub open spec fn starts_written<C>(
    starts: Seq<int>,
    queued: Seq<u8>,
    marks: Seq<(int, C)>,
    written: Result<usize, IoErrorKind>,
) -> Seq<int> {
    match written {
        Ok(n) if queued.len() > 0 && n > 0 => waiting_starts(starts, marks, n as int),
        _ => starts,
    }
}

pub open spec fn mark_start<C>(starts: Seq<int>, start: int, completion: Option<C>) -> Seq<int> {
    match completion {
        Some(_) => starts.push(start),
        None => starts,
    }
}

/// Where the waiting messages begin when a message is sent: what is queued of it begins behind what
/// was queued before.
pub open spec fn starts_sent<C>(
    starts: Seq<int>,
    queued: Seq<u8>,
    msg: Seq<u8>,
    completion: Option<C>,
    sent: Result<usize, IoErrorKind>,
) -> Seq<int> {
    if msg.len() == 0 {
        starts
    } else if queued.len() > 0 {
        mark_start(starts, queued.len() as int, completion)
    } else {
        match taken(sent) {
            Ok(n) if n < msg.len() => mark_start(starts, 0, completion),
            _ => starts,
        }
    }
}

/// What sending a message comes to: the queue, the waiting completions and whether the socket is to
/// be closed afterwards, the result, and the completion if it is due at once. An empty message is out
/// at once, whatever waits.
pub open spec fn msg_sent<C>(
    queued: Seq<u8>,
    marks: Seq<(int, C)>,
    closing: bool,
    msg: Seq<u8>,
    completion: Option<C>,
    sent: Result<usize, IoErrorKind>,
) -> (Seq<u8>, Seq<(int, C)>, bool, Result<SendOrQueResult, SendError>, Option<C>) {
    if msg.len() == 0 {
        (queued, marks, closing, Ok(queue_result(queued)), completion)
    } else if queued.len() > 0 {
        let all = queued + msg;
        (all, mark_end(marks, all.len() as int, completion), closing, Ok(queue_result(all)), None)
    } else {
        match taken(sent) {
            Err(kind) => (queued, marks, true, Err(spec_send_error(kind)), None),
            Ok(n) => if n == msg.len() {
                (queued, marks, closing, Ok(queue_result(queued)), completion)
            } else {
                let rest = msg.skip(n as int);
                (
                    rest,
                    mark_end(marks, rest.len() as int, completion),
                    closing,
                    Ok(queue_result(rest)),
                    None,
                )
            },
        }
    }
}

/// What sending a message with a single write comes to. A write that takes nothing is an error.
pub open spec fn msg_sent_once<C>(
    queued: Seq<u8>,
    marks: Seq<(int, C)>,
    closing: bool,
    msg: Seq<u8>,
    completion: C,
    written: Result<usize, IoErrorKind>,
) -> (Seq<u8>, Seq<(int, C)>, bool, Result<SendOrQueResult, SendError>, Option<C>) {
    if msg.len() > 0 && queued.len() == 0 && written == Ok::<usize, IoErrorKind>(0) {
        (queued, marks, true, Err(SendError::ZeroBytes), None)
    } else {
        msg_sent(queued, marks, closing, msg, Some(completion), written)
    }
}

impl<C> Default for MsgSender<C> {
    fn default() -> (r: Self)
        ensures
            r.wf(),
            r.queued() == Seq::<u8>::empty(),
            r.marks() == Seq::<(int, C)>::empty(),
            r.starts() == Seq::<int>::empty(),
            r.bytes_sent() == 0,
            !r.closing(),
    {
        Self::new()
    }
}

impl<C> MsgSender<C> {
    /// The bytes that wait to be written.
    pub closed spec fn queued(&self) -> Seq<u8> {
        self.buf@
    }

    spec fn end(&self, i: int) -> int {
        let p = self.pending@[self.order@[i]];
        p.startpos + p.msgsize
    }

    /// The waiting completions in the order of their messages, each with the number of queued
    /// bytes up to the end of its message, which is below zero where bytes behind it were dropped.
    pub closed spec fn marks(&self) -> Seq<(int, C)> {
        Seq::new(
            self.order@.len(),
            |i: int| (self.end(i) - self.bytes_sent, self.pending@[self.order@[i]].completion),
        )
    }

    /// Where the waiting messages begin in the queue, in the same order: one of which a part is out
    /// begins at once.
    pub closed spec fn starts(&self) -> Seq<int> {
        Seq::new(
            self.order@.len(),
            |i: int|
                {
                    let start = self.pending@[self.order@[i]].startpos - self.bytes_sent;
                    if start < 0 {
                        0
                    } else {
                        start
                    }
                },
        )
    }

    /// The socket is to be closed.
    pub closed spec fn closing(&self) -> bool {
        self.close_or_error
    }

    /// The bytes written since the queue was empty last.
    pub closed spec fn bytes_sent(&self) -> nat {
        self.bytes_sent as nat
    }

    /// `n` more bytes and one more completion fit.
    pub open spec fn room(&self, n: int) -> bool {
        &&& self.bytes_sent() + self.queued().len() + n <= usize::MAX
        &&& self.marks().len() < usize::MAX
    }

    spec fn link_ok(&self, i: int) -> bool {
        &&& self.pending@.contains_key(self.order@[i])
        &&& self.pending@[self.order@[i]].next_id == if i + 1 == self.order@.len() {
            NO_PENDING
        } else {
            self.order@[i + 1]
        }
        &&& self.end(i) <= self.bytes_sent + self.buf@.len()
    }

    pub closed spec fn wf(&self) -> bool {
        &&& self.pending.wf()
        &&& self.order@.no_duplicates()
        &&& self.order@.len() == self.pending.spec_len()
        &&& forall|i: int| 0 <= i < self.order@.len() ==> #[trigger] self.link_ok(i)
        &&& forall|i: int, j: int|
            0 <= i <= j < self.order@.len() ==> #[trigger] self.end(i) <= #[trigger] self.end(j)
        &&& self.first_pending_id == if self.order@.len() == 0 {
            NO_PENDING
        } else {
            self.order@[0]
        }
        &&& self.last_pending_id == if self.order@.len() == 0 {
            NO_PENDING
        } else {
            self.order@.last()
        }
        &&& self.bytes_sent + self.buf@.len() <= usize::MAX
        &&& self.buf@.len() == 0 ==> self.bytes_sent == 0
    }

    /// The list is empty exactly when its head is the end mark.
    proof fn lemma_first(&self)
        requires
            self.wf(),
        ensures
            self.first_pending_id == NO_PENDING <==> self.marks().len() == 0,
    {
        if self.order@.len() > 0 {
            assert(self.link_ok(0));
            self.pending.lemma_key_valid(self.order@[0]);
        }
    }

    pub fn new() -> (r: Self)
        ensures
            r.wf(),
            r.queued() == Seq::<u8>::empty(),
            r.marks() == Seq::<(int, C)>::empty(),
            r.starts() == Seq::<int>::empty(),
            r.bytes_sent() == 0,
            !r.closing(),
    {
        Self {
            buf: Vec::new(),
            pending: FlatStorage::new(),
            first_pending_id: NO_PENDING,
            last_pending_id: NO_PENDING,
            bytes_sent: 0,
            close_or_error: false,
            order: Ghost(Seq::empty()),
        }
    }

    /// Lets the last `queued_size` bytes of the queue be a message that `send_completion` waits
    /// for. To be called after the message has been appended to `buf`.
    pub fn queue_msg_completion(&mut self, queued_size: usize, send_completion: Option<C>)
        requires
            old(self).wf(),
            old(self).room(0),
            queued_size <= old(self).queued().len(),
        ensures
            final(self).wf(),
            final(self).queued() == old(self).queued(),
            final(self).bytes_sent() == old(self).bytes_sent(),
            final(self).closing() == old(self).closing(),
            final(self).marks() == match send_completion {
                Some(c) => old(self).marks().push((old(self).queued().len() as int, c)),
                None => old(self).marks(),
            },
            final(self).starts() == match send_completion {
                Some(_) => old(self).starts().push(old(self).queued().len() - queued_size),
                None => old(self).starts(),
            },
    {
        if let Some(callback) = send_completion {
            let prev_id = self.last_pending_id;
            let ghost n = self.order@.len();
            proof {
                if n > 0 {
                    assert(self.link_ok(0));
                    assert(self.link_ok(n - 1));
                    self.pending.lemma_key_valid(self.first_pending_id);
                }
            }
            let startpos: usize = self.bytes_sent + self.buf.len() - queued_size;
            self.last_pending_id =
            self.pending.add(
                PendingSend {
                    next_id: NO_PENDING,
                    startpos,
                    msgsize: queued_size,
                    completion: callback,
                },
            );
            let last_id = self.last_pending_id;
            proof {
                if n == 0 && self.pending@.contains_key(prev_id) {
                    self.pending.lemma_key_valid(prev_id);
                }
            }
            if let Some(prev) = self.pending.get_mut(prev_id) {
                prev.next_id = last_id;
            }
            if self.first_pending_id == NO_PENDING {
                self.first_pending_id = self.last_pending_id;
            }
            proof {
                self.order@ = self.order@.push(last_id);
                let order0 = old(self).order@;
                assert forall|i: int| 0 <= i < n implies self.order@[i] == order0[i]
                    && #[trigger] self.end(i) == old(self).end(i) && self.link_ok(i)
                    && self.pending@[order0[i]].completion
                    == old(self).pending@[order0[i]].completion
                    && self.pending@[order0[i]].startpos == old(self).pending@[order0[i]].startpos by {
                    assert(old(self).link_ok(i));
                    if i + 1 < n {
                        assert(order0[i] != order0[n - 1]);
                    }
                }
                assert(self.link_ok(n as int));
                assert(self.order@.no_duplicates()) by {
                    assert forall|i: int| 0 <= i < n implies #[trigger] order0[i] != last_id by {
                        assert(old(self).link_ok(i));
                    }
                }
                assert forall|i: int| 0 <= i < n + 1 implies #[trigger] self.link_ok(i) by {
                    if i < n {
                        assert(self.end(i) == old(self).end(i));
                    }
                }
                assert forall|i: int, j: int| 0 <= i <= j < n + 1 implies #[trigger] self.end(i)
                    <= #[trigger] self.end(j) by {
                    if j < n {
                        assert(self.end(i) == old(self).end(i));
                        assert(self.end(j) == old(self).end(j));
                    } else if i < n {
                        assert(old(self).link_ok(i));
                        assert(self.end(i) == old(self).end(i));
                    }
                }
                assert(self.marks() =~= old(self).marks().push(
                    (self.queued().len() as int, send_completion->0),
                )) by {
                    assert forall|i: int| 0 <= i < n implies #[trigger] self.marks()[i] == old(
                        self,
                    ).marks()[i] by {
                        assert(self.end(i) == old(self).end(i));
                    }
                }
                assert(self.starts() =~= old(self).starts().push(
                    self.queued().len() - queued_size,
                )) by {
                    assert forall|i: int| 0 <= i < n implies #[trigger] self.starts()[i] == old(
                        self,
                    ).starts()[i] by {
                        assert(self.end(i) == old(self).end(i));
                    }
                }
            }
        }
    }

    /// The bytes that wait to be written.
    pub fn queued_bytes(&self) -> (r: &[u8])
        ensures
            r@ == self.queued(),
    {
        self.buf.as_slice()
    }

    /// Number of completions that wait.
    pub fn count_pending(&self) -> (r: usize)
        requires
            self.wf(),
        ensures
            r == self.marks().len(),
    {
        self.pending.len()
    }

    /// The bytes written since the queue was empty last.
    pub fn count_sent(&self) -> (r: usize)
        ensures
            r == self.bytes_sent(),
    {
        self.bytes_sent
    }

    pub fn is_closing(&self) -> (r: bool)
        ensures
            r == self.closing(),
    {
        self.close_or_error
    }

    /// Whether `queue_msg` and the like may be called with `n` more bytes.
    pub fn has_room(&self, n: usize) -> (r: bool)
        requires
            self.wf(),
        ensures
            r == self.room(n as int),
            r == (self.bytes_sent() + self.queued().len() + n <= usize::MAX && self.marks().len()
                < usize::MAX),
    {
        n <= usize::MAX - self.bytes_sent - self.buf.len() && self.pending.len() < usize::MAX
    }

    /// Appends bytes to the queue.
    fn extend(&mut self, bytes: &[u8])
        requires
            old(self).wf(),
            old(self).room(bytes@.len() as int),
        ensures
            final(self).wf(),
            final(self).queued() == old(self).queued() + bytes@,
            final(self).marks() == old(self).marks(),
            final(self).starts() == old(self).starts(),
            final(self).closing() == old(self).closing(),
            final(self).bytes_sent() == old(self).bytes_sent(),
    {
        self.buf.extend_from_slice(bytes);
        proof {
            assert(self.buf@ =~= old(self).buf@ + bytes@);
            old(self).lemma_marks_sorted();
            lemma_same_pending(*old(self), *self, 0);
        }
    }

    /// Appends a message to the queue. Its completion waits for it.
    pub fn queue_msg(&mut self, buf: &[u8], send_completion: C)
        requires
            old(self).wf(),
            old(self).room(buf@.len() as int),
        ensures
            final(self).wf(),
            final(self).queued() == old(self).queued() + buf@,
            final(self).marks() == old(self).marks().push(
                ((old(self).queued() + buf@).len() as int, send_completion),
            ),
            final(self).starts() == old(self).starts().push(old(self).queued().len() as int),
            final(self).bytes_sent() == old(self).bytes_sent(),
            final(self).closing() == old(self).closing(),
    {
        self.extend(buf);
        self.queue_msg_completion(buf.len(), Some(send_completion));
    }

    /// Takes the completions out whose messages end within the next `sent` queued bytes.
    fn pop_completed(&mut self, sent: usize) -> (done: Vec<C>)
        requires
            old(self).wf(),
            sent <= old(self).queued().len(),
        ensures
            final(self).wf(),
            final(self).queued() == old(self).queued(),
            final(self).closing() == old(self).closing(),
            final(self).bytes_sent() == old(self).bytes_sent(),
            done@ == fired(old(self).marks(), sent as int),
            final(self).marks() == old(self).marks().skip(
                fired_count(old(self).marks(), sent as int) as int,
            ),
            final(self).starts() == old(self).starts().skip(
                fired_count(old(self).marks(), sent as int) as int,
            ),
    {
        let total: usize = self.bytes_sent + sent;
        let mut done: Vec<C> = Vec::new();
        let ghost marks0 = self.marks();
        let ghost starts0 = self.starts();
        let ghost mut k: int = 0;
        proof {
            assert(marks0.skip(0) =~= marks0);
            assert(starts0.skip(0) =~= starts0);
            self.lemma_first();
        }
        while self.first_pending_id != NO_PENDING
            invariant_except_break
                0 <= k <= marks0.len(),
                self.marks() == marks0.skip(k),
                self.starts() == starts0.skip(k),
                fired_count(marks0, sent as int) == k + fired_count(marks0.skip(k), sent as int),
            invariant
                self.wf(),
                self.first_pending_id == NO_PENDING ==> self.marks().len() == 0,
                self.bytes_sent == old(self).bytes_sent,
                self.buf == old(self).buf,
                self.close_or_error == old(self).close_or_error,
                total == self.bytes_sent + sent,
                sent <= self.buf@.len(),
                marks0 == old(self).marks(),
                starts0 == old(self).starts(),
                starts0.len() == marks0.len(),
                done@ == marks0.take(k).map_values(|m: (int, C)| m.1),
            ensures
                k == fired_count(marks0, sent as int),
                self.marks() == marks0.skip(k),
                self.starts() == starts0.skip(k),
            decreases self.order@.len(),
        {
            let id = self.first_pending_id;
            let ghost before = *self;
            proof {
                assert(self.link_ok(0));
                assert(self.marks()[0].0 == self.end(0) - self.bytes_sent);
            }
            let (reached, next_id) = match self.pending.get(id) {
                Some(p) => (p.startpos + p.msgsize <= total, p.next_id),
                None => (false, NO_PENDING),
            };
            if !reached {
                break;
            }
            if let Some(p) = self.pending.take(id) {
                done.push(p.completion);
            }
            self.first_pending_id = next_id;
            if next_id == NO_PENDING {
                self.last_pending_id = NO_PENDING;
            }
            proof {
                self.order@ = self.order@.drop_first();
                lemma_popped(before, *self);
                self.lemma_first();
                assert(marks0.skip(k).drop_first() =~= marks0.skip(k + 1));
                assert(starts0.skip(k).drop_first() =~= starts0.skip(k + 1));
                k = k + 1;
            }
        }
        done
    }

    /// Drops the first `sentbytes` bytes of the queue, which have been written.
    pub fn move_buf_front_after_send(&mut self, sentbytes: usize) -> (r: SendOrQueResult)
        requires
            old(self).wf(),
            sentbytes <= old(self).queued().len(),
            sentbytes == old(self).queued().len() ==> old(self).marks().len() == 0,
        ensures
            final(self).wf(),
            final(self).queued() == old(self).queued().skip(sentbytes as int),
            final(self).marks() == shifted(old(self).marks(), sentbytes as int),
            final(self).starts() == begun(old(self).starts(), sentbytes as int),
            final(self).closing() == old(self).closing(),
            final(self).bytes_sent() == if sentbytes == old(self).queued().len() {
                0
            } else {
                old(self).bytes_sent() + sentbytes
            },
            r == queue_result(final(self).queued()),
    {
        let len = self.buf.len();
        copy_to_front(&mut self.buf, sentbytes, len);
        self.buf.truncate(len - sentbytes);
        proof {
            assert(self.buf@ =~= old(self).buf@.skip(sentbytes as int));
        }
        let r = if self.buf.is_empty() {
            self.bytes_sent = 0;
            SendOrQueResult::Complete
        } else {
            self.bytes_sent = self.bytes_sent + sentbytes;
            SendOrQueResult::InQueue
        };
        proof {
            old(self).lemma_marks_sorted();
            lemma_same_pending(*old(self), *self, sentbytes as int);
        }
        r
    }

    /// `sent` bytes of the queue have been written: drops them, and hands back the completions of
    /// the messages that are out.
    fn advance(&mut self, sent: usize) -> (r: (SendOrQueResult, Vec<C>))
        requires
            old(self).wf(),
            sent <= old(self).queued().len(),
        ensures
            final(self).wf(),
            final(self).queued() == old(self).queued().skip(sent as int),
            final(self).marks() == waiting(old(self).marks(), sent as int),
            final(self).starts() == waiting_starts(
                old(self).starts(),
                old(self).marks(),
                sent as int,
            ),
            final(self).closing() == old(self).closing(),
            final(self).bytes_sent() == if sent == old(self).queued().len() {
                0
            } else {
                old(self).bytes_sent() + sent
            },
            r.0 == queue_result(final(self).queued()),
            r.1@ == fired(old(self).marks(), sent as int),
    {
        proof {
            self.lemma_marks_sorted();
            lemma_fired_bounds(self.marks(), sent as int);
            let k = fired_count(self.marks(), sent as int);
            if sent == self.queued().len() && k < self.marks().len() {
                assert(self.marks()[k as int].0 <= self.queued().len());
            }
        }
        let done = self.pop_completed(sent);
        let res = self.move_buf_front_after_send(sent);
        (res, done)
    }

    /// Takes the outcome of writing the queue to the socket, when the socket is writable again.
    /// Returns the completions of the messages that are out with it.
    pub fn send_queued(&mut self, written: Result<usize, IoErrorKind>) -> (r: (
        Result<SendOrQueResult, SendError>,
        Vec<C>,
    ))
        requires
            old(self).wf(),
            written matches Ok(n) ==> n <= old(self).queued().len(),
        ensures
            final(self).wf(),
            queue_written(
                old(self).queued(),
                old(self).marks(),
                old(self).closing(),
                written,
            ) == (final(self).queued(), final(self).marks(), final(self).closing(), r.0, r.1@),
            final(self).starts() == starts_written(
                old(self).starts(),
                old(self).queued(),
                old(self).marks(),
                written,
            ),
            final(self).bytes_sent() == sent_after(
                old(self).bytes_sent(),
                old(self).queued(),
                written,
            ),
    {
        if self.buf.is_empty() {
            return (Ok(SendOrQueResult::Complete), Vec::new());
        }
        match written {
            Ok(n) => {
                if n == 0 {
                    self.close_with_error();
                    return (Err(SendError::ZeroBytes), Vec::new());
                }
                let (res, done) = self.advance(n);
                (Ok(res), done)
            },
            Err(kind) => match kind {
                IoErrorKind::WouldBlock => (Ok(SendOrQueResult::InQueue), Vec::new()),
                IoErrorKind::Interrupted => (Ok(SendOrQueResult::InQueue), Vec::new()),
                _ => {
                    self.close_with_error();
                    (Err(send_error(kind)), Vec::new())
                },
            },
        }
    }

    /// Marks the socket as one to be closed.
    fn close_with_error(&mut self)
        requires
            old(self).wf(),
        ensures
            final(self).wf(),
            final(self).queued() == old(self).queued(),
            final(self).marks() == old(self).marks(),
            final(self).starts() == old(self).starts(),
            final(self).closing(),
            final(self).bytes_sent() == old(self).bytes_sent(),
    {
        self.close_or_error = true;
        proof {
            old(self).lemma_marks_sorted();
            lemma_same_pending(*old(self), *self, 0);
        }
    }

    /// Whether `send_or_que` of this message has to write to the socket first: it has bytes, and
    /// no earlier message waits.
    pub open spec fn spec_must_write(&self, msg: Seq<u8>) -> bool {
        msg.len() > 0 && self.queued().len() == 0
    }

    pub fn must_write(&self, msg: &[u8]) -> (r: bool)
        ensures
            r == self.spec_must_write(msg@),
            r == (msg@.len() > 0 && self.queued().len() == 0),
    {
        msg.len() > 0 && self.buf.is_empty()
    }

    /// Sends the message, or queues what the socket did not take. `sent` is the outcome of
    /// `try_send_all`; it counts only if `must_write` said so before. Returns the completion if it
    /// is due at once. After an error the socket is to be closed and the completion is gone.
    pub fn send_or_que(
        &mut self,
        msg: &[u8],
        send_completion: Option<C>,
        sent: Result<usize, IoErrorKind>,
    ) -> (r: (Result<SendOrQueResult, SendError>, Option<C>))
        requires
            old(self).wf(),
            old(self).room(msg@.len() as int),
            old(self).spec_must_write(msg@) ==> (sent matches Ok(n) ==> n <= msg@.len()),
        ensures
            final(self).wf(),
            msg_sent(
                old(self).queued(),
                old(self).marks(),
                old(self).closing(),
                msg@,
                send_completion,
                sent,
            ) == (final(self).queued(), final(self).marks(), final(self).closing(), r.0, r.1),
            final(self).starts() == starts_sent(
                old(self).starts(),
                old(self).queued(),
                msg@,
                send_completion,
                sent,
            ),
            final(self).bytes_sent() == old(self).bytes_sent(),
    {
        if msg.len() == 0 {
            let res = if self.buf.is_empty() {
                SendOrQueResult::Complete
            } else {
                SendOrQueResult::InQueue
            };
            return (Ok(res), send_completion);
        }
        if !self.buf.is_empty() {
            self.extend(msg);
            self.queue_msg_completion(msg.len(), send_completion);
            return (Ok(SendOrQueResult::InQueue), None);
        }
        match bytes_taken(sent) {
            Err(kind) => {
                self.close_with_error();
                (Err(send_error(kind)), None)
            },
            Ok(n) => {
                if n == msg.len() {
                    return (Ok(SendOrQueResult::Complete), send_completion);
                }
                let rest = vstd::slice::slice_subrange(msg, n, msg.len());
                self.extend(rest);
                self.queue_msg_completion(rest.len(), send_completion);
                proof {
                    assert(self.queued() =~= msg@.skip(n as int));
                }
                (Ok(SendOrQueResult::InQueue), None)
            },
        }
    }

    /// Sends the message with a single write, or queues what the socket did not take. `written` is
    /// the outcome of the write; it counts only if `must_write` said so before. A write that takes
    /// nothing is an error.
    pub fn send_once(&mut self, msg: &[u8], send_completion: C, written: Result<usize, IoErrorKind>) -> (r:
        (Result<SendOrQueResult, SendError>, Option<C>))
        requires
            old(self).wf(),
            old(self).room(msg@.len() as int),
            old(self).spec_must_write(msg@) ==> (written matches Ok(n) ==> n <= msg@.len()),
        ensures
            final(self).wf(),
            msg_sent_once(
                old(self).queued(),
                old(self).marks(),
                old(self).closing(),
                msg@,
                send_completion,
                written,
            ) == (final(self).queued(), final(self).marks(), final(self).closing(), r.0, r.1),
            final(self).starts() == (if r.0 is Err {
                old(self).starts()
            } else {
                starts_sent(
                    old(self).starts(),
                    old(self).queued(),
                    msg@,
                    Some(send_completion),
                    written,
                )
            }),
            final(self).bytes_sent() == old(self).bytes_sent(),
    {
        if let Ok(0) = written {
            if self.must_write(msg) {
                self.close_with_error();
                return (Err(SendError::ZeroBytes), None);
            }
        }
        self.send_or_que(msg, Some(send_completion), written)
    }

    /// The marks lie within the queue, in the order of their messages.
    pub proof fn lemma_marks_sorted(&self)
        requires
            self.wf(),
        ensures
            marks_sorted(self.marks()),
            self.starts().len() == self.marks().len(),
            forall|i: int|
                0 <= i < self.marks().len() ==> (#[trigger] self.marks()[i]).0
                    <= self.queued().len(),
    {
        assert forall|i: int| 0 <= i < self.marks().len() implies (#[trigger] self.marks()[i]).0
            <= self.queued().len() by {
            assert(self.link_ok(i));
        }
        assert forall|i: int, j: int| 0 <= i <= j < self.marks().len() implies (
        #[trigger] self.marks()[i]).0 <= (#[trigger] self.marks()[j]).0 by {
            assert(self.end(i) <= self.end(j));
        }
    }
}

/// What to do next while a message is being written to the socket.
#[derive(Debug, Clone, Copy, PartialEq, Eq, Structural)]
pub enum SendStep {
    /// Write the message from this offset on.
    Write(usize),
    /// Stop: so many bytes have been written.
    Done(usize),
    /// Stop: the socket failed.
    Failed(IoErrorKind),
}

/// One write of a message of `total` bytes of which `sent` are out: how many are out then, and what
/// to do next. That the socket would block, or the write was interrupted, is no error: the rest waits.
/// After a write that takes nothing the same bytes are written again.
pub open spec fn send_step(total: usize, sent: usize, written: Result<usize, IoErrorKind>) -> (
    usize,
    SendStep,
) {
    match written {
        Ok(n) => {
            let now = (sent + n) as usize;
            (
                now,
                if now < total {
                    SendStep::Write(now)
                } else {
                    SendStep::Done(now)
                },
            )
        },
        Err(IoErrorKind::WouldBlock) | Err(IoErrorKind::Interrupted) => (
            sent,
            SendStep::Done(sent),
        ),
        Err(kind) => (sent, SendStep::Failed(kind)),
    }
}

/// Sends a message until it is out, the socket takes no more for now or an error comes up.
pub struct SendProgress {
    total: usize,
    sent: usize,
}

impl SendProgress {
    pub closed spec fn total(&self) -> usize {
        self.total
    }

    pub closed spec fn sent(&self) -> usize {
        self.sent
    }

    /// Starts sending a message of `total` bytes.
    pub fn try_send_all(total: usize) -> (r: (Self, SendStep))
        ensures
            r.0.total() == total,
            r.0.sent() == 0,
            r.1 == if total == 0 {
                SendStep::Done(0)
            } else {
                SendStep::Write(0)
            },
            (r.0.sent(), r.1) == send_run(total, Seq::empty()),
    {
        let step = if total == 0 {
            SendStep::Done(0)
        } else {
            SendStep::Write(0)
        };
        (Self { total, sent: 0 }, step)
    }

    /// Takes the outcome of one write of the bytes that are not out yet.
    pub fn on_write(&mut self, written: Result<usize, IoErrorKind>) -> (r: SendStep)
        requires
            written matches Ok(n) ==> old(self).sent() + n <= old(self).total(),
        ensures
            final(self).total() == old(self).total(),
            (final(self).sent(), r) == send_step(old(self).total(), old(self).sent(), written),
    {
        match written {
            Ok(n) => {
                self.sent = self.sent + n;
                if self.sent < self.total {
                    SendStep::Write(self.sent)
                } else {
                    SendStep::Done(self.sent)
                }
            },
            Err(kind) => match kind {
                IoErrorKind::WouldBlock | IoErrorKind::Interrupted => SendStep::Done(self.sent),
                _ => SendStep::Failed(kind),
            },
        }
    }
}

/// Collects messages at the end of a sender's queue, to be sent as one.
pub struct AutoSendBuffer {
    old_buf_size: usize,
}

impl AutoSendBuffer {
    /// How many bytes of the queue are older than what is collected here.
    pub closed spec fn old_size(&self) -> nat {
        self.old_buf_size as nat
    }

    /// The bytes collected in `sender` since the buffer was acquired or sent last.
    pub open spec fn written<C>(&self, sender: MsgSender<C>) -> Seq<u8> {
        sender.queued().skip(self.old_size() as int)
    }

    /// This buffer belongs to `sender`: what it collected is at the end of the queue, and no
    /// completion waits for it.
    pub open spec fn wf<C>(&self, sender: MsgSender<C>) -> bool {
        &&& sender.wf()
        &&& self.old_size() <= sender.queued().len()
        &&& forall|i: int|
            0 <= i < sender.marks().len() ==> (#[trigger] sender.marks()[i]).0 <= self.old_size()
        &&& self.old_size() == 0 ==> sender.bytes_sent() == 0
    }

    /// Starts collecting at the end of the queue of `sender`.
    pub fn acquire_send<C>(sender: &MsgSender<C>) -> (r: Self)
        requires
            sender.wf(),
        ensures
            r.wf(*sender),
            r.old_size() == sender.queued().len(),
    {
        proof {
            sender.lemma_marks_sorted();
        }
        Self { old_buf_size: sender.buf.len() }
    }

    /// Drops what has been collected.
    pub fn clear<C>(&mut self, sender: &mut MsgSender<C>)
        requires
            old(self).wf(*old(sender)),
        ensures
            *final(self) == *old(self),
            final(self).wf(*final(sender)),
            final(sender).wf(),
            final(sender).starts() == old(sender).starts(),
            final(sender).bytes_sent() == old(sender).bytes_sent(),
            final(sender).queued() == old(sender).queued().take(old(self).old_size() as int),
            final(sender).marks() == old(sender).marks(),
            final(sender).closing() == old(sender).closing(),
    {
        sender.buf.truncate(self.old_buf_size);
        proof {
            lemma_same_pending(*old(sender), *sender, 0);
            assert(sender.queued() =~= old(sender).queued().take(self.old_size() as int));
        }
    }

    /// Number of bytes collected.
    pub fn count_written<C>(&self, sender: &MsgSender<C>) -> (r: usize)
        requires
            self.wf(*sender),
        ensures
            r == self.written(*sender).len(),
    {
        sender.buf.len() - self.old_buf_size
    }

    /// The bytes collected.
    pub fn get_written<'a, C>(&self, sender: &'a MsgSender<C>) -> (r: &'a [u8])
        requires
            self.wf(*sender),
        ensures
            r@ == self.written(*sender),
    {
        let bytes = sender.buf.as_slice();
        let r = vstd::slice::slice_subrange(bytes, self.old_buf_size, bytes.len());
        assert(r@ =~= self.written(*sender));
        r
    }

    /// Collects more bytes. Returns how many.
    pub fn write<C>(&mut self, sender: &mut MsgSender<C>, buf: &[u8]) -> (r: usize)
        requires
            old(self).wf(*old(sender)),
            old(sender).room(buf@.len() as int),
        ensures
            *final(self) == *old(self),
            final(self).wf(*final(sender)),
            final(sender).wf(),
            final(sender).starts() == old(sender).starts(),
            final(sender).bytes_sent() == old(sender).bytes_sent(),
            r == buf@.len(),
            final(sender).queued() == old(sender).queued() + buf@,
            final(sender).marks() == old(sender).marks(),
            final(sender).closing() == old(sender).closing(),
    {
        sender.extend(buf);
        buf.len()
    }

    /// Whether `send` has to write what was collected to the socket first.
    pub open spec fn spec_must_write<C>(&self, sender: MsgSender<C>) -> bool {
        self.old_size() == 0 && sender.queued().len() > 0
    }

    pub fn must_write<C>(&self, sender: &MsgSender<C>) -> (r: bool)
        requires
            self.wf(*sender),
        ensures
            r == self.spec_must_write(*sender),
            r == (self.old_size() == 0 && sender.queued().len() > 0),
    {
        self.old_buf_size == 0 && sender.buf.len() > 0
    }

    /// Sends what has been collected, or queues what the socket did not take. `sent` is the outcome
    /// of `try_send_all`; it counts only if `must_write` said so before. Returns the completions
    /// that are due at once. After an error what was collected stays in the queue, and the socket is
    /// to be closed.
    pub fn send<C>(
        &mut self,
        sender: &mut MsgSender<C>,
        send_completion: Option<C>,
        sent: Result<usize, IoErrorKind>,
    ) -> (r: (Result<SendOrQueResult, SendError>, Vec<C>))
        requires
            old(self).wf(*old(sender)),
            old(sender).room(0),
            old(self).spec_must_write(*old(sender)) ==> (sent matches Ok(n) ==> n <= old(
                sender,
            ).queued().len()),
        ensures
            final(self).wf(*final(sender)),
            final(sender).wf(),
            final(self).old_size() == final(sender).queued().len(),
            final(sender).starts() == buffer_starts(
                old(self).old_size(),
                old(sender).starts(),
                old(sender).queued(),
                old(sender).marks(),
                send_completion,
                sent,
            ),
            final(sender).bytes_sent() == if old(self).spec_must_write(*old(sender)) {
                sent_after(old(sender).bytes_sent(), old(sender).queued(), sent)
            } else {
                old(sender).bytes_sent()
            },
            buffer_sent(
                old(self).old_size(),
                old(sender).queued(),
                old(sender).marks(),
                old(sender).closing(),
                send_completion,
                sent,
            ) == (
                final(sender).queued(),
                final(sender).marks(),
                final(sender).closing(),
                r.0,
                r.1@,
            ),
    {
        let mut done: Vec<C> = Vec::new();
        let written: usize = sender.buf.len() - self.old_buf_size;
        if written == 0 {
            if let Some(c) = send_completion {
                done.push(c);
            }
            assert(done@ =~= due(send_completion));
            let res = if sender.buf.is_empty() {
                SendOrQueResult::Complete
            } else {
                SendOrQueResult::InQueue
            };
            return (Ok(res), done);
        }
        if self.old_buf_size > 0 {
            sender.queue_msg_completion(written, send_completion);
            self.old_buf_size = sender.buf.len();
            proof {
                sender.lemma_marks_sorted();
            }
            return (Ok(SendOrQueResult::InQueue), done);
        }
        match bytes_taken(sent) {
            Err(kind) => {
                sender.close_with_error();
                self.old_buf_size = sender.buf.len();
                proof {
                    sender.lemma_marks_sorted();
                }
                (Err(send_error(kind)), done)
            },
            Ok(n) => {
                let ghost marks0 = sender.marks();
                proof {
                    sender.lemma_marks_sorted();
                    lemma_fired_bounds(marks0, n as int);
                    let k = fired_count(marks0, n as int);
                    if k < marks0.len() {
                        assert(marks0[k as int].0 <= 0);
                    }
                }
                if n > 0 {
                    let (_, fired) = sender.advance(n);
                    done = fired;
                }
                let res = if n == written {
                    if let Some(c) = send_completion {
                        done.push(c);
                    }
                    SendOrQueResult::Complete
                } else {
                    let rest = sender.buf.len();
                    sender.queue_msg_completion(rest, send_completion);
                    SendOrQueResult::InQueue
                };
                self.old_buf_size = sender.buf.len();
                proof {
                    sender.lemma_marks_sorted();
                }
                (Ok(res), done)
            },
        }
    }
}

/// The completion of a message that is out.
pub open spec fn due<C>(completion: Option<C>) -> Seq<C> {
    match completion {
        Some(c) => seq![c],
        None => Seq::empty(),
    }
}

/// What sending collected bytes comes to, of which `old_size` bytes of the queue are older: the
/// queue, the waiting completions and whether the socket is to be closed afterwards, the result, and
/// the completions that are handed back.
pub open spec fn buffer_sent<C>(
    old_size: nat,
    queued: Seq<u8>,
    marks: Seq<(int, C)>,
    closing: bool,
    completion: Option<C>,
    sent: Result<usize, IoErrorKind>,
) -> (Seq<u8>, Seq<(int, C)>, bool, Result<SendOrQueResult, SendError>, Seq<C>) {
    let nothing = Seq::<C>::empty();
    if queued.len() == old_size {
        (queued, marks, closing, Ok(queue_result(queued)), due(completion))
    } else if old_size > 0 {
        (
            queued,
            mark_end(marks, queued.len() as int, completion),
            closing,
            Ok(queue_result(queued)),
            nothing,
        )
    } else {
        match taken(sent) {
            Err(kind) => (queued, marks, true, Err(spec_send_error(kind)), nothing),
            Ok(n) => {
                let rest = queued.skip(n as int);
                let (left, done) = if n == 0 {
                    (marks, nothing)
                } else {
                    (waiting(marks, n as int), fired(marks, n as int))
                };
                if n == queued.len() {
                    (rest, left, closing, Ok(queue_result(rest)), done + due(completion))
                } else {
                    (
                        rest,
                        mark_end(left, rest.len() as int, completion),
                        closing,
                        Ok(queue_result(rest)),
                        done,
                    )
                }
            },
        }
    }
}

/// Where the waiting messages begin when collected bytes are sent.
pub open spec fn buffer_starts<C>(
    old_size: nat,
    starts: Seq<int>,
    queued: Seq<u8>,
    marks: Seq<(int, C)>,
    completion: Option<C>,
    sent: Result<usize, IoErrorKind>,
) -> Seq<int> {
    if queued.len() == old_size {
        starts
    } else if old_size > 0 {
        mark_start(starts, old_size as int, completion)
    } else {
        match taken(sent) {
            Err(_) => starts,
            Ok(n) => {
                let left = if n == 0 {
                    starts
                } else {
                    waiting_starts(starts, marks, n as int)
                };
                if n == queued.len() {
                    left
                } else {
                    mark_start(left, 0, completion)
                }
            },
        }
    }
}

pub open spec fn marks_sorted<C>(marks: Seq<(int, C)>) -> bool {
    forall|i: int, j: int|
        0 <= i <= j < marks.len() ==> (#[trigger] marks[i]).0 <= (#[trigger] marks[j]).0
}

/// Of sorted marks, exactly those up to `n` fire when `n` bytes are written.
pub proof fn lemma_fired_bounds<C>(marks: Seq<(int, C)>, n: int)
    requires
        marks_sorted(marks),
    ensures
        fired_count(marks, n) <= marks.len(),
        forall|i: int|
            0 <= i < marks.len() ==> ((#[trigger] marks[i]).0 <= n <==> i < fired_count(marks, n)),
    decreases marks.len(),
{
    if marks.len() > 0 && marks[0].0 <= n {
        let rest = marks.drop_first();
        assert forall|i: int, j: int| 0 <= i <= j < rest.len() implies (#[trigger] rest[i]).0 <= (
        #[trigger] rest[j]).0 by {
            assert(marks[i + 1].0 <= marks[j + 1].0);
        }
        lemma_fired_bounds(rest, n);
        assert forall|i: int| 0 <= i < marks.len() implies ((#[trigger] marks[i]).0 <= n <==> i
            < fired_count(marks, n)) by {
            if i > 0 {
                assert(rest[i - 1] == marks[i]);
            }
        }
    }
}

/// The completions of `marks`, in order.
pub open spec fn completions<C>(marks: Seq<(int, C)>) -> Seq<C> {
    marks.map_values(|m: (int, C)| m.1)
}

/// The bytes of a message that go straight to the socket when it is sent.
pub open spec fn straight_out(
    queued: Seq<u8>,
    msg: Seq<u8>,
    sent: Result<usize, IoErrorKind>,
) -> Seq<u8> {
    match sent {
        Ok(n) if queued.len() == 0 && msg.len() > 0 => msg.take(n as int),
        _ => Seq::empty(),
    }
}

/// Where sending does not fail, its result is `Complete` exactly when no byte is in the queue.
pub proof fn law_result_tells_queue<C>(
    queued: Seq<u8>,
    marks: Seq<(int, C)>,
    closing: bool,
    msg: Seq<u8>,
    completion: Option<C>,
    once: C,
    sent: Result<usize, IoErrorKind>,
    old_size: nat,
)
    ensures
        ({
            let (queue, _, _, res, _) = queue_written(queued, marks, closing, sent);
            res matches Ok(r) ==> (r == SendOrQueResult::Complete <==> queue.len() == 0)
        }),
        ({
            let (queue, _, _, res, _) = msg_sent(queued, marks, closing, msg, completion, sent);
            res matches Ok(r) ==> (r == SendOrQueResult::Complete <==> queue.len() == 0)
        }),
        ({
            let (queue, _, _, res, _) = msg_sent_once(queued, marks, closing, msg, once, sent);
            res matches Ok(r) ==> (r == SendOrQueResult::Complete <==> queue.len() == 0)
        }),
        ({
            let (queue, _, _, res, _) = buffer_sent(
                old_size,
                queued,
                marks,
                closing,
                completion,
                sent,
            );
            res matches Ok(r) ==> (r == SendOrQueResult::Complete <==> queue.len() == 0)
        }),
{
}

/// Sending loses, repeats and reorders no byte: what goes straight out, followed by the new queue,
/// is the old queue followed by the message.
pub proof fn law_send_keeps_stream<C>(
    queued: Seq<u8>,
    marks: Seq<(int, C)>,
    closing: bool,
    msg: Seq<u8>,
    completion: Option<C>,
    sent: Result<usize, IoErrorKind>,
)
    requires
        queued.len() == 0 && msg.len() > 0 ==> (sent matches Ok(n) ==> n <= msg.len()),
    ensures
        ({
            let (queue, _, _, res, _) = msg_sent(queued, marks, closing, msg, completion, sent);
            res is Ok ==> straight_out(queued, msg, sent) + queue == queued + msg
        }),
{
    let (queue, _, _, res, _) = msg_sent(queued, marks, closing, msg, completion, sent);
    if res is Ok {
        assert(straight_out(queued, msg, sent) + queue =~= queued + msg);
    }
}

/// Bytes that are collected behind a queue are sent as one message is: with the same result, and
/// where that is no error, with the same queue, the same completions that wait and the same that are
/// handed back. Where it is one, the bytes stay in the queue. An empty queue is one that no completion
/// waits in.
pub proof fn law_buffer_sends_message<C>(
    queued: Seq<u8>,
    marks: Seq<(int, C)>,
    closing: bool,
    bytes: Seq<u8>,
    completion: Option<C>,
    sent: Result<usize, IoErrorKind>,
)
    requires
        queued.len() == 0 ==> marks.len() == 0,
        queued.len() == 0 && bytes.len() > 0 ==> (sent matches Ok(n) ==> n <= bytes.len()),
    ensures
        ({
            let (queue, left, close, res, done) = buffer_sent(
                queued.len(),
                queued + bytes,
                marks,
                closing,
                completion,
                sent,
            );
            let (msg_queue, msg_left, msg_close, msg_res, handed) = msg_sent(
                queued,
                marks,
                closing,
                bytes,
                completion,
                sent,
            );
            &&& res == msg_res
            &&& close == msg_close
            &&& res is Ok ==> queue == msg_queue && left == msg_left && done == due(handed)
            &&& res is Err ==> queue == queued + bytes && left == marks && done.len() == 0
        }),
{
    if queued.len() == 0 {
        assert(queued + bytes =~= bytes);
        if let Ok(n) = taken(sent) {
            assert(waiting(marks, n as int) =~= marks);
            assert(fired(marks, n as int) =~= Seq::<C>::empty());
            assert(Seq::<C>::empty() + due(completion) =~= due(completion));
            if n == bytes.len() {
                assert(bytes.skip(n as int) =~= queued);
            }
        }
    }
    if bytes.len() == 0 {
        assert(queued + bytes =~= queued);
    }
}

/// Writing the queue loses, repeats and reorders no byte: what was written, followed by the new
/// queue, is the old queue.
pub proof fn law_queue_keeps_stream<C>(
    queued: Seq<u8>,
    marks: Seq<(int, C)>,
    closing: bool,
    n: usize,
)
    requires
        n <= queued.len(),
    ensures
        queued.take(n as int) + queue_written(queued, marks, closing, Ok(n)).0 == queued,
{
    assert(queued.take(n as int) + queued.skip(n as int) =~= queued);
}

/// A completion is handed back once and in the order of the messages: those handed back now,
/// followed by those that wait on, are those that waited before.
pub proof fn law_completions_kept<C>(marks: Seq<(int, C)>, n: int)
    requires
        marks_sorted(marks),
    ensures
        fired(marks, n) + completions(waiting(marks, n)) == completions(marks),
{
    lemma_fired_bounds(marks, n);
    assert(fired(marks, n) + completions(waiting(marks, n)) =~= completions(marks));
}

/// No completion waits once the whole queue is out.
pub proof fn law_drained_queue_waits_for_none<C>(sender: MsgSender<C>)
    requires
        sender.wf(),
    ensures
        waiting(sender.marks(), sender.queued().len() as int).len() == 0,
        fired(sender.marks(), sender.queued().len() as int) == completions(sender.marks()),
{
    let n = sender.queued().len() as int;
    let marks = sender.marks();
    sender.lemma_marks_sorted();
    lemma_fired_bounds(marks, n);
    if fired_count(marks, n) < marks.len() {
        assert(marks[fired_count(marks, n) as int].0 <= n);
    }
    assert(fired(marks, n) =~= completions(marks));
}

/// Where the socket breaks off does not matter: writing `n` bytes and then `m` more hands back the
/// same completions, and leaves the same ones waiting, as writing `n + m` bytes at once.
pub proof fn law_writes_add_up<C>(marks: Seq<(int, C)>, n: int, m: int)
    requires
        marks_sorted(marks),
        0 <= m,
    ensures
        fired(marks, n) + fired(waiting(marks, n), m) == fired(marks, n + m),
        waiting(waiting(marks, n), m) == waiting(marks, n + m),
{
    let k = fired_count(marks, n) as int;
    let rest = waiting(marks, n);
    lemma_fired_bounds(marks, n);
    lemma_fired_bounds(marks, n + m);
    assert forall|i: int, j: int| 0 <= i <= j < rest.len() implies (#[trigger] rest[i]).0 <= (
    #[trigger] rest[j]).0 by {
        assert(marks[k + i].0 <= marks[k + j].0);
    }
    lemma_fired_bounds(rest, m);
    let a = fired_count(rest, m) as int;
    let b = fired_count(marks, n + m) as int;
    assert(k + a == b) by {
        if k > 0 {
            assert(marks[k - 1].0 <= n);
        }
        if k + a < b {
            assert(rest[a].0 == marks[k + a].0 - n);
        }
        if b < k + a {
            if b < k {
                assert(marks[b].0 <= n);
            } else {
                assert(rest[b - k].0 == marks[b].0 - n);
            }
        }
    }
    assert(fired(marks, n) + fired(rest, m) =~= fired(marks, n + m));
    assert(waiting(rest, m) =~= waiting(marks, n + m));
}

/// The bytes that a run of writes accepted.
pub open spec fn accepted(outcomes: Seq<Result<usize, IoErrorKind>>) -> int
    decreases outcomes.len(),
{
    if outcomes.len() == 0 {
        0
    } else {
        accepted(outcomes.drop_last()) + match outcomes.last() {
            Ok(n) => n as int,
            Err(_) => 0,
        }
    }
}

/// A run of writes of one message: how many bytes are out, and what to do next.
pub open spec fn send_run(total: usize, outcomes: Seq<Result<usize, IoErrorKind>>) -> (usize, SendStep)
    decreases outcomes.len(),
{
    if outcomes.len() == 0 {
        (
            0,
            if total == 0 {
                SendStep::Done(0)
            } else {
                SendStep::Write(0)
            },
        )
    } else {
        let (sent, step) = send_run(total, outcomes.drop_last());
        match step {
            SendStep::Write(_) => send_step(total, sent, outcomes.last()),
            _ => (sent, step),
        }
    }
}

/// How many of the writes took nothing.
pub open spec fn empty_writes(outcomes: Seq<Result<usize, IoErrorKind>>) -> nat
    decreases outcomes.len(),
{
    if outcomes.len() == 0 {
        0
    } else {
        empty_writes(outcomes.drop_last()) + (if outcomes.last() == Ok::<usize, IoErrorKind>(0) {
            1nat
        } else {
            0nat
        })
    }
}

/// Each write is one that is asked for, and takes no more than it is given.
pub open spec fn writes_fit(total: usize, outcomes: Seq<Result<usize, IoErrorKind>>) -> bool
    decreases outcomes.len(),
{
    outcomes.len() == 0 || {
        let (sent, step) = send_run(total, outcomes.drop_last());
        &&& writes_fit(total, outcomes.drop_last())
        &&& step is Write
        &&& outcomes.last() matches Ok(n) ==> sent + n <= total
    }
}

/// However the writes of one message go, the count that comes out is the number of bytes that the
/// socket accepted, and it falls short of the message only if the last write would have blocked or was
/// interrupted. Sending fails exactly where the last write failed in another way. Besides writes that
/// take nothing, there are no more of them than the message has bytes.
pub proof fn law_try_send_all(total: usize, outcomes: Seq<Result<usize, IoErrorKind>>)
    requires
        writes_fit(total, outcomes),
    ensures
        send_run(total, outcomes).0 == accepted(outcomes),
        accepted(outcomes) <= total,
        outcomes.len() <= total + empty_writes(outcomes),
        match send_run(total, outcomes).1 {
            SendStep::Write(at) => at == accepted(outcomes) && at < total && outcomes.len() <= at
                + empty_writes(outcomes),
            SendStep::Done(n) => n == accepted(outcomes) && (n < total ==> outcomes.len() > 0 && (
            outcomes.last() == Err::<usize, IoErrorKind>(IoErrorKind::WouldBlock)
                || outcomes.last() == Err::<usize, IoErrorKind>(IoErrorKind::Interrupted))),
            SendStep::Failed(kind) => outcomes.len() > 0 && outcomes.last() == Err::<
                usize,
                IoErrorKind,
            >(kind) && kind != IoErrorKind::WouldBlock && kind != IoErrorKind::Interrupted,
        },
    decreases outcomes.len(),
{
    if outcomes.len() > 0 {
        law_try_send_all(total, outcomes.drop_last());
    }
}

/// What sending a message means: its completion is handed back only when no byte of it waits, and
/// otherwise waits for the last byte of the queue. Bytes are queued behind those that wait already, or
/// where none does, without those that the socket took. Only a failed write is an error: one that would
/// block or is interrupted is none.
pub proof fn law_message_sent<C>(
    queued: Seq<u8>,
    marks: Seq<(int, C)>,
    closing: bool,
    msg: Seq<u8>,
    completion: Option<C>,
    sent: Result<usize, IoErrorKind>,
)
    requires
        queued.len() == 0 && msg.len() > 0 ==> (sent matches Ok(n) ==> n <= msg.len()),
    ensures
        ({
            let (queue, left, close, res, handed) = msg_sent(
                queued,
                marks,
                closing,
                msg,
                completion,
                sent,
            );
            let written = msg.len() > 0 && queued.len() == 0;
            &&& handed is Some ==> handed == completion && (msg.len() == 0 || queue.len() == 0)
            &&& handed is Some || completion is None || res is Err ==> left == marks
            &&& res is Ok && completion is Some && handed is None ==> {
                &&& queue.len() > 0
                &&& left.len() == marks.len() + 1
                &&& left.drop_last() == marks
                &&& left.last() == (queue.len() as int, completion->0)
            }
            &&& !written ==> res is Ok && queue == queued + msg
            &&& written ==> match sent {
                Ok(n) => res is Ok && queue == msg.skip(n as int),
                Err(IoErrorKind::WouldBlock) => res is Ok && queue == msg,
                Err(IoErrorKind::Interrupted) => res is Ok && queue == msg,
                Err(IoErrorKind::ConnectionReset) => res == Err::<SendOrQueResult, SendError>(
                    SendError::ConnectionReset,
                ),
                Err(kind) => res == Err::<SendOrQueResult, SendError>(SendError::Io(kind)),
            }
            &&& res is Ok ==> close == closing
            &&& res is Err ==> close && queue == queued && handed is None
        }),
{
    let (queue, left, close, res, handed) = msg_sent(
        queued,
        marks,
        closing,
        msg,
        completion,
        sent,
    );
    if msg.len() == 0 {
        assert(queue =~= queued + msg);
    } else if queued.len() == 0 {
        if let Ok(n) = taken(sent) {
            assert(queue =~= msg.skip(n as int));
            assert(msg.skip(0) =~= msg);
        }
    }
    if res is Ok && completion is Some && handed is None {
        assert(left.drop_last() =~= marks);
    }
}

/// A single write sends like several, but that one which takes nothing is an error.
pub proof fn law_single_write<C>(
    queued: Seq<u8>,
    marks: Seq<(int, C)>,
    closing: bool,
    msg: Seq<u8>,
    completion: C,
    written: Result<usize, IoErrorKind>,
)
    ensures
        ({
            let once = msg_sent_once(queued, marks, closing, msg, completion, written);
            if msg.len() > 0 && queued.len() == 0 && written == Ok::<usize, IoErrorKind>(0) {
                once == (
                    queued,
                    marks,
                    true,
                    Err::<SendOrQueResult, SendError>(SendError::ZeroBytes),
                    None::<C>,
                )
            } else {
                once == msg_sent(queued, marks, closing, msg, Some(completion), written)
            }
        }),
{
}

/// What writing the queue means: the bytes that the socket took leave its front. The completions that
/// are handed back are those whose messages end among them, all of them and no others, in order; the
/// others wait for as many bytes fewer. A write that takes nothing is an error, and so is one that
/// fails; one that would block or is interrupted changes nothing.
pub proof fn law_queue_written<C>(
    queued: Seq<u8>,
    marks: Seq<(int, C)>,
    closing: bool,
    written: Result<usize, IoErrorKind>,
)
    requires
        marks_sorted(marks),
        written matches Ok(n) ==> n <= queued.len(),
    ensures
        ({
            let (queue, left, close, res, done) = queue_written(queued, marks, closing, written);
            let taken_in = queued.len() > 0 && written is Ok && written != Ok::<
                usize,
                IoErrorKind,
            >(0);
            &&& taken_in ==> {
                let n = written->Ok_0 as int;
                &&& queue == queued.skip(n)
                &&& done.len() + left.len() == marks.len()
                &&& forall|i: int|
                    #![trigger marks[i]]
                    0 <= i < marks.len() ==> if marks[i].0 <= n {
                        i < done.len() && done[i] == marks[i].1
                    } else {
                        i >= done.len() && left[i - done.len()] == (marks[i].0 - n, marks[i].1)
                    }
                &&& res is Ok
            }
            &&& !taken_in ==> queue == queued && left == marks && done.len() == 0
            &&& queued.len() == 0 ==> res is Ok
            &&& queued.len() > 0 ==> match written {
                Ok(n) => n == 0 ==> res == Err::<SendOrQueResult, SendError>(SendError::ZeroBytes),
                Err(IoErrorKind::WouldBlock) => res is Ok,
                Err(IoErrorKind::Interrupted) => res is Ok,
                Err(IoErrorKind::ConnectionReset) => res == Err::<SendOrQueResult, SendError>(
                    SendError::ConnectionReset,
                ),
                Err(kind) => res == Err::<SendOrQueResult, SendError>(SendError::Io(kind)),
            }
            &&& close == (closing || res is Err)
        }),
{
    if let Ok(n) = written {
        lemma_fired_bounds(marks, n as int);
    }
}

/// The counter of written bytes grows by what is written, and starts again when the queue is empty.
pub proof fn law_bytes_counted(before: nat, queued: Seq<u8>, written: Result<usize, IoErrorKind>)
    requires
        written matches Ok(n) ==> n <= queued.len(),
    ensures
        written is Err || queued.len() == 0 ==> sent_after(before, queued, written) == before,
        queued.len() > 0 && (written matches Ok(n) && n < queued.len()) ==> sent_after(
            before,
            queued,
            written,
        ) == before + written->Ok_0,
        queued.len() > 0 && (written matches Ok(n) && n == queued.len()) ==> sent_after(
            before,
            queued,
            written,
        ) == 0,
{
}

/// A message whose completion waits begins in the queue as far before its end as it has bytes there,
/// and those before it stay where they are.
pub proof fn law_messages_begin<C>(
    starts: Seq<int>,
    queued: Seq<u8>,
    marks: Seq<(int, C)>,
    closing: bool,
    msg: Seq<u8>,
    completion: Option<C>,
    sent: Result<usize, IoErrorKind>,
)
    requires
        queued.len() == 0 && msg.len() > 0 ==> (sent matches Ok(n) ==> n <= msg.len()),
        starts.len() == marks.len(),
    ensures
        ({
            let (queue, left, _, _, _) = msg_sent(queued, marks, closing, msg, completion, sent);
            let begin = starts_sent(starts, queued, msg, completion, sent);
            &&& begin.len() == left.len()
            &&& forall|i: int| 0 <= i < starts.len() ==> #[trigger] begin[i] == starts[i]
            &&& begin.len() > starts.len() ==> begin.last() == queued.len() && left.last().0
                == queue.len()
        }),
{
}

/// When bytes at the front of the queue are written, the messages behind them move up as far, and a
/// message of which a part is out begins at once.
pub proof fn law_messages_move_up<C>(
    starts: Seq<int>,
    queued: Seq<u8>,
    marks: Seq<(int, C)>,
    closing: bool,
    n: usize,
)
    requires
        marks_sorted(marks),
        starts.len() == marks.len(),
        0 < n <= queued.len(),
    ensures
        ({
            let (_, left, _, _, done) = queue_written(queued, marks, closing, Ok(n));
            let begin = starts_written(starts, queued, marks, Ok(n));
            &&& begin.len() == left.len()
            &&& forall|i: int|
                #![trigger begin[i]]
                0 <= i < begin.len() ==> {
                    let start = starts[done.len() + i];
                    begin[i] == (if start < n {
                        0
                    } else {
                        start - n
                    })
                }
        }),
{
    lemma_fired_bounds(marks, n as int);
}

/// Collected bytes begin where a message would.
pub proof fn law_buffer_begins<C>(
    starts: Seq<int>,
    queued: Seq<u8>,
    marks: Seq<(int, C)>,
    bytes: Seq<u8>,
    completion: Option<C>,
    sent: Result<usize, IoErrorKind>,
)
    requires
        queued.len() == 0 ==> marks.len() == 0 && starts.len() == 0,
        queued.len() == 0 && bytes.len() > 0 ==> (sent matches Ok(n) ==> n <= bytes.len()),
    ensures
        buffer_starts(queued.len(), starts, queued + bytes, marks, completion, sent)
            == starts_sent(starts, queued, bytes, completion, sent),
{
    if queued.len() == 0 && bytes.len() > 0 {
        assert(queued + bytes =~= bytes);
        if let Ok(n) = taken(sent) {
            assert(waiting_starts(starts, marks, n as int) =~= starts);
        }
    }
}

} // verus!
