//! Polled sockets whose reactors send and receive messages, without commands.

use crate::event_pass::{
    listener_action, read_or_end, stream_action, with_outcome, EventAction, EventPass,
};
use crate::flat_storage::KeyPool;
use crate::msg_reader::MsgReader;
use crate::msg_sender::{
    law_queue_written, queue_written, sent_after, starts_written, MsgSender,
};
use crate::sock_table::{stream_keys, SocketTable, TcpSocketHandler};
use crate::socket_io::{
    interest_in_step, interest_readable, spec_interest_in_step, Interest, IoErrorKind, SockEvent,
};
use crate::tcp_events::{invalid_socket_key, SocketKey};
use vstd::prelude::*;

verus! {

/// What is kept for a stream: `S` is its socket and reactor, `C` what is called when a message has
/// been sent.
pub struct Context<S, C> {
    pub sockkey: SocketKey,
    pub peer: S,
    pub sender: MsgSender<C>,
    pub reader: MsgReader,
    pub interested_writable: bool,
}

/// The stream knows its key, and its sender and reader are in order.
pub open spec fn context_ok<L, S, C>(key: usize, h: TcpSocketHandler<L, Context<S, C>>) -> bool {
    h matches TcpSocketHandler::StreamType(s) ==> s.sockkey.0 == key && s.sender.wf()
        && s.reader.wf()
}

/// A stream as it is added: nothing sent or received yet, and registered for reading alone.
pub open spec fn new_context<S, C>(data: Context<S, C>, key: SocketKey, peer: S) -> bool {
    &&& data.sockkey == key
    &&& data.peer == peer
    &&& data.sender.wf()
    &&& data.sender.queued() == Seq::<u8>::empty()
    &&& data.sender.marks() == Seq::<(int, C)>::empty()
    &&& data.sender.starts() == Seq::<int>::empty()
    &&& data.sender.bytes_sent() == 0
    &&& !data.sender.closing()
    &&& data.reader.wf()
    &&& data.reader.at_front()
    &&& data.reader.pending() == Seq::<u8>::empty()
    &&& data.reader.expected() == 0
    &&& data.reader.min_reserve() == 1024
    &&& !data.interested_writable
}

/// A stream is to be registered for writing while messages wait.
pub open spec fn wants_writable<S, C>(data: Context<S, C>) -> bool {
    data.sender.queued().len() > 0
}

/// The stream registered for what it is to be registered for.
pub open spec fn in_step_context<S, C>(data: Context<S, C>) -> Context<S, C> {
    Context { interested_writable: wants_writable(data), ..data }
}

/// What to register a stream for anew, if anything.
pub open spec fn interest_change<S, C>(data: Context<S, C>) -> Option<Interest> {
    spec_interest_in_step(data.sockkey.0, data.interested_writable, wants_writable(data))
}

/// How an event ends.
pub enum PollEnd<L, S, C> {
    /// The socket was taken out, to be closed.
    Closed(TcpSocketHandler<L, Context<S, C>>),
    /// The socket stays, and is registered anew if so given.
    Kept(Option<Interest>),
}

/// The sockets, and the one whose event is being handled.
pub struct ReactorMgr<L, S, C> {
    socket_handlers: SocketTable<L, Context<S, C>>,
    current_polling_sock: SocketKey,
}

impl<L, S, C> View for ReactorMgr<L, S, C> {
    type V = Map<usize, TcpSocketHandler<L, Context<S, C>>>;

    closed spec fn view(&self) -> Map<usize, TcpSocketHandler<L, Context<S, C>>> {
        self.socket_handlers@
    }
}

impl<L, S, C> ReactorMgr<L, S, C> {
    pub closed spec fn wf(&self) -> bool {
        &&& self.socket_handlers.wf()
        &&& forall|key: usize|
            self@.contains_key(key) ==> context_ok(key, #[trigger] self@[key])
    }

    /// How the keys are given out.
    pub closed spec fn keys(&self) -> KeyPool {
        self.socket_handlers.keys()
    }

    /// The key that the next socket gets.
    pub open spec fn next_key(&self) -> usize {
        self.keys().next()
    }

    /// The socket whose event is being handled, or the key of no socket.
    pub closed spec fn polling(&self) -> SocketKey {
        self.current_polling_sock
    }

    pub fn new() -> (r: Self)
        ensures
            r.wf(),
            r@ == Map::<usize, TcpSocketHandler<L, Context<S, C>>>::empty(),
            r.polling() == invalid_socket_key(),
            r.keys() == KeyPool::fresh(),
    {
        Self { socket_handlers: SocketTable::new(), current_polling_sock: invalid_socket_key() }
    }

    /// Number of all sockets.
    pub fn len(&self) -> (r: usize)
        requires
            self.wf(),
        ensures
            self@.dom().finite(),
            r == self@.dom().len(),
    {
        self.socket_handlers.len()
    }

    /// Number of the streams.
    pub fn count_streams(&self) -> (r: usize)
        requires
            self.wf(),
        ensures
            self@.dom().finite(),
            stream_keys(self@).finite(),
            r == stream_keys(self@).len(),
    {
        self.socket_handlers.count_streams()
    }

    /// Adds a stream. Returns its key, and what its socket is to be registered for.
    pub fn add_stream(&mut self, peer: S) -> (r: (SocketKey, Interest))
        requires
            old(self).wf(),
            old(self)@.dom().len() < usize::MAX,
        ensures
            final(self).wf(),
            final(self).polling() == old(self).polling(),
            r.0 == SocketKey(old(self).next_key()),
            final(self).keys() == old(self).keys().taken(),
            r.0 != invalid_socket_key(),
            r.1 == (Interest { key: r.0.0, readable: true, writable: false }),
            !old(self)@.contains_key(r.0.0),
            final(self)@[r.0.0] matches TcpSocketHandler::StreamType(data) && new_context(
                data,
                r.0,
                peer,
            ),
            final(self)@ == old(self)@.insert(r.0.0, final(self)@[r.0.0]),
    {
        let next = self.socket_handlers.get_next_key();
        let data = Context {
            sockkey: SocketKey(next),
            peer,
            sender: MsgSender::new(),
            reader: MsgReader::default(),
            interested_writable: false,
        };
        let key = self.socket_handlers.add_stream(data);
        (SocketKey(key), interest_readable(key))
    }

    /// Adds a listener. Returns its key, and what its socket is to be registered for.
    pub fn add_listener(&mut self, listener: L) -> (r: (SocketKey, Interest))
        requires
            old(self).wf(),
            old(self)@.dom().len() < usize::MAX,
        ensures
            final(self).wf(),
            final(self).polling() == old(self).polling(),
            r.0 == SocketKey(old(self).next_key()),
            final(self).keys() == old(self).keys().taken(),
            r.0 != invalid_socket_key(),
            r.1 == (Interest { key: r.0.0, readable: true, writable: false }),
            !old(self)@.contains_key(r.0.0),
            final(self)@ == old(self)@.insert(r.0.0, TcpSocketHandler::ListenerType(listener)),
    {
        let key = self.socket_handlers.add_listener(listener);
        (SocketKey(key), interest_readable(key))
    }

    /// Takes a socket out, to be closed. Nothing happens while the event of the socket is being
    /// handled, or where there is no such socket.
    pub fn close_by_key(&mut self, key: SocketKey) -> (r: Option<
        TcpSocketHandler<L, Context<S, C>>,
    >)
        requires
            old(self).wf(),
        ensures
            final(self).wf(),
            match r {
                Some(h) => {
                    &&& key != old(self).polling()
                    &&& old(self)@.contains_key(key.0)
                    &&& h == old(self)@[key.0]
                    &&& final(self)@ == old(self)@.remove(key.0)
                    &&& final(self).keys() == old(self).keys().freed(key.0)
                    &&& final(self).polling() == old(self).polling()
                },
                None => (key == old(self).polling() || !old(self)@.contains_key(key.0))
                    && *final(self) == *old(self),
            },
            closed_by_key(*old(self), key, r, *final(self)),
    {
        if self.current_polling_sock == key {
            return None;
        }
        self.socket_handlers.take(key.0)
    }

    /// The stream under the key.
    pub fn stream_mut(&mut self, key: SocketKey) -> (r: Option<&mut Context<S, C>>)
        requires
            old(self).wf(),
        ensures
            match r {
                Some(data) => {
                    &&& old(self)@.contains_key(key.0)
                    &&& old(self)@[key.0] == TcpSocketHandler::<L, Context<S, C>>::StreamType(
                        *data,
                    )
                    &&& final(self)@ == old(self)@.insert(
                        key.0,
                        TcpSocketHandler::StreamType(*final(data)),
                    )
                    &&& final(self).polling() == old(self).polling()
                    &&& final(self).keys() == old(self).keys()
                    &&& final(data).sockkey == key && final(data).sender.wf()
                        && final(data).reader.wf() ==> final(self).wf()
                },
                None => !stream_keys(old(self)@).contains(key.0) && *final(self) == *old(self),
            },
    {
        self.socket_handlers.get_stream_mut(key.0)
    }

    /// The listener under the key.
    pub fn listener_mut(&mut self, key: SocketKey) -> (r: Option<&mut L>)
        requires
            old(self).wf(),
        ensures
            match r {
                Some(l) => {
                    &&& old(self)@.contains_key(key.0)
                    &&& old(self)@[key.0] == TcpSocketHandler::<L, Context<S, C>>::ListenerType(*l)
                    &&& final(self)@ == old(self)@.insert(
                        key.0,
                        TcpSocketHandler::ListenerType(*final(l)),
                    )
                    &&& final(self).polling() == old(self).polling()
                    &&& final(self).keys() == old(self).keys()
                    &&& final(self).wf()
                },
                None => !(old(self)@.contains_key(key.0) && old(self)@[key.0] is ListenerType)
                    && *final(self) == *old(self),
            },
    {
        self.socket_handlers.get_listener_mut(key.0)
    }

    /// The reactor of a new connection has been told that it is connected, and says whether it
    /// accepts. Returns the key, or the key of no socket and the socket to close.
    pub fn start_connect(&mut self, key: SocketKey, accepted: bool) -> (r: (
        SocketKey,
        Option<TcpSocketHandler<L, Context<S, C>>>,
    ))
        requires
            old(self).wf(),
            old(self)@.contains_key(key.0),
            key != old(self).polling(),
        ensures
            final(self).wf(),
            final(self).polling() == old(self).polling(),
            if accepted {
                r == (key, None::<TcpSocketHandler<L, Context<S, C>>>) && *final(self)
                    == *old(self)
            } else {
                &&& r == (invalid_socket_key(), Some(old(self)@[key.0]))
                &&& final(self)@ == old(self)@.remove(key.0)
                &&& final(self).keys() == old(self).keys().freed(key.0)
            },
    {
        if accepted {
            (key, None)
        } else {
            (invalid_socket_key(), self.close_by_key(key))
        }
    }

    /// An event arrives: what is to be done first? Its socket is the one being handled until
    /// `end_event`.
    pub fn begin_event(&mut self, pass: &EventPass) -> (r: EventAction)
        requires
            old(self).wf(),
        ensures
            final(self).wf(),
            final(self).polling() == SocketKey(pass.ev.key),
            final(self).keys() == old(self).keys(),
            event_begun(*old(self), pass.ev, r, *final(self)),
            old(self)@.contains_key(pass.ev.key) && pass.ev.writable ==> (old(self)@[pass.ev.key]
                matches TcpSocketHandler::StreamType(data) ==> (data.sender.queued().len() > 0
                <==> r == EventAction::Send)),
    {
        let key = SocketKey(pass.ev.key);
        self.current_polling_sock = key;
        if let Some(TcpSocketHandler::ListenerType(_)) = self.socket_handlers.get(pass.ev.key) {
            return pass.start_listener();
        }
        match self.stream_mut(key) {
            Some(data) => {
                if pass.ev.writable {
                    data.interested_writable = true;
                }
                let waits = !data.sender.queued_bytes().is_empty();
                pass.start_stream(waits)
            },
            None => EventAction::Removed,
        }
    }

    /// The messages of a stream that wait have been written, with the given outcome. Returns what is
    /// next, and the completions of the messages that are out.
    pub fn send_queued(
        &mut self,
        pass: &mut EventPass,
        written: Result<usize, IoErrorKind>,
    ) -> (r: (EventAction, Vec<C>))
        requires
            old(self).wf(),
            old(self)@.contains_key(old(pass).ev.key),
            old(self)@[old(pass).ev.key] matches TcpSocketHandler::StreamType(data) && (
            written matches Ok(n) ==> n <= data.sender.queued().len()),
        ensures
            final(self).wf(),
            final(self).polling() == old(self).polling(),
            ({
                let key = old(pass).ev.key;
                let before = old(self)@[key]->StreamType_0;
                let after = final(self)@[key]->StreamType_0;
                let (queued, marks, closing, res, done) = queue_written(
                    before.sender.queued(),
                    before.sender.marks(),
                    before.sender.closing(),
                    written,
                );
                &&& final(self)@ == old(self)@.insert(key, TcpSocketHandler::StreamType(after))
                &&& final(self).keys() == old(self).keys()
                &&& after == (Context { sender: after.sender, ..before })
                &&& after.sender.queued() == queued
                &&& after.sender.marks() == marks
                &&& after.sender.closing() == closing
                &&& after.sender.starts() == starts_written(
                    before.sender.starts(),
                    before.sender.queued(),
                    before.sender.marks(),
                    written,
                )
                &&& after.sender.bytes_sent() == sent_after(
                    before.sender.bytes_sent(),
                    before.sender.queued(),
                    written,
                )
                &&& r.1@ == done
                &&& *final(pass) == (EventPass {
                    failed: old(pass).failed || res is Err,
                    ..*old(pass)
                })
            }),
            queue_resent(*old(self), *old(pass), written, r.1@, *final(self), *final(pass)),
            r.0 == read_or_end(old(pass).ev),
    {
        match self.stream_mut(SocketKey(pass.ev.key)) {
            Some(data) => {
                let (res, done) = data.sender.send_queued(written);
                (pass.on_sent(res.is_ok()), done)
            },
            None => (pass.on_sent(true), Vec::new()),
        }
    }

    /// An event has been handled, and no socket is being handled any more. A listener goes when it is
    /// writable or broken; a stream when it failed or is broken, and otherwise is registered for
    /// writing exactly while messages wait.
    pub fn end_event(&mut self, pass: &EventPass) -> (r: PollEnd<L, S, C>)
        requires
            old(self).wf(),
        ensures
            final(self).wf(),
            final(self).polling() == invalid_socket_key(),
            event_ended(*old(self), *pass, r, *final(self)),
            pass.ev.interrupt || pass.ev.err == Some(true) ==> !final(self)@.contains_key(
                pass.ev.key,
            ),
    {
        let key = SocketKey(pass.ev.key);
        self.current_polling_sock = invalid_socket_key();
        proof {
            assert forall|k: usize| self@.contains_key(k) implies context_ok(
                k,
                #[trigger] self@[k],
            ) by {
                assert(context_ok(k, old(self)@[k]));
            }
        }
        let mut remove = pass.ev.broken();
        if let Some(TcpSocketHandler::ListenerType(_)) = self.socket_handlers.get(pass.ev.key) {
            remove = remove || pass.ev.writable;
        } else if let Some(data) = self.stream_mut(key) {
            remove = remove || pass.failed || data.sender.is_closing();
            if !remove {
                return PollEnd::Kept(data.sync_interest());
            }
        }
        proof {
            assert(self@ =~= old(self)@);
            if self@.contains_key(pass.ev.key) {
                self.socket_handlers.lemma_key_valid(pass.ev.key);
            }
        }
        if remove {
            if let Some(h) = self.close_by_key(key) {
                return PollEnd::Closed(h);
            }
        }
        PollEnd::Kept(None)
    }
}

/// What closing a socket comes to: it is taken out, if it is there and not the one being handled.
pub open spec fn closed_by_key<L, S, C>(
    before: ReactorMgr<L, S, C>,
    key: SocketKey,
    r: Option<TcpSocketHandler<L, Context<S, C>>>,
    after: ReactorMgr<L, S, C>,
) -> bool {
    match r {
        Some(h) => {
            &&& key != before.polling()
            &&& before@.contains_key(key.0)
            &&& h == before@[key.0]
            &&& after@ == before@.remove(key.0)
        },
        None => (key == before.polling() || !before@.contains_key(key.0)) && after == before,
    }
}

/// How the handling of an event starts: what is to be done first, and a stream that is writable counts
/// as registered for writing.
pub open spec fn event_begun<L, S, C>(
    before: ReactorMgr<L, S, C>,
    ev: SockEvent,
    r: EventAction,
    after: ReactorMgr<L, S, C>,
) -> bool {
    if !before@.contains_key(ev.key) {
        r == EventAction::Removed && after@ == before@
    } else {
        match before@[ev.key] {
            TcpSocketHandler::ListenerType(_) => r == listener_action(ev) && after@ == before@,
            TcpSocketHandler::StreamType(data) => {
                &&& r == stream_action(ev, wants_writable(data))
                &&& after@ == before@.insert(
                    ev.key,
                    TcpSocketHandler::StreamType(
                        Context {
                            interested_writable: data.interested_writable || ev.writable,
                            ..data
                        },
                    ),
                )
            },
        }
    }
}

/// What writing the messages of a stream that wait comes to.
pub open spec fn queue_resent<L, S, C>(
    mgr: ReactorMgr<L, S, C>,
    pass: EventPass,
    written: Result<usize, IoErrorKind>,
    handed: Seq<C>,
    mgr_after: ReactorMgr<L, S, C>,
    pass_after: EventPass,
) -> bool {
    let key = pass.ev.key;
    let before = mgr@[key]->StreamType_0;
    let after = mgr_after@[key]->StreamType_0;
    let (queued, marks, closing, res, done) = queue_written(
        before.sender.queued(),
        before.sender.marks(),
        before.sender.closing(),
        written,
    );
    &&& mgr_after@ == mgr@.insert(key, TcpSocketHandler::StreamType(after))
    &&& mgr_after.keys() == mgr.keys()
    &&& after == (Context { sender: after.sender, ..before })
    &&& after.sender.queued() == queued
    &&& after.sender.marks() == marks
    &&& after.sender.closing() == closing
    &&& after.sender.starts() == starts_written(
        before.sender.starts(),
        before.sender.queued(),
        before.sender.marks(),
        written,
    )
    &&& after.sender.bytes_sent() == sent_after(
        before.sender.bytes_sent(),
        before.sender.queued(),
        written,
    )
    &&& handed == done
    &&& pass_after == with_outcome(pass, res is Ok)
}

/// How an event ends: a listener goes when it is writable or broken; a stream when it failed or is
/// broken, and otherwise is registered for writing exactly while messages wait.
pub open spec fn event_ended<L, S, C>(
    before: ReactorMgr<L, S, C>,
    pass: EventPass,
    r: PollEnd<L, S, C>,
    after: ReactorMgr<L, S, C>,
) -> bool {
    if !before@.contains_key(pass.ev.key) {
        &&& r == PollEnd::<L, S, C>::Kept(None)
        &&& after@ == before@
        &&& after.keys() == before.keys()
    } else {
        let h = before@[pass.ev.key];
        if pass.ev.spec_broken() || (match h {
            TcpSocketHandler::ListenerType(_) => pass.ev.writable,
            TcpSocketHandler::StreamType(data) => pass.failed || data.sender.closing(),
        }) {
            &&& r == PollEnd::Closed(h)
            &&& after@ == before@.remove(pass.ev.key)
            &&& after.keys() == before.keys().freed(pass.ev.key)
        } else {
            match h {
                TcpSocketHandler::ListenerType(_) => {
                    &&& r == PollEnd::<L, S, C>::Kept(None)
                    &&& after@ == before@
                    &&& after.keys() == before.keys()
                },
                TcpSocketHandler::StreamType(data) => {
                    &&& r == PollEnd::<L, S, C>::Kept(interest_change(data))
                    &&& after@ == before@.insert(
                        pass.ev.key,
                        TcpSocketHandler::StreamType(in_step_context(data)),
                    )
                    &&& after.keys() == before.keys()
                },
            }
        }
    }
}

impl<S, C> Context<S, C> {
    /// Adds or removes the interest in writing.
    fn sync_interest(&mut self) -> (r: Option<Interest>)
        ensures
            *final(self) == in_step_context(*old(self)),
            r == interest_change(*old(self)),
    {
        let waits = !self.sender.queued_bytes().is_empty();
        let change = interest_in_step(self.sockkey.0, self.interested_writable, waits);
        self.interested_writable = waits;
        change
    }
}

/// While the event of a socket is handled, the socket cannot be closed from within.
pub proof fn law_polled_socket_stays<L, S, C>(
    before: ReactorMgr<L, S, C>,
    key: SocketKey,
    closed: Option<TcpSocketHandler<L, Context<S, C>>>,
    after: ReactorMgr<L, S, C>,
)
    requires
        before@.contains_key(before.polling().0),
        match closed {
            Some(h) => key != before.polling() && after@ == before@.remove(key.0),
            None => after == before,
        },
    ensures
        after@.contains_key(before.polling().0),
        after@[before.polling().0] == before@[before.polling().0],
{
}

/// A new stream has sent and received nothing, and is not registered for writing.
pub proof fn law_new_context<S, C>(data: Context<S, C>, key: SocketKey, peer: S)
    requires
        new_context(data, key, peer),
    ensures
        data.sockkey == key,
        data.peer == peer,
        data.sender.queued().len() == 0,
        data.sender.marks().len() == 0,
        !data.sender.closing(),
        data.reader.pending().len() == 0,
        data.reader.expected() == 0,
        !data.interested_writable,
{
}

/// How an event starts: a stream whose queue holds at least one byte sends when it is writable. One
/// that has nothing to send, or is not writable, reads when it is readable. A listener that is readable
/// accepts. An event for a key under which there is no socket does nothing.
pub proof fn law_events_start<L, S, C>(
    before: ReactorMgr<L, S, C>,
    ev: SockEvent,
    r: EventAction,
    after: ReactorMgr<L, S, C>,
)
    requires
        event_begun(before, ev, r, after),
    ensures
        r == EventAction::Removed <==> !before@.contains_key(ev.key),
        before@.contains_key(ev.key) ==> match before@[ev.key] {
            TcpSocketHandler::StreamType(data) => {
                let sends = ev.writable && data.sender.queued().len() > 0;
                &&& r == EventAction::Send <==> sends
                &&& r == EventAction::Read <==> !sends && ev.readable
                &&& r == EventAction::EndStream <==> !sends && !ev.readable
                &&& after@[ev.key] matches TcpSocketHandler::StreamType(now)
                &&& now.sender == data.sender && now.reader == data.reader
                &&& now.interested_writable == (data.interested_writable || ev.writable)
            },
            TcpSocketHandler::ListenerType(_) => {
                &&& r == EventAction::Accept <==> ev.readable
                &&& r == EventAction::EndListener <==> !ev.readable
                &&& after@ == before@
            },
        },
        forall|key: usize|
            #![trigger after@[key]]
            key != ev.key && before@.contains_key(key) ==> after@.contains_key(key) && after@[key]
                == before@[key],
{
}

/// When an event has ended: a socket that hung up is gone, and so is one with an error, whatever else
/// the event says; a listener that is writable; and a stream that failed or is to be closed. Any other
/// stays, and a stream then is registered for writing exactly if its queue holds at least one byte.
/// All other sockets stay as they are.
pub proof fn law_events_end<L, S, C>(
    before: ReactorMgr<L, S, C>,
    pass: EventPass,
    r: PollEnd<L, S, C>,
    after: ReactorMgr<L, S, C>,
)
    requires
        event_ended(before, pass, r, after),
        before@.contains_key(pass.ev.key),
        before.wf(),
    ensures
        pass.ev.interrupt ==> !after@.contains_key(pass.ev.key),
        pass.ev.err == Some(true) ==> !after@.contains_key(pass.ev.key),
        !after@.contains_key(pass.ev.key) ==> r == PollEnd::Closed(before@[pass.ev.key]),
        match before@[pass.ev.key] {
            TcpSocketHandler::ListenerType(_) => !after@.contains_key(pass.ev.key) <==> (
            pass.ev.interrupt || pass.ev.err == Some(true) || pass.ev.writable),
            TcpSocketHandler::StreamType(data) => {
                &&& !after@.contains_key(pass.ev.key) <==> (pass.ev.interrupt || pass.ev.err
                    == Some(true) || pass.failed || data.sender.closing())
                &&& after@.contains_key(pass.ev.key) ==> {
                    &&& r matches PollEnd::Kept(interest)
                    &&& after@[pass.ev.key] matches TcpSocketHandler::StreamType(now)
                    &&& now.sender == data.sender && now.reader == data.reader
                    &&& now.interested_writable <==> data.sender.queued().len() > 0
                    &&& match interest {
                        Some(i) => i.key == pass.ev.key && i.readable && i.writable
                            == now.interested_writable && i.writable != data.interested_writable,
                        None => now.interested_writable == data.interested_writable,
                    }
                }
            },
        },
        forall|key: usize|
            #![trigger after@[key]]
            key != pass.ev.key && before@.contains_key(key) ==> after@.contains_key(key)
                && after@[key] == before@[key],
{
    assert(context_ok(pass.ev.key, before@[pass.ev.key]));
}

/// When a writable stream has resent its messages and its event has ended: the bytes that the socket
/// took have left the queue, and the others wait. A stream whose socket took nothing, or failed, is
/// gone; one that would block or was interrupted is not, unless something else failed.
pub proof fn law_resending<L, S, C>(
    before: ReactorMgr<L, S, C>,
    pass: EventPass,
    written: Result<usize, IoErrorKind>,
    handed: Seq<C>,
    between: ReactorMgr<L, S, C>,
    pass_after: EventPass,
    r: PollEnd<L, S, C>,
    after: ReactorMgr<L, S, C>,
    data: Context<S, C>,
)
    requires
        before.wf(),
        between.wf(),
        before@.contains_key(pass.ev.key),
        before@[pass.ev.key] == TcpSocketHandler::<L, Context<S, C>>::StreamType(data),
        data.sender.queued().len() > 0,
        written matches Ok(n) ==> n <= data.sender.queued().len(),
        queue_resent(before, pass, written, handed, between, pass_after),
        event_ended(between, pass_after, r, after),
    ensures
        ({
            let key = pass.ev.key;
            let queued = data.sender.queued();
            let blocked = written == Err::<usize, IoErrorKind>(IoErrorKind::WouldBlock) || written
                == Err::<usize, IoErrorKind>(IoErrorKind::Interrupted);
            &&& !blocked && !(written matches Ok(n) && n > 0) ==> !after@.contains_key(key)
            &&& after@.contains_key(key) ==> {
                &&& after@[key] matches TcpSocketHandler::StreamType(now)
                &&& blocked ==> now.sender.queued() == queued
                &&& written matches Ok(n) ==> now.sender.queued() == queued.skip(n as int)
                &&& now.interested_writable <==> now.sender.queued().len() > 0
            }
            &&& (blocked || (written matches Ok(n) && n > 0)) && !pass.failed
                && !data.sender.closing() && !pass.ev.interrupt && pass.ev.err != Some(true)
                ==> after@.contains_key(key)
        }),
{
    assert(context_ok(pass.ev.key, before@[pass.ev.key]));
    data.sender.lemma_marks_sorted();
    law_queue_written(
        data.sender.queued(),
        data.sender.marks(),
        data.sender.closing(),
        written,
    );
    law_events_end(between, pass_after, r, after);
}

/// Closing takes out the socket under the key, unless it is the one being handled: that stays, and so
/// do all others.
pub proof fn law_closing_by_key<L, S, C>(
    before: ReactorMgr<L, S, C>,
    key: SocketKey,
    closed: Option<TcpSocketHandler<L, Context<S, C>>>,
    after: ReactorMgr<L, S, C>,
    other: usize,
)
    requires
        closed_by_key(before, key, closed, after),
    ensures
        closed is Some <==> key != before.polling() && before@.contains_key(key.0),
        closed is Some ==> !after@.contains_key(key.0) && closed == Some(before@[key.0]),
        closed is None ==> after == before,
        before@.contains_key(other) && (other != key.0 || key == before.polling())
            ==> after@.contains_key(other) && after@[other] == before@[other],
{
}

} // verus!
