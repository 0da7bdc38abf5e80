//! The sockets of a runtime, each with its reactor, and what an event does to them.

use crate::event_pass::{
    listener_action, read_or_end, stream_action, with_outcome, EventAction, EventPass,
};
use crate::flat_storage::KeyPool;
use crate::msg_reader::MsgReader;
use crate::msg_sender::{
    law_queue_written, queue_written, sent_after, starts_written, MsgSender,
};
use crate::reactor_id::{
    id_key, invalid_reactor_id, key_id, keys_hold_ids, law_key_round_trip, ReactorID,
};
use crate::sock_table::{stream_keys, SocketTable, TcpSocketHandler};
use crate::socket_io::{
    interest_in_step, interest_readable, spec_interest_in_step, Interest, IoErrorKind, SockEvent,
};
use vstd::prelude::*;

verus! {

/// What is kept for a stream: `S` is its socket and reactor, `C` what is called when a message has
/// been sent.
pub struct SockData<S, C> {
    pub reactorid: ReactorID,
    pub peer: S,
    pub sender: MsgSender<C>,
    pub reader: MsgReader,
    pub interested_writable: bool,
}

/// What is kept for a listener: `L` is its socket and handler.
pub struct ListenerData<L> {
    pub reactorid: ReactorID,
    pub listener: L,
}

pub open spec fn handler_id<L, S, C>(
    h: TcpSocketHandler<ListenerData<L>, SockData<S, C>>,
) -> ReactorID {
    match h {
        TcpSocketHandler::ListenerType(l) => l.reactorid,
        TcpSocketHandler::StreamType(s) => s.reactorid,
    }
}

/// The socket is where its id says, and its sender and reader are in order.
pub open spec fn handler_ok<L, S, C>(
    slot: usize,
    h: TcpSocketHandler<ListenerData<L>, SockData<S, C>>,
) -> bool {
    &&& slot == handler_id(h).sockslot
    &&& slot < u32::MAX
    &&& h matches TcpSocketHandler::StreamType(s) ==> s.sender.wf() && s.reader.wf()
}

/// A stream as it is added: nothing sent or received yet, and registered for reading alone.
pub open spec fn new_stream<S, C>(
    data: SockData<S, C>,
    id: ReactorID,
    recv_buffer_min_size: usize,
    peer: S,
) -> bool {
    &&& data.reactorid == id
    &&& data.peer == peer
    &&& data.sender.wf()
    &&& data.sender.queued() == Seq::<u8>::empty()
    &&& data.sender.marks() == Seq::<(int, C)>::empty()
    &&& data.sender.starts() == Seq::<int>::empty()
    &&& data.sender.bytes_sent() == 0
    &&& !data.sender.closing()
    &&& data.reader.wf()
    &&& data.reader.at_front()
    &&& data.reader.pending() == Seq::<u8>::empty()
    &&& data.reader.expected() == 0
    &&& data.reader.min_reserve() == recv_buffer_min_size
    &&& data.reader.buffer_len() == recv_buffer_min_size
    &&& !data.interested_writable
}

/// The sockets of a runtime.
pub struct ReactorMgr<L, S, C> {
    socket_handlers: SocketTable<ListenerData<L>, SockData<S, C>>,
}

impl<L, S, C> View for ReactorMgr<L, S, C> {
    type V = Map<usize, TcpSocketHandler<ListenerData<L>, SockData<S, C>>>;

    closed spec fn view(&self) -> Map<
        usize,
        TcpSocketHandler<ListenerData<L>, SockData<S, C>>,
    > {
        self.socket_handlers@
    }
}

impl<L, S, C> ReactorMgr<L, S, C> {
    pub closed spec fn wf(&self) -> bool {
        &&& self.socket_handlers.wf()
        &&& forall|slot: usize|
            self@.contains_key(slot) ==> handler_ok(slot, #[trigger] self@[slot])
    }

    /// How the slots are given out.
    pub closed spec fn keys(&self) -> KeyPool {
        self.socket_handlers.keys()
    }

    /// The slot that the next socket gets.
    pub open spec fn next_slot(&self) -> usize {
        self.keys().next()
    }

    /// The id that the next socket gets: its slot, and the number of sockets with it.
    pub open spec fn next_id(&self) -> ReactorID {
        ReactorID { sockslot: self.next_slot() as u32, ver: (self@.dom().len() + 1) as u32 }
    }

    /// Slot and number of sockets have room in an id.
    pub open spec fn can_add(&self) -> bool {
        self.next_slot() < u32::MAX && self@.dom().len() < u32::MAX
    }

    /// The id is that of one of the sockets.
    pub open spec fn live(&self, id: ReactorID) -> bool {
        self@.contains_key(id.sockslot as usize) && handler_id(self@[id.sockslot as usize]) == id
    }

    pub fn new() -> (r: Self)
        ensures
            r.wf(),
            r@ == Map::<usize, TcpSocketHandler<ListenerData<L>, SockData<S, C>>>::empty(),
            r.keys() == KeyPool::fresh(),
    {
        Self { socket_handlers: SocketTable::new() }
    }

    /// Number of all sockets.
    pub fn len(&self) -> (r: usize)
        requires
            self.wf(),
        ensures
            self@.dom().finite(),
            r == self@.dom().len(),
    {
        self.socket_handlers.len()
    }

    /// Number of the streams.
    pub fn count_streams(&self) -> (r: usize)
        requires
            self.wf(),
        ensures
            self@.dom().finite(),
            stream_keys(self@).finite(),
            r == stream_keys(self@).len(),
    {
        self.socket_handlers.count_streams()
    }

    /// Whether another socket can be added.
    pub fn check_can_add(&self) -> (r: bool)
        requires
            self.wf(),
        ensures
            r == self.can_add(),
    {
        self.socket_handlers.get_next_key() < u32::MAX as usize && self.socket_handlers.len()
            < u32::MAX as usize
    }

    /// Adds a stream. Returns its id, and what its socket is to be registered for.
    pub fn add_stream(&mut self, recv_buffer_min_size: usize, peer: S) -> (r: (ReactorID, Interest))
        requires
            old(self).wf(),
            old(self).can_add(),
        ensures
            final(self).wf(),
            r.0 == old(self).next_id(),
            final(self).keys() == old(self).keys().taken(),
            !old(self)@.contains_key(r.0.sockslot as usize),
            final(self)@.contains_key(r.0.sockslot as usize),
            final(self)@[r.0.sockslot as usize] matches TcpSocketHandler::StreamType(data)
                && new_stream(data, r.0, recv_buffer_min_size, peer),
            final(self)@ == old(self)@.insert(
                r.0.sockslot as usize,
                final(self)@[r.0.sockslot as usize],
            ),
            r.1.readable && !r.1.writable,
            keys_hold_ids() ==> r.1.key == id_key(r.0),
            socket_added(*old(self), r.0, *final(self)),
    {
        let ver: u32 = self.socket_handlers.len() as u32 + 1;
        let slot: u32 = self.socket_handlers.get_next_key() as u32;
        let reactorid = ReactorID { sockslot: slot, ver };
        let data = SockData {
            reactorid,
            peer,
            sender: MsgSender::new(),
            reader: MsgReader::new(recv_buffer_min_size),
            interested_writable: false,
        };
        let _ = self.socket_handlers.add_stream(data);
        (reactorid, interest_readable(reactorid.to_usize()))
    }

    /// Adds a listener. Returns its id, and what its socket is to be registered for.
    pub fn add_listener(&mut self, listener: L) -> (r: (ReactorID, Interest))
        requires
            old(self).wf(),
            old(self).can_add(),
        ensures
            final(self).wf(),
            r.0 == old(self).next_id(),
            final(self).keys() == old(self).keys().taken(),
            !old(self)@.contains_key(r.0.sockslot as usize),
            final(self)@ == old(self)@.insert(
                r.0.sockslot as usize,
                TcpSocketHandler::ListenerType(ListenerData { reactorid: r.0, listener }),
            ),
            r.1.readable && !r.1.writable,
            keys_hold_ids() ==> r.1.key == id_key(r.0),
            socket_added(*old(self), r.0, *final(self)),
    {
        let ver: u32 = self.socket_handlers.len() as u32 + 1;
        let slot: u32 = self.socket_handlers.get_next_key() as u32;
        let reactorid = ReactorID { sockslot: slot, ver };
        let _ = self.socket_handlers.add_listener(ListenerData { reactorid, listener });
        (reactorid, interest_readable(reactorid.to_usize()))
    }

    /// The socket in the slot of the id.
    pub fn get_slot(&self, reactorid: ReactorID) -> (r: Option<
        &TcpSocketHandler<ListenerData<L>, SockData<S, C>>,
    >)
        requires
            self.wf(),
        ensures
            match r {
                Some(h) => self@.contains_key(reactorid.sockslot as usize) && *h
                    == self@[reactorid.sockslot as usize],
                None => !self@.contains_key(reactorid.sockslot as usize),
            },
    {
        self.socket_handlers.get(reactorid.sockslot as usize)
    }

    /// The socket with the id.
    pub fn get(&self, reactorid: ReactorID) -> (r: Option<
        &TcpSocketHandler<ListenerData<L>, SockData<S, C>>,
    >)
        requires
            self.wf(),
        ensures
            match r {
                Some(h) => self.live(reactorid) && *h == self@[reactorid.sockslot as usize],
                None => !self.live(reactorid),
            },
    {
        match self.get_slot(reactorid) {
            Some(h) => {
                let id = match h {
                    TcpSocketHandler::ListenerType(l) => l.reactorid,
                    TcpSocketHandler::StreamType(s) => s.reactorid,
                };
                if id == reactorid {
                    Some(h)
                } else {
                    None
                }
            },
            None => None,
        }
    }

    /// Takes out the socket with the id, to be closed. Returns `None` when there is none.
    pub fn close_reactor(&mut self, reactorid: ReactorID) -> (r: Option<
        TcpSocketHandler<ListenerData<L>, SockData<S, C>>,
    >)
        requires
            old(self).wf(),
        ensures
            final(self).wf(),
            match r {
                Some(h) => {
                    &&& old(self).live(reactorid)
                    &&& h == old(self)@[reactorid.sockslot as usize]
                    &&& final(self)@ == old(self)@.remove(reactorid.sockslot as usize)
                    &&& final(self).keys() == old(self).keys().freed(reactorid.sockslot as usize)
                },
                None => !old(self).live(reactorid) && *final(self) == *old(self),
            },
            reactor_closed(*old(self), reactorid, r, *final(self)),
    {
        let slot: usize = reactorid.sockslot as usize;
        if self.get(reactorid).is_some() {
            self.socket_handlers.take(slot)
        } else {
            None
        }
    }

    /// The stream with the id.
    pub fn stream_mut(&mut self, reactorid: ReactorID) -> (r: Option<&mut SockData<S, C>>)
        requires
            old(self).wf(),
        ensures
            match r {
                Some(data) => {
                    let slot = reactorid.sockslot as usize;
                    &&& old(self).live(reactorid)
                    &&& old(self)@[slot] == TcpSocketHandler::<
                        ListenerData<L>,
                        SockData<S, C>,
                    >::StreamType(*data)
                    &&& final(self)@ == old(self)@.insert(
                        slot,
                        TcpSocketHandler::StreamType(*final(data)),
                    )
                    &&& final(self).keys() == old(self).keys()
                    &&& final(data).reactorid == reactorid && final(data).sender.wf()
                        && final(data).reader.wf() ==> final(self).wf()
                },
                None => !(old(self).live(reactorid)
                    && old(self)@[reactorid.sockslot as usize] is StreamType) && *final(self)
                    == *old(self),
            },
    {
        let slot: usize = reactorid.sockslot as usize;
        if let Some(TcpSocketHandler::StreamType(_)) = self.get(reactorid) {
            self.socket_handlers.get_stream_mut(slot)
        } else {
            None
        }
    }

    /// The listener with the id.
    pub fn listener_mut(&mut self, reactorid: ReactorID) -> (r: Option<&mut ListenerData<L>>)
        requires
            old(self).wf(),
        ensures
            match r {
                Some(data) => {
                    let slot = reactorid.sockslot as usize;
                    &&& old(self).live(reactorid)
                    &&& old(self)@[slot] == TcpSocketHandler::<
                        ListenerData<L>,
                        SockData<S, C>,
                    >::ListenerType(*data)
                    &&& final(self)@ == old(self)@.insert(
                        slot,
                        TcpSocketHandler::ListenerType(*final(data)),
                    )
                    &&& final(self).keys() == old(self).keys()
                    &&& final(data).reactorid == reactorid ==> final(self).wf()
                },
                None => !(old(self).live(reactorid)
                    && old(self)@[reactorid.sockslot as usize] is ListenerType) && *final(self)
                    == *old(self),
            },
    {
        let slot: usize = reactorid.sockslot as usize;
        if let Some(TcpSocketHandler::ListenerType(_)) = self.get(reactorid) {
            self.socket_handlers.get_listener_mut(slot)
        } else {
            None
        }
    }

    /// An event arrives: for which socket is it, and what is to be done first? A writable stream
    /// counts as registered for writing from here on.
    pub fn begin_event(&mut self, pass: &EventPass) -> (r: (ReactorID, EventAction))
        requires
            old(self).wf(),
        ensures
            final(self).wf(),
            event_begun(*old(self), pass.ev, r, *final(self)),
            old(self).live(r.0) && pass.ev.writable ==> (old(self)@[r.0.sockslot as usize]
                matches TcpSocketHandler::StreamType(data) ==> (data.sender.queued().len() > 0
                <==> r.1 == EventAction::Send)),
    {
        let id = ReactorID::from_usize(pass.ev.key);
        if let Some(TcpSocketHandler::ListenerType(_)) = self.get(id) {
            return (id, pass.start_listener());
        }
        match self.stream_mut(id) {
            Some(data) => {
                if pass.ev.writable {
                    data.interested_writable = true;
                }
                let waits = !data.sender.queued_bytes().is_empty();
                (id, pass.start_stream(waits))
            },
            None => (id, EventAction::Removed),
        }
    }

    /// The messages of a stream that wait have been written, with the given outcome. Returns what is
    /// next, and the completions of the messages that are out.
    pub fn send_queued(
        &mut self,
        pass: &mut EventPass,
        reactorid: ReactorID,
        written: Result<usize, IoErrorKind>,
    ) -> (r: (EventAction, Vec<C>))
        requires
            old(self).wf(),
            old(self).live(reactorid),
            old(self)@[reactorid.sockslot as usize] matches TcpSocketHandler::StreamType(data) && (
            written matches Ok(n) ==> n <= data.sender.queued().len()),
        ensures
            final(self).wf(),
            ({
                let slot = reactorid.sockslot as usize;
                let before = old(self)@[slot]->StreamType_0;
                let after = final(self)@[slot]->StreamType_0;
                let (queued, marks, closing, res, done) = queue_written(
                    before.sender.queued(),
                    before.sender.marks(),
                    before.sender.closing(),
                    written,
                );
                &&& final(self)@ == old(self)@.insert(slot, TcpSocketHandler::StreamType(after))
                &&& final(self).keys() == old(self).keys()
                &&& after == (SockData { sender: after.sender, ..before })
                &&& after.sender.queued() == queued
                &&& after.sender.marks() == marks
                &&& after.sender.closing() == closing
                &&& after.sender.starts() == starts_written(
                    before.sender.starts(),
                    before.sender.queued(),
                    before.sender.marks(),
                    written,
                )
                &&& after.sender.bytes_sent() == sent_after(
                    before.sender.bytes_sent(),
                    before.sender.queued(),
                    written,
                )
                &&& r.1@ == done
                &&& *final(pass) == (EventPass {
                    failed: old(pass).failed || res is Err,
                    ..*old(pass)
                })
            }),
            queue_resent(
                *old(self),
                *old(pass),
                reactorid,
                written,
                r.1@,
                *final(self),
                *final(pass),
            ),
            r.0 == read_or_end(old(pass).ev),
    {
        match self.stream_mut(reactorid) {
            Some(data) => {
                let (res, done) = data.sender.send_queued(written);
                (pass.on_sent(res.is_ok()), done)
            },
            None => (pass.on_sent(true), Vec::new()),
        }
    }

    /// A listener's event has been handled; `conn` is the new connection that was accepted, with the
    /// size that its reader reserves. A listener that is writable or broken is closed, unless it
    /// brought a connection.
    pub fn end_listener_event(&mut self, pass: &EventPass, conn: Option<(usize, S)>) -> (r: ListenerEnd<
        L,
        S,
        C,
    >)
        requires
            old(self).wf(),
            conn is Some ==> old(self).can_add(),
        ensures
            final(self).wf(),
            match conn {
                Some((min, peer)) => {
                    &&& r matches ListenerEnd::Connected(id, interest)
                    &&& id == old(self).next_id()
                    &&& final(self).keys() == old(self).keys().taken()
                    &&& !old(self)@.contains_key(id.sockslot as usize)
                    &&& final(self)@[id.sockslot as usize] matches TcpSocketHandler::StreamType(data)
                        && new_stream(data, id, min, peer)
                    &&& final(self)@ == old(self)@.insert(
                        id.sockslot as usize,
                        final(self)@[id.sockslot as usize],
                    )
                    &&& interest.readable && !interest.writable
                    &&& keys_hold_ids() ==> interest.key == id_key(id)
                },
                None => if (pass.ev.writable || pass.ev.spec_broken()) && old(self).live(
                    key_id(pass.ev.key),
                ) {
                    let slot = key_id(pass.ev.key).sockslot as usize;
                    &&& r == ListenerEnd::Closed(old(self)@[slot])
                    &&& final(self)@ == old(self)@.remove(slot)
                    &&& final(self).keys() == old(self).keys().freed(slot)
                } else {
                    r == ListenerEnd::<L, S, C>::Kept && *final(self) == *old(self)
                },
            },
            listener_event_ended(*old(self), *pass, conn, r, *final(self)),
    {
        match conn {
            Some((min, peer)) => {
                let (id, interest) = self.add_stream(min, peer);
                ListenerEnd::Connected(id, interest)
            },
            None => {
                if pass.ev.writable || pass.ev.broken() {
                    if let Some(h) = self.close_reactor(ReactorID::from_usize(pass.ev.key)) {
                        return ListenerEnd::Closed(h);
                    }
                }
                ListenerEnd::Kept
            },
        }
    }

    /// A stream's event has been handled. A stream that stays is registered for writing exactly while
    /// messages wait.
    pub fn end_stream_event(&mut self, pass: &EventPass) -> (r: StreamEnd<L, S, C>)
        requires
            old(self).wf(),
        ensures
            final(self).wf(),
            stream_event_ended(*old(self), *pass, r, *final(self)),
            ({
                let id = key_id(pass.ev.key);
                let slot = id.sockslot as usize;
                old(self).live(id) ==> (old(self)@[slot] matches TcpSocketHandler::StreamType(data)
                    ==> {
                    &&& pass.ev.interrupt || pass.ev.err == Some(true) || pass.failed
                        || data.sender.closing() <==> r is Closed
                    &&& r is Closed <==> !final(self)@.contains_key(slot)
                    &&& r is Kept ==> final(self)@[slot] == TcpSocketHandler::<
                        ListenerData<L>,
                        SockData<S, C>,
                    >::StreamType(
                        SockData { interested_writable: data.sender.queued().len() > 0, ..data },
                    )
                })
            }),
    {
        let id = ReactorID::from_usize(pass.ev.key);
        match self.stream_mut(id) {
            Some(data) => {
                if !pass.failed && !data.sender.is_closing() && !pass.ev.broken() {
                    return StreamEnd::Kept(data.sync_interest(pass.ev.key));
                }
            },
            None => {
                return StreamEnd::Kept(None);
            },
        }
        assert(self@ =~= old(self)@);
        match self.close_reactor(id) {
            Some(h) => StreamEnd::Closed(h),
            None => StreamEnd::Kept(None),
        }
    }

    /// The reactor of a stream has been told that it is connected, or given a command: `accepted` is
    /// whether it wants to stay. Returns the socket to close, or what to register it for anew.
    pub fn end_call(&mut self, reactorid: ReactorID, accepted: bool) -> (r: StreamEnd<L, S, C>)
        requires
            old(self).wf(),
        ensures
            final(self).wf(),
            call_ended(*old(self), reactorid, accepted, r, *final(self)),
    {
        match self.stream_mut(reactorid) {
            Some(data) => {
                if accepted {
                    return StreamEnd::Kept(data.sync_interest(reactorid.to_usize()));
                }
            },
            None => {
                return StreamEnd::Kept(None);
            },
        }
        assert(self@ =~= old(self)@);
        match self.close_reactor(reactorid) {
            Some(h) => StreamEnd::Closed(h),
            None => StreamEnd::Kept(None),
        }
    }
}

/// What closing a reactor comes to: its socket is taken out, if the id is live.
pub open spec fn reactor_closed<L, S, C>(
    before: ReactorMgr<L, S, C>,
    id: ReactorID,
    r: Option<TcpSocketHandler<ListenerData<L>, SockData<S, C>>>,
    after: ReactorMgr<L, S, C>,
) -> bool {
    let slot = id.sockslot as usize;
    match r {
        Some(h) => before.live(id) && h == before@[slot] && after@ == before@.remove(slot),
        None => !before.live(id) && after == before,
    }
}

/// A socket has been added, under the next id.
pub open spec fn socket_added<L, S, C>(
    before: ReactorMgr<L, S, C>,
    id: ReactorID,
    after: ReactorMgr<L, S, C>,
) -> bool {
    let slot = id.sockslot as usize;
    &&& id == before.next_id()
    &&& !before@.contains_key(slot)
    &&& after@ == before@.insert(slot, after@[slot])
    &&& handler_id(after@[slot]) == id
}

/// How the handling of an event starts: for which socket, what is to be done first, and a stream that is
/// writable counts as registered for writing.
pub open spec fn event_begun<L, S, C>(
    before: ReactorMgr<L, S, C>,
    ev: SockEvent,
    r: (ReactorID, EventAction),
    after: ReactorMgr<L, S, C>,
) -> bool {
    let id = key_id(ev.key);
    &&& r.0 == id
    &&& if !before.live(id) {
        r.1 == EventAction::Removed && after == before
    } else {
        match before@[id.sockslot as usize] {
            TcpSocketHandler::ListenerType(_) => r.1 == listener_action(ev) && after == before,
            TcpSocketHandler::StreamType(data) => {
                &&& r.1 == stream_action(ev, wants_writable(data))
                &&& after@ == before@.insert(
                    id.sockslot as usize,
                    TcpSocketHandler::StreamType(
                        SockData {
                            interested_writable: data.interested_writable || ev.writable,
                            ..data
                        },
                    ),
                )
                &&& after.keys() == before.keys()
            },
        }
    }
}

/// What writing the messages of a stream that wait comes to.
pub open spec fn queue_resent<L, S, C>(
    mgr: ReactorMgr<L, S, C>,
    pass: EventPass,
    id: ReactorID,
    written: Result<usize, IoErrorKind>,
    handed: Seq<C>,
    mgr_after: ReactorMgr<L, S, C>,
    pass_after: EventPass,
) -> bool {
    let slot = id.sockslot as usize;
    let before = mgr@[slot]->StreamType_0;
    let after = mgr_after@[slot]->StreamType_0;
    let (queued, marks, closing, res, done) = queue_written(
        before.sender.queued(),
        before.sender.marks(),
        before.sender.closing(),
        written,
    );
    &&& mgr_after@ == mgr@.insert(slot, TcpSocketHandler::StreamType(after))
    &&& mgr_after.keys() == mgr.keys()
    &&& after == (SockData { sender: after.sender, ..before })
    &&& after.sender.queued() == queued
    &&& after.sender.marks() == marks
    &&& after.sender.closing() == closing
    &&& after.sender.starts() == starts_written(
        before.sender.starts(),
        before.sender.queued(),
        before.sender.marks(),
        written,
    )
    &&& after.sender.bytes_sent() == sent_after(
        before.sender.bytes_sent(),
        before.sender.queued(),
        written,
    )
    &&& handed == done
    &&& pass_after == with_outcome(pass, res is Ok)
}

/// How the event of a listener ends.
pub open spec fn listener_event_ended<L, S, C>(
    before: ReactorMgr<L, S, C>,
    pass: EventPass,
    conn: Option<(usize, S)>,
    r: ListenerEnd<L, S, C>,
    after: ReactorMgr<L, S, C>,
) -> bool {
    match conn {
        Some((min, peer)) => {
            &&& r matches ListenerEnd::Connected(id, _)
            &&& id == before.next_id()
            &&& after@[id.sockslot as usize] matches TcpSocketHandler::StreamType(data)
                && new_stream(data, id, min, peer)
            &&& after@ == before@.insert(id.sockslot as usize, after@[id.sockslot as usize])
        },
        None => if (pass.ev.writable || pass.ev.spec_broken()) && before.live(
            key_id(pass.ev.key),
        ) {
            let slot = key_id(pass.ev.key).sockslot as usize;
            r == ListenerEnd::Closed(before@[slot]) && after@ == before@.remove(slot)
        } else {
            r == ListenerEnd::<L, S, C>::Kept && after == before
        },
    }
}

/// How the event of a stream ends: it goes if anything failed or it is broken, and otherwise is
/// registered for writing exactly while messages wait.
pub open spec fn stream_event_ended<L, S, C>(
    before: ReactorMgr<L, S, C>,
    pass: EventPass,
    r: StreamEnd<L, S, C>,
    after: ReactorMgr<L, S, C>,
) -> bool {
    let id = key_id(pass.ev.key);
    let slot = id.sockslot as usize;
    if before.live(id) && before@[slot] is StreamType {
        let data = before@[slot]->StreamType_0;
        if pass.failed || data.sender.closing() || pass.ev.spec_broken() {
            &&& r == StreamEnd::Closed(before@[slot])
            &&& after@ == before@.remove(slot)
            &&& after.keys() == before.keys().freed(slot)
        } else {
            &&& r == StreamEnd::<L, S, C>::Kept(interest_change(pass.ev.key, data))
            &&& after@ == before@.insert(slot, TcpSocketHandler::StreamType(in_step_data(data)))
            &&& after.keys() == before.keys()
        }
    } else {
        r == StreamEnd::<L, S, C>::Kept(None) && after == before
    }
}

/// What comes of a call of a stream's reactor: it goes if the reactor does not want to stay, and
/// otherwise is registered for writing exactly while messages wait.
pub open spec fn call_ended<L, S, C>(
    before: ReactorMgr<L, S, C>,
    id: ReactorID,
    accepted: bool,
    r: StreamEnd<L, S, C>,
    after: ReactorMgr<L, S, C>,
) -> bool {
    let slot = id.sockslot as usize;
    if before.live(id) && before@[slot] is StreamType {
        let data = before@[slot]->StreamType_0;
        if !accepted {
            &&& r == StreamEnd::Closed(before@[slot])
            &&& after@ == before@.remove(slot)
            &&& after.keys() == before.keys().freed(slot)
        } else {
            &&& r matches StreamEnd::Kept(interest)
            &&& interest is Some == (data.interested_writable != wants_writable(data))
            &&& interest matches Some(i) ==> {
                &&& i.readable
                &&& i.writable == wants_writable(data)
                &&& keys_hold_ids() ==> i.key == id_key(id)
            }
            &&& after@ == before@.insert(slot, TcpSocketHandler::StreamType(in_step_data(data)))
            &&& after.keys() == before.keys()
        }
    } else {
        r == StreamEnd::<L, S, C>::Kept(None) && after == before
    }
}

/// A stream is to be registered for writing while messages wait.
pub open spec fn wants_writable<S, C>(data: SockData<S, C>) -> bool {
    data.sender.queued().len() > 0
}

/// The stream registered for what it is to be registered for.
pub open spec fn in_step_data<S, C>(data: SockData<S, C>) -> SockData<S, C> {
    SockData { interested_writable: wants_writable(data), ..data }
}

/// What to register a stream for anew, if anything.
pub open spec fn interest_change<S, C>(key: usize, data: SockData<S, C>) -> Option<Interest> {
    spec_interest_in_step(key, data.interested_writable, wants_writable(data))
}

impl<S, C> SockData<S, C> {
    /// Adds or removes the interest in writing.
    fn sync_interest(&mut self, key: usize) -> (r: Option<Interest>)
        ensures
            *final(self) == in_step_data(*old(self)),
            r == interest_change(key, *old(self)),
    {
        let waits = !self.sender.queued_bytes().is_empty();
        let change = interest_in_step(key, self.interested_writable, waits);
        self.interested_writable = waits;
        change
    }
}

/// How a listener's event ends.
pub enum ListenerEnd<L, S, C> {
    /// A stream was added: its reactor is to be told that it is connected.
    Connected(ReactorID, Interest),
    /// The listener was taken out, to be closed.
    Closed(TcpSocketHandler<ListenerData<L>, SockData<S, C>>),
    Kept,
}

/// How a stream's event ends.
pub enum StreamEnd<L, S, C> {
    /// The stream was taken out, to be closed.
    Closed(TcpSocketHandler<ListenerData<L>, SockData<S, C>>),
    /// The stream stays, and is registered anew if so given.
    Kept(Option<Interest>),
}

/// All streams are registered for writing exactly while messages wait.
pub open spec fn streams_in_step<L, S, C>(
    m: Map<usize, TcpSocketHandler<ListenerData<L>, SockData<S, C>>>,
) -> bool {
    forall|slot: usize|
        m.contains_key(slot) ==> ((#[trigger] m[slot]) matches TcpSocketHandler::StreamType(data)
            ==> data.interested_writable == wants_writable(data))
}

/// Each socket has an id of its own, the next socket gets one that none has, and none has the
/// invalid id.
pub proof fn law_ids_are_unique<L, S, C>(mgr: ReactorMgr<L, S, C>, a: usize, b: usize)
    requires
        mgr.wf(),
        mgr@.contains_key(a),
        mgr@.contains_key(b),
    ensures
        handler_id(mgr@[a]) == handler_id(mgr@[b]) ==> a == b,
        mgr.live(handler_id(mgr@[a])),
        mgr.can_add() ==> handler_id(mgr@[a]) != mgr.next_id(),
        !mgr.live(invalid_reactor_id()),
{
    assert(handler_ok(a, mgr@[a]));
    assert(handler_ok(b, mgr@[b]));
    mgr.socket_handlers.lemma_next_key_free();
    if mgr.live(invalid_reactor_id()) {
        assert(handler_ok(u32::MAX as usize, mgr@[u32::MAX as usize]));
    }
}

/// An event for the key that a socket is registered under is an event for that socket.
pub proof fn law_events_find_their_socket<L, S, C>(mgr: ReactorMgr<L, S, C>, slot: usize)
    requires
        mgr.wf(),
        mgr@.contains_key(slot),
        keys_hold_ids(),
    ensures
        ({
            let id = key_id(id_key(handler_id(mgr@[slot])) as usize);
            mgr.live(id) && id.sockslot == slot
        }),
{
    assert(handler_ok(slot, mgr@[slot]));
    law_key_round_trip(handler_id(mgr@[slot]), 0);
}

/// If all other streams are registered for writing exactly while messages wait, then all are when the
/// event or call of one stream has ended, or one was added: what could not be sent is sent when the
/// socket is writable.
pub proof fn law_streams_stay_in_step<L, S, C>(
    m: Map<usize, TcpSocketHandler<ListenerData<L>, SockData<S, C>>>,
    slot: usize,
    data: SockData<S, C>,
    id: ReactorID,
    min: usize,
    peer: S,
)
    requires
        streams_in_step(m.remove(slot)),
    ensures
        streams_in_step(m.insert(slot, TcpSocketHandler::StreamType(in_step_data(data)))),
        new_stream(data, id, min, peer) ==> streams_in_step(
            m.insert(slot, TcpSocketHandler::StreamType(data)),
        ),
{
    let settled = m.insert(slot, TcpSocketHandler::StreamType(in_step_data(data)));
    assert forall|k: usize| settled.contains_key(k) implies ((#[trigger] settled[k])
        matches TcpSocketHandler::StreamType(d) ==> d.interested_writable == wants_writable(d)) by {
        if k != slot {
            assert(m.remove(slot)[k] == settled[k]);
        }
    }
    let added = m.insert(slot, TcpSocketHandler::StreamType(data));
    if new_stream(data, id, min, peer) {
        assert forall|k: usize| added.contains_key(k) implies ((#[trigger] added[k])
            matches TcpSocketHandler::StreamType(d) ==> d.interested_writable == wants_writable(
            d,
        )) by {
            if k != slot {
                assert(m.remove(slot)[k] == added[k]);
            }
        }
    }
}

/// An id is live exactly if the socket in its slot has both its numbers.
pub proof fn law_live_ids<L, S, C>(mgr: ReactorMgr<L, S, C>, id: ReactorID)
    ensures
        mgr.live(id) <==> mgr@.contains_key(id.sockslot as usize) && match mgr@[id.sockslot as usize] {
            TcpSocketHandler::ListenerType(data) => data.reactorid.sockslot == id.sockslot
                && data.reactorid.ver == id.ver,
            TcpSocketHandler::StreamType(data) => data.reactorid.sockslot == id.sockslot
                && data.reactorid.ver == id.ver,
        },
{
}

/// A new stream has sent and received nothing: no message waits, no byte is pending, and it is not
/// registered for writing. Its reader reserves the size that was asked for.
pub proof fn law_new_stream<S, C>(data: SockData<S, C>, id: ReactorID, min: usize, peer: S)
    requires
        new_stream(data, id, min, peer),
    ensures
        data.reactorid == id,
        data.peer == peer,
        data.sender.queued().len() == 0,
        data.sender.marks().len() == 0,
        !data.sender.closing(),
        data.reader.pending().len() == 0,
        data.reader.expected() == 0,
        data.reader.min_reserve() == min,
        !data.interested_writable,
{
}

/// How an event starts: a stream whose queue holds at least one byte sends when it is writable. One
/// that has nothing to send, or is not writable, reads when it is readable. A listener that is readable
/// accepts. An event for an id that is not live does nothing.
pub proof fn law_events_start<L, S, C>(
    before: ReactorMgr<L, S, C>,
    ev: SockEvent,
    r: (ReactorID, EventAction),
    after: ReactorMgr<L, S, C>,
)
    requires
        event_begun(before, ev, r, after),
    ensures
        r.0 == key_id(ev.key),
        r.1 == EventAction::Removed <==> !before.live(r.0),
        before.live(r.0) ==> match before@[r.0.sockslot as usize] {
            TcpSocketHandler::StreamType(data) => {
                let sends = ev.writable && data.sender.queued().len() > 0;
                &&& r.1 == EventAction::Send <==> sends
                &&& r.1 == EventAction::Read <==> !sends && ev.readable
                &&& r.1 == EventAction::EndStream <==> !sends && !ev.readable
                &&& after@[r.0.sockslot as usize] matches TcpSocketHandler::StreamType(now)
                &&& now.sender == data.sender && now.reader == data.reader
                &&& now.interested_writable == (data.interested_writable || ev.writable)
            },
            TcpSocketHandler::ListenerType(_) => {
                &&& r.1 == EventAction::Accept <==> ev.readable
                &&& r.1 == EventAction::EndListener <==> !ev.readable
                &&& after == before
            },
        },
        forall|slot: usize|
            #![trigger after@[slot]]
            slot != r.0.sockslot && before@.contains_key(slot) ==> after@.contains_key(slot)
                && after@[slot] == before@[slot],
{
}

/// When the event of a stream has ended: a stream that hung up is gone, and so is one with an error,
/// whatever else the event says; and one that failed or is to be closed. Any other stays, and then is
/// registered for writing exactly if its queue holds at least one byte. All others stay as they are.
pub proof fn law_stream_events_end<L, S, C>(
    before: ReactorMgr<L, S, C>,
    pass: EventPass,
    r: StreamEnd<L, S, C>,
    after: ReactorMgr<L, S, C>,
    slot: usize,
    data: SockData<S, C>,
)
    requires
        stream_event_ended(before, pass, r, after),
        before.live(key_id(pass.ev.key)),
        slot == key_id(pass.ev.key).sockslot,
        before@[slot] == TcpSocketHandler::<ListenerData<L>, SockData<S, C>>::StreamType(data),
    ensures
        pass.ev.interrupt ==> !after@.contains_key(slot),
        pass.ev.err == Some(true) ==> !after@.contains_key(slot),
        pass.failed ==> !after@.contains_key(slot),
        data.sender.closing() ==> !after@.contains_key(slot),
        !pass.ev.interrupt && pass.ev.err != Some(true) && !pass.failed && !data.sender.closing()
            ==> after@.contains_key(slot),
        !after@.contains_key(slot) ==> r == StreamEnd::Closed(before@[slot]),
        after@.contains_key(slot) ==> {
            &&& r matches StreamEnd::Kept(interest)
            &&& after@[slot] matches TcpSocketHandler::StreamType(now)
            &&& now.sender == data.sender && now.reader == data.reader
            &&& now.interested_writable <==> data.sender.queued().len() > 0
            &&& match interest {
                Some(i) => i.key == pass.ev.key && i.readable && i.writable
                    == now.interested_writable && i.writable != data.interested_writable,
                None => now.interested_writable == data.interested_writable,
            }
        },
        forall|other: usize|
            #![trigger after@[other]]
            other != slot && before@.contains_key(other) ==> after@.contains_key(other)
                && after@[other] == before@[other],
{
}

/// When the event of a listener has ended that brought no connection: a listener that hung up is gone,
/// one with an error too, and one that is writable. Any other stays. One that brought a connection
/// stays, and the connection is a new stream.
pub proof fn law_listener_events_end<L, S, C>(
    before: ReactorMgr<L, S, C>,
    pass: EventPass,
    conn: Option<(usize, S)>,
    r: ListenerEnd<L, S, C>,
    after: ReactorMgr<L, S, C>,
)
    requires
        listener_event_ended(before, pass, conn, r, after),
        before.live(key_id(pass.ev.key)),
        before.wf(),
    ensures
        ({
            let slot = key_id(pass.ev.key).sockslot as usize;
            match conn {
                None => {
                    &&& pass.ev.interrupt ==> !after@.contains_key(slot)
                    &&& pass.ev.err == Some(true) ==> !after@.contains_key(slot)
                    &&& pass.ev.writable ==> !after@.contains_key(slot)
                    &&& !pass.ev.interrupt && pass.ev.err != Some(true) && !pass.ev.writable
                        ==> after == before && r is Kept
                    &&& !after@.contains_key(slot) ==> r == ListenerEnd::Closed(before@[slot])
                },
                Some((min, peer)) => {
                    &&& r matches ListenerEnd::Connected(id, _)
                    &&& after.live(id)
                    &&& after@[id.sockslot as usize] matches TcpSocketHandler::StreamType(data)
                    &&& data.peer == peer && data.reader.min_reserve() == min
                },
            }
        }),
{
}

/// When a reactor has been told that it is connected, or given a command: a stream whose reactor does
/// not want to stay is gone, and one whose reactor does stays, registered for writing exactly if its
/// queue holds at least one byte. All others stay as they are.
pub proof fn law_calls_end<L, S, C>(
    before: ReactorMgr<L, S, C>,
    id: ReactorID,
    accepted: bool,
    r: StreamEnd<L, S, C>,
    after: ReactorMgr<L, S, C>,
    data: SockData<S, C>,
)
    requires
        call_ended(before, id, accepted, r, after),
        before.live(id),
        before@[id.sockslot as usize] == TcpSocketHandler::<
            ListenerData<L>,
            SockData<S, C>,
        >::StreamType(data),
    ensures
        ({
            let slot = id.sockslot as usize;
            &&& !accepted ==> !after@.contains_key(slot) && r == StreamEnd::Closed(before@[slot])
            &&& accepted ==> {
                &&& r matches StreamEnd::Kept(interest)
                &&& after@.contains_key(slot)
                &&& after@[slot] matches TcpSocketHandler::StreamType(now)
                &&& now.sender == data.sender && now.reader == data.reader
                &&& now.interested_writable <==> data.sender.queued().len() > 0
                &&& match interest {
                    Some(i) => i.readable && i.writable == now.interested_writable && i.writable
                        != data.interested_writable && (keys_hold_ids() ==> i.key == id.ver
                        * 0x1_0000_0000 + id.sockslot),
                    None => now.interested_writable == data.interested_writable,
                }
            }
            &&& forall|other: usize|
                #![trigger after@[other]]
                other != slot && before@.contains_key(other) ==> after@.contains_key(other)
                    && after@[other] == before@[other]
        }),
{
}

/// Closing takes out the socket with both numbers of the id, and no other: not one that is in its slot
/// now. An id that was closed is not live any more.
pub proof fn law_closing<L, S, C>(
    before: ReactorMgr<L, S, C>,
    id: ReactorID,
    r: Option<TcpSocketHandler<ListenerData<L>, SockData<S, C>>>,
    after: ReactorMgr<L, S, C>,
    other: ReactorID,
)
    requires
        reactor_closed(before, id, r, after),
        before.wf(),
    ensures
        r is Some <==> before.live(id),
        !after.live(id),
        other.sockslot != id.sockslot || other.ver != id.ver ==> after.live(other) == before.live(
            other,
        ),
        after.live(other) ==> after@[other.sockslot as usize] == before@[other.sockslot as usize],
        r matches Some(h) ==> handler_id(h) == id,
{
    law_live_ids(before, other);
    law_live_ids(before, id);
    if before.live(other) && before.live(id) && other.sockslot == id.sockslot {
        assert(other == id);
    }
}

/// A socket that is added is live under its id, which none had before: its version is the number of
/// sockets with it. All others stay.
pub proof fn law_adding<L, S, C>(
    before: ReactorMgr<L, S, C>,
    id: ReactorID,
    after: ReactorMgr<L, S, C>,
    other: ReactorID,
)
    requires
        socket_added(before, id, after),
        before@.dom().len() < u32::MAX,
    ensures
        after.live(id),
        !before.live(id),
        id.ver == before@.dom().len() + 1,
        other != id && before.live(other) ==> after.live(other) && after@[other.sockslot as usize]
            == before@[other.sockslot as usize],
{
}

/// Sockets can be added as long as the next slot and the number of sockets fit into an id.
pub proof fn law_room_for_sockets<L, S, C>(mgr: ReactorMgr<L, S, C>)
    ensures
        mgr.can_add() <==> mgr.next_slot() < 0xffff_ffff && mgr@.dom().len() < 0xffff_ffff,
        mgr.can_add() ==> mgr.next_id().sockslot == mgr.next_slot() && mgr.next_id().ver
            == mgr@.dom().len() + 1,
{
}

/// When a writable stream has resent its messages and its event has ended: the bytes that the socket
/// took have left the queue, and the others wait. A stream whose socket took nothing, or failed, is
/// gone; one that would block or was interrupted is not, unless something else failed.
pub proof fn law_resending<L, S, C>(
    before: ReactorMgr<L, S, C>,
    pass: EventPass,
    id: ReactorID,
    written: Result<usize, IoErrorKind>,
    handed: Seq<C>,
    between: ReactorMgr<L, S, C>,
    pass_after: EventPass,
    r: StreamEnd<L, S, C>,
    after: ReactorMgr<L, S, C>,
    data: SockData<S, C>,
)
    requires
        before.wf(),
        id == key_id(pass.ev.key),
        before.live(id),
        before@[id.sockslot as usize] == TcpSocketHandler::<
            ListenerData<L>,
            SockData<S, C>,
        >::StreamType(data),
        data.sender.queued().len() > 0,
        written matches Ok(n) ==> n <= data.sender.queued().len(),
        queue_resent(before, pass, id, written, handed, between, pass_after),
        stream_event_ended(between, pass_after, r, after),
    ensures
        ({
            let slot = id.sockslot as usize;
            let queued = data.sender.queued();
            let blocked = written == Err::<usize, IoErrorKind>(IoErrorKind::WouldBlock) || written
                == Err::<usize, IoErrorKind>(IoErrorKind::Interrupted);
            &&& !blocked && !(written matches Ok(n) && n > 0) ==> !after@.contains_key(slot)
            &&& after@.contains_key(slot) ==> {
                &&& after@[slot] matches TcpSocketHandler::StreamType(now)
                &&& blocked ==> now.sender.queued() == queued
                &&& written matches Ok(n) ==> now.sender.queued() == queued.skip(n as int)
                &&& now.interested_writable <==> now.sender.queued().len() > 0
            }
            &&& (blocked || (written matches Ok(n) && n > 0)) && !pass.failed
                && !data.sender.closing() && !pass.ev.interrupt && pass.ev.err != Some(true)
                ==> after@.contains_key(slot)
        }),
{
    let slot = id.sockslot as usize;
    assert(handler_ok(slot, before@[slot]));
    data.sender.lemma_marks_sorted();
    law_queue_written(
        data.sender.queued(),
        data.sender.marks(),
        data.sender.closing(),
        written,
    );
    let now = between@[slot]->StreamType_0;
    assert(between@[slot] == TcpSocketHandler::<ListenerData<L>, SockData<S, C>>::StreamType(now));
    assert(between.live(id));
    law_stream_events_end(between, pass_after, r, after, slot, now);
}

} // verus!
