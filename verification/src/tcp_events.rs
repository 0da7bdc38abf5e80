//! Polled sockets whose handlers read and write by themselves.

use crate::flat_storage::KeyPool;
use crate::sock_table::{stream_keys, SocketTable, TcpSocketHandler};
use crate::socket_io::{interest_readable, Interest, SockEvent};
use vstd::prelude::*;

verus! {

/// Identifies a socket.
#[derive(Debug, Clone, Copy, PartialEq, Eq, Structural)]
pub struct SocketKey(pub usize);

/// The key of no socket.
pub open spec fn spec_invalid_socket_key() -> SocketKey {
    SocketKey(usize::MAX)
}

#[verifier::when_used_as_spec(spec_invalid_socket_key)]
pub fn invalid_socket_key() -> (r: SocketKey)
    ensures
        r == invalid_socket_key(),
{
    SocketKey(usize::MAX)
}

/// The sockets: `L` and `S` are what is kept for listeners and streams.
pub struct TcpConnections<L, S> {
    socket_handlers: SocketTable<L, S>,
}

impl<L, S> View for TcpConnections<L, S> {
    type V = Map<usize, TcpSocketHandler<L, S>>;

    closed spec fn view(&self) -> Map<usize, TcpSocketHandler<L, S>> {
        self.socket_handlers@
    }
}

impl<L, S> TcpConnections<L, S> {
    pub closed spec fn wf(&self) -> bool {
        self.socket_handlers.wf()
    }

    /// How the keys are given out.
    pub closed spec fn keys(&self) -> KeyPool {
        self.socket_handlers.keys()
    }

    /// The key that the next socket gets.
    pub open spec fn next_key(&self) -> usize {
        self.keys().next()
    }

    pub fn new() -> (r: Self)
        ensures
            r.wf(),
            r@ == Map::<usize, TcpSocketHandler<L, S>>::empty(),
            r.keys() == KeyPool::fresh(),
    {
        Self { socket_handlers: SocketTable::new() }
    }

    /// Number of all sockets.
    pub fn len(&self) -> (r: usize)
        requires
            self.wf(),
        ensures
            self@.dom().finite(),
            r == self@.dom().len(),
    {
        self.socket_handlers.len()
    }

    /// Number of the streams.
    pub fn count_streams(&self) -> (r: usize)
        requires
            self.wf(),
        ensures
            self@.dom().finite(),
            stream_keys(self@).finite(),
            r == stream_keys(self@).len(),
    {
        self.socket_handlers.count_streams()
    }

    pub fn get(&self, key: SocketKey) -> (r: Option<&TcpSocketHandler<L, S>>)
        requires
            self.wf(),
        ensures
            match r {
                Some(h) => self@.contains_key(key.0) && *h == self@[key.0],
                None => !self@.contains_key(key.0),
            },
    {
        self.socket_handlers.get(key.0)
    }

    /// The stream under the key, to call its handler.
    pub fn stream_mut(&mut self, key: SocketKey) -> (r: Option<&mut S>)
        requires
            old(self).wf(),
        ensures
            match r {
                Some(s) => {
                    &&& old(self)@.contains_key(key.0)
                    &&& old(self)@[key.0] == TcpSocketHandler::<L, S>::StreamType(*s)
                    &&& final(self).wf()
                    &&& final(self)@ == old(self)@.insert(
                        key.0,
                        TcpSocketHandler::StreamType(*final(s)),
                    )
                    &&& final(self).keys() == old(self).keys()
                },
                None => !stream_keys(old(self)@).contains(key.0) && *final(self) == *old(self),
            },
    {
        self.socket_handlers.get_stream_mut(key.0)
    }

    /// The listener under the key, to call its handler.
    pub fn listener_mut(&mut self, key: SocketKey) -> (r: Option<&mut L>)
        requires
            old(self).wf(),
        ensures
            match r {
                Some(l) => {
                    &&& old(self)@.contains_key(key.0)
                    &&& old(self)@[key.0] == TcpSocketHandler::<L, S>::ListenerType(*l)
                    &&& final(self).wf()
                    &&& final(self)@ == old(self)@.insert(
                        key.0,
                        TcpSocketHandler::ListenerType(*final(l)),
                    )
                    &&& final(self).keys() == old(self).keys()
                },
                None => !(old(self)@.contains_key(key.0) && old(self)@[key.0] is ListenerType)
                    && *final(self) == *old(self),
            },
    {
        self.socket_handlers.get_listener_mut(key.0)
    }

    /// Adds a stream. Returns its key, and what its socket is to be registered for.
    pub fn add_stream(&mut self, stream: S) -> (r: (SocketKey, Interest))
        requires
            old(self).wf(),
            old(self)@.dom().len() < usize::MAX,
        ensures
            final(self).wf(),
            r.0 == SocketKey(old(self).next_key()),
            final(self).keys() == old(self).keys().taken(),
            r.0 != invalid_socket_key(),
            r.1 == (Interest { key: r.0.0, readable: true, writable: false }),
            !old(self)@.contains_key(r.0.0),
            final(self)@ == old(self)@.insert(r.0.0, TcpSocketHandler::StreamType(stream)),
    {
        let key = self.socket_handlers.add_stream(stream);
        (SocketKey(key), interest_readable(key))
    }

    /// Adds a listener. Returns its key, and what its socket is to be registered for.
    pub fn add_listener(&mut self, listener: L) -> (r: (SocketKey, Interest))
        requires
            old(self).wf(),
            old(self)@.dom().len() < usize::MAX,
        ensures
            final(self).wf(),
            r.0 == SocketKey(old(self).next_key()),
            final(self).keys() == old(self).keys().taken(),
            r.0 != invalid_socket_key(),
            r.1 == (Interest { key: r.0.0, readable: true, writable: false }),
            !old(self)@.contains_key(r.0.0),
            final(self)@ == old(self)@.insert(r.0.0, TcpSocketHandler::ListenerType(listener)),
    {
        let key = self.socket_handlers.add_listener(listener);
        (SocketKey(key), interest_readable(key))
    }

    /// Takes a socket out, to be closed.
    pub fn remove_by_key(&mut self, key: SocketKey) -> (r: Option<TcpSocketHandler<L, S>>)
        requires
            old(self).wf(),
        ensures
            final(self).wf(),
            match r {
                Some(h) => {
                    &&& old(self)@.contains_key(key.0)
                    &&& h == old(self)@[key.0]
                    &&& final(self)@ == old(self)@.remove(key.0)
                    &&& final(self).keys() == old(self).keys().freed(key.0)
                },
                None => !old(self)@.contains_key(key.0) && *final(self) == *old(self),
            },
    {
        self.socket_handlers.take(key.0)
    }

    /// A connection is made, and its handler says whether it accepts. The stream is added only if it
    /// does; otherwise it comes back, with the key of no socket.
    pub fn start_connect(&mut self, stream: S, accepted: bool) -> (r: (
        SocketKey,
        Result<Interest, S>,
    ))
        requires
            old(self).wf(),
            old(self)@.dom().len() < usize::MAX,
        ensures
            final(self).wf(),
            if accepted {
                &&& r.0 == SocketKey(old(self).next_key())
                &&& final(self).keys() == old(self).keys().taken()
                &&& r.0 != invalid_socket_key()
                &&& r.1 == Ok::<Interest, S>(
                    Interest { key: r.0.0, readable: true, writable: false },
                )
                &&& !old(self)@.contains_key(r.0.0)
                &&& final(self)@ == old(self)@.insert(r.0.0, TcpSocketHandler::StreamType(stream))
            } else {
                &&& r == (invalid_socket_key(), Err::<Interest, S>(stream))
                &&& *final(self) == *old(self)
            },
    {
        if accepted {
            let (key, interest) = self.add_stream(stream);
            (key, Ok(interest))
        } else {
            (invalid_socket_key(), Err(stream))
        }
    }
}

/// What an event is for.
#[derive(Debug, Clone, Copy, PartialEq, Eq, Structural)]
pub enum TcpEventStart {
    /// Nothing to read.
    Nothing,
    /// A connection is to be accepted.
    Accept,
    /// The stream is to be read.
    Read,
}

/// Polls sockets.
pub struct TcpPollMgr<L, S> {
    pub connections: TcpConnections<L, S>,
}

impl<L, S> TcpPollMgr<L, S> {
    pub fn new() -> (r: Self)
        ensures
            r.connections.wf(),
            r.connections@ == Map::<usize, TcpSocketHandler<L, S>>::empty(),
            r.connections.keys() == KeyPool::fresh(),
    {
        Self { connections: TcpConnections::new() }
    }

    /// Number of listeners and streams.
    pub fn len(&self) -> (r: usize)
        requires
            self.connections.wf(),
        ensures
            self.connections@.dom().finite(),
            r == self.connections@.dom().len(),
    {
        self.connections.len()
    }

    /// Number of the streams.
    pub fn count_streams(&self) -> (r: usize)
        requires
            self.connections.wf(),
        ensures
            self.connections@.dom().finite(),
            stream_keys(self.connections@).finite(),
            r == stream_keys(self.connections@).len(),
    {
        self.connections.count_streams()
    }

    /// An event arrives: what is it for? A readable event is for a socket that is there.
    pub fn begin_event(&self, ev: &SockEvent) -> (r: TcpEventStart)
        requires
            self.connections.wf(),
            ev.readable ==> self.connections@.contains_key(ev.key),
        ensures
            r == TcpEventStart::Nothing <==> !ev.readable,
            r == if !ev.readable {
                TcpEventStart::Nothing
            } else if self.connections@[ev.key] is ListenerType {
                TcpEventStart::Accept
            } else {
                TcpEventStart::Read
            },
    {
        if !ev.readable {
            return TcpEventStart::Nothing;
        }
        match self.connections.get(SocketKey(ev.key)) {
            Some(TcpSocketHandler::ListenerType(_)) => TcpEventStart::Accept,
            _ => TcpEventStart::Read,
        }
    }

    /// An event has been handled; `keep` is what the handler of a stream that was read says. A socket
    /// that is not to be kept, or is broken, is taken out, to be closed.
    pub fn end_event(&mut self, ev: &SockEvent, keep: bool) -> (r: Option<TcpSocketHandler<L, S>>)
        requires
            old(self).connections.wf(),
        ensures
            final(self).connections.wf(),
            if (!keep || ev.spec_broken()) && old(self).connections@.contains_key(ev.key) {
                &&& r == Some(old(self).connections@[ev.key])
                &&& final(self).connections@ == old(self).connections@.remove(ev.key)
                &&& final(self).connections.keys() == old(self).connections.keys().freed(ev.key)
            } else {
                r is None && *final(self) == *old(self)
            },
            event_ended(old(self).connections, *ev, keep, r, final(self).connections),
            ev.interrupt || ev.err == Some(true) ==> !final(self).connections@.contains_key(ev.key),
    {
        if !keep || ev.broken() {
            self.connections.remove_by_key(SocketKey(ev.key))
        } else {
            None
        }
    }
}

/// How an event ends: a socket that is not to be kept, or is broken, goes.
pub open spec fn event_ended<L, S>(
    before: TcpConnections<L, S>,
    ev: SockEvent,
    keep: bool,
    r: Option<TcpSocketHandler<L, S>>,
    after: TcpConnections<L, S>,
) -> bool {
    if (!keep || ev.spec_broken()) && before@.contains_key(ev.key) {
        r == Some(before@[ev.key]) && after@ == before@.remove(ev.key)
    } else {
        r is None && after == before
    }
}

/// When an event has ended, the socket is gone if it hung up, whatever else the event says, if it has
/// an error, and if its handler does not keep it. Otherwise it stays, and all others do.
pub proof fn law_events_end<L, S>(
    before: TcpConnections<L, S>,
    ev: SockEvent,
    keep: bool,
    r: Option<TcpSocketHandler<L, S>>,
    after: TcpConnections<L, S>,
)
    requires
        event_ended(before, ev, keep, r, after),
    ensures
        ev.interrupt ==> !after@.contains_key(ev.key),
        ev.err == Some(true) ==> !after@.contains_key(ev.key),
        !keep ==> !after@.contains_key(ev.key),
        keep && !ev.interrupt && ev.err != Some(true) ==> after == before && r is None,
        before@.contains_key(ev.key) && !after@.contains_key(ev.key) ==> r == Some(before@[ev.key]),
        forall|key: usize|
            #![trigger after@[key]]
            key != ev.key && before@.contains_key(key) ==> after@.contains_key(key) && after@[key]
                == before@[key],
{
}

/// The key of no socket has all bits set.
pub proof fn law_invalid_socket_key()
    ensures
        invalid_socket_key().0 == usize::MAX,
{
}

} // verus!
