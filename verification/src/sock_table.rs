//! The sockets of a poller: listeners and streams, each under a key.

use crate::flat_storage::{FlatStorage, KeyPool};
use vstd::prelude::*;

verus! {

/// What is kept for a socket.
pub enum TcpSocketHandler<L, S> {
    ListenerType(L),
    StreamType(S),
}

/// The keys of the streams.
pub open spec fn stream_keys<L, S>(m: Map<usize, TcpSocketHandler<L, S>>) -> Set<usize> {
    m.dom().filter(|k: usize| m[k] is StreamType)
}

/// All sockets, with the number of those that are streams.
pub struct SocketTable<L, S> {
    socket_handlers: FlatStorage<TcpSocketHandler<L, S>>,
    count_streams: usize,
}

impl<L, S> View for SocketTable<L, S> {
    type V = Map<usize, TcpSocketHandler<L, S>>;

    closed spec fn view(&self) -> Map<usize, TcpSocketHandler<L, S>> {
        self.socket_handlers@
    }
}

/// Storing something at a free key changes the number of streams by whether it is one.
proof fn lemma_insert<L, S>(
    m: Map<usize, TcpSocketHandler<L, S>>,
    key: usize,
    h: TcpSocketHandler<L, S>,
)
    requires
        m.dom().finite(),
        !m.contains_key(key),
    ensures
        stream_keys(m).finite(),
        stream_keys(m.insert(key, h)).len() == stream_keys(m).len() + (if h is StreamType {
            1int
        } else {
            0int
        }),
{
    let before = stream_keys(m);
    let after = stream_keys(m.insert(key, h));
    m.dom().lemma_len_filter(|k: usize| m[k] is StreamType);
    if h is StreamType {
        assert(after =~= before.insert(key));
    } else {
        assert(after =~= before);
    }
}

/// Taking something out changes the number of streams by whether it is one.
proof fn lemma_remove<L, S>(m: Map<usize, TcpSocketHandler<L, S>>, key: usize)
    requires
        m.dom().finite(),
        m.contains_key(key),
    ensures
        stream_keys(m).len() == stream_keys(m.remove(key)).len() + (if m[key] is StreamType {
            1int
        } else {
            0int
        }),
{
    lemma_insert(m.remove(key), key, m[key]);
    assert(m.remove(key).insert(key, m[key]) =~= m);
}

impl<L, S> SocketTable<L, S> {
    /// How the keys are given out.
    pub closed spec fn keys(&self) -> KeyPool {
        self.socket_handlers.keys()
    }

    /// The key that the next socket gets.
    pub open spec fn next_key(&self) -> usize {
        self.keys().next()
    }

    pub closed spec fn wf(&self) -> bool {
        &&& self.socket_handlers.wf()
        &&& self@.dom().finite()
        &&& self@.dom().len() == self.socket_handlers.spec_len()
        &&& self.count_streams == stream_keys(self@).len()
    }

    pub fn new() -> (r: Self)
        ensures
            r.wf(),
            r@ == Map::<usize, TcpSocketHandler<L, S>>::empty(),
            r.keys() == KeyPool::fresh(),
    {
        let r = Self { socket_handlers: FlatStorage::new(), count_streams: 0 };
        proof {
            r.socket_handlers.lemma_dom_len();
            assert(stream_keys(r@) =~= Set::empty());
        }
        r
    }

    /// The key that the next socket gets.
    pub fn get_next_key(&self) -> (r: usize)
        requires
            self.wf(),
        ensures
            r == self.next_key(),
    {
        self.socket_handlers.get_next_key()
    }

    /// Number of all sockets.
    pub fn len(&self) -> (r: usize)
        requires
            self.wf(),
        ensures
            self@.dom().finite(),
            r == self@.dom().len(),
    {
        self.socket_handlers.len()
    }

    /// Number of the streams.
    pub fn count_streams(&self) -> (r: usize)
        requires
            self.wf(),
        ensures
            self@.dom().finite(),
            stream_keys(self@).finite(),
            r == stream_keys(self@).len(),
    {
        proof {
            self@.dom().lemma_len_filter(|k: usize| self@[k] is StreamType);
        }
        self.count_streams
    }

    /// Adds a stream and returns its key, which was free.
    pub fn add_stream(&mut self, stream: S) -> (key: usize)
        requires
            old(self).wf(),
            old(self)@.dom().len() < usize::MAX,
        ensures
            final(self).wf(),
            key == old(self).next_key(),
            final(self).keys() == old(self).keys().taken(),
            key < usize::MAX,
            !old(self)@.contains_key(key),
            final(self)@ == old(self)@.insert(key, TcpSocketHandler::StreamType(stream)),
    {
        let ghost h = TcpSocketHandler::<L, S>::StreamType(stream);
        let key = self.socket_handlers.add(TcpSocketHandler::StreamType(stream));
        proof {
            lemma_insert(old(self)@, key, h);
            lemma_streams_bounded(self.socket_handlers);
        }
        self.count_streams = self.count_streams + 1;
        key
    }

    /// Adds a listener and returns its key, which was free.
    pub fn add_listener(&mut self, listener: L) -> (key: usize)
        requires
            old(self).wf(),
            old(self)@.dom().len() < usize::MAX,
        ensures
            final(self).wf(),
            key == old(self).next_key(),
            final(self).keys() == old(self).keys().taken(),
            key < usize::MAX,
            !old(self)@.contains_key(key),
            final(self)@ == old(self)@.insert(key, TcpSocketHandler::ListenerType(listener)),
    {
        let ghost h = TcpSocketHandler::<L, S>::ListenerType(listener);
        let key = self.socket_handlers.add(TcpSocketHandler::ListenerType(listener));
        proof {
            lemma_insert(old(self)@, key, h);
        }
        key
    }

    /// Takes a socket out, if it is there.
    pub fn take(&mut self, key: usize) -> (r: Option<TcpSocketHandler<L, S>>)
        requires
            old(self).wf(),
        ensures
            final(self).wf(),
            match r {
                Some(h) => {
                    &&& old(self)@.contains_key(key)
                    &&& h == old(self)@[key]
                    &&& final(self)@ == old(self)@.remove(key)
                    &&& final(self).keys() == old(self).keys().freed(key)
                },
                None => !old(self)@.contains_key(key) && *final(self) == *old(self),
            },
    {
        match self.socket_handlers.take(key) {
            Some(h) => {
                proof {
                    lemma_remove(old(self)@, key);
                }
                match &h {
                    TcpSocketHandler::StreamType(_) => {
                        self.count_streams = self.count_streams - 1;
                    },
                    TcpSocketHandler::ListenerType(_) => {},
                }
                Some(h)
            },
            None => None,
        }
    }

    pub fn get(&self, key: usize) -> (r: Option<&TcpSocketHandler<L, S>>)
        requires
            self.wf(),
        ensures
            match r {
                Some(h) => self@.contains_key(key) && *h == self@[key],
                None => !self@.contains_key(key),
            },
    {
        self.socket_handlers.get(key)
    }

    /// The stream under the key, if there is one.
    pub fn get_stream_mut(&mut self, key: usize) -> (r: Option<&mut S>)
        requires
            old(self).wf(),
        ensures
            match r {
                Some(s) => {
                    &&& stream_keys(old(self)@).contains(key)
                    &&& old(self)@[key] == TcpSocketHandler::<L, S>::StreamType(*s)
                    &&& final(self).wf()
                    &&& final(self)@ == old(self)@.insert(
                        key,
                        TcpSocketHandler::StreamType(*final(s)),
                    )
                    &&& final(self).keys() == old(self).keys()
                },
                None => !stream_keys(old(self)@).contains(key) && *final(self) == *old(self),
            },
    {
        let found = match self.socket_handlers.get(key) {
            Some(TcpSocketHandler::StreamType(_)) => true,
            _ => false,
        };
        if !found {
            return None;
        }
        let ghost after = *final(self);
        match self.socket_handlers.get_mut(key) {
            Some(TcpSocketHandler::StreamType(s)) => {
                proof {
                    lemma_replace(*old(self), after, key, TcpSocketHandler::StreamType(*final(s)));
                }
                Some(s)
            },
            _ => None,
        }
    }

    /// The listener under the key, if there is one.
    pub fn get_listener_mut(&mut self, key: usize) -> (r: Option<&mut L>)
        requires
            old(self).wf(),
        ensures
            match r {
                Some(l) => {
                    &&& old(self)@.contains_key(key)
                    &&& old(self)@[key] == TcpSocketHandler::<L, S>::ListenerType(*l)
                    &&& final(self).wf()
                    &&& final(self)@ == old(self)@.insert(
                        key,
                        TcpSocketHandler::ListenerType(*final(l)),
                    )
                    &&& final(self).keys() == old(self).keys()
                },
                None => !(old(self)@.contains_key(key) && old(self)@[key] is ListenerType)
                    && *final(self) == *old(self),
            },
    {
        let found = match self.socket_handlers.get(key) {
            Some(TcpSocketHandler::ListenerType(_)) => true,
            _ => false,
        };
        if !found {
            return None;
        }
        let ghost after = *final(self);
        match self.socket_handlers.get_mut(key) {
            Some(TcpSocketHandler::ListenerType(l)) => {
                proof {
                    lemma_replace(
                        *old(self),
                        after,
                        key,
                        TcpSocketHandler::ListenerType(*final(l)),
                    );
                }
                Some(l)
            },
            _ => None,
        }
    }
}

impl<L, S> SocketTable<L, S> {
    /// The largest number is the key of no socket.
    pub proof fn lemma_key_valid(&self, key: usize)
        requires
            self@.contains_key(key),
        ensures
            key < usize::MAX,
    {
        self.socket_handlers.lemma_key_valid(key);
    }

    /// The next key is the key of no socket.
    pub proof fn lemma_next_key_free(&self)
        requires
            self.wf(),
        ensures
            !self@.contains_key(self.next_key()),
    {
        self.socket_handlers.lemma_next_key_free();
    }
}

/// Replacing a socket by one of its kind keeps the table in order.
proof fn lemma_replace<L, S>(
    before: SocketTable<L, S>,
    after: SocketTable<L, S>,
    key: usize,
    h: TcpSocketHandler<L, S>,
)
    requires
        before.wf(),
        before@.contains_key(key),
        before@[key] is StreamType == h is StreamType,
        after.socket_handlers.wf(),
        after.socket_handlers@ == before.socket_handlers@.insert(key, h),
        after.socket_handlers.slots().len() == before.socket_handlers.slots().len(),
        after.socket_handlers.free_keys() == before.socket_handlers.free_keys(),
        after.count_streams == before.count_streams,
    ensures
        after.wf(),
        after@ == before@.insert(key, h),
        after.keys() == before.keys(),
{
    after.socket_handlers.lemma_dom_len();
    assert(stream_keys(after@) =~= stream_keys(before@));
}

/// There are no more streams than sockets.
proof fn lemma_streams_bounded<L, S>(storage: FlatStorage<TcpSocketHandler<L, S>>)
    requires
        storage.wf(),
    ensures
        stream_keys(storage@).len() <= usize::MAX,
{
    storage.lemma_dom_len();
    storage@.dom().lemma_len_filter(|k: usize| storage@[k] is StreamType);
    assert(storage.spec_len() <= usize::MAX) by {
        storage.lemma_len_fits();
    }
}

/// The keys of the streams are those under which there is a stream.
pub proof fn law_stream_keys<L, S>(m: Map<usize, TcpSocketHandler<L, S>>, key: usize)
    ensures
        stream_keys(m).contains(key) <==> m.contains_key(key) && (m[key] matches
            TcpSocketHandler::StreamType(_)),
{
}

} // verus!
