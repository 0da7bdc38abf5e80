//! Listeners that make a reactor for each connection.

use crate::reactor_id::{invalid_reactor_id, ReactorID};
use std::marker::PhantomData;
use vstd::prelude::*;

verus! {

/// Makes a reactor for a connection that a listener has accepted.
pub trait NewServerReactor: Sized {
    /// What the reactors of one listener are made from.
    type InitServerParam: Clone;

    /// * `count` - how many reactors the listener has made, with this one: it starts from 1.
    fn new_server_reactor(count: usize, param: Self::InitServerParam) -> Self;
}

/// A new reactor, and the size that its reader reserves.
pub struct NewStreamConnection<R> {
    pub reactor: R,
    pub recv_buffer_min_size: usize,
}

/// Counts the connections of a listener.
pub struct ChildCounter {
    pub reactorid: ReactorID,
    pub count_children: usize,
    pub recv_buffer_min_size: usize,
}

/// A connection has been counted.
pub open spec fn child_counted(before: ChildCounter, count: usize, after: ChildCounter) -> bool {
    &&& count == before.count_children + 1
    &&& after == (ChildCounter { count_children: count, ..before })
}

impl ChildCounter {
    pub fn new(recv_buffer_min_size: usize) -> (r: Self)
        ensures
            r == (ChildCounter {
                reactorid: invalid_reactor_id(),
                count_children: 0,
                recv_buffer_min_size,
            }),
    {
        Self { reactorid: invalid_reactor_id(), count_children: 0, recv_buffer_min_size }
    }

    /// The listener listens, under the given id.
    pub fn on_start_listen(&mut self, reactorid: ReactorID)
        ensures
            *final(self) == (ChildCounter { reactorid, ..*old(self) }),
    {
        self.reactorid = reactorid;
    }

    /// A connection has been accepted. Returns the number of connections with it.
    pub fn on_new_connection(&mut self) -> (r: usize)
        requires
            old(self).count_children < usize::MAX,
        ensures
            r == old(self).count_children + 1,
            *final(self) == (ChildCounter { count_children: r, ..*old(self) }),
            child_counted(*old(self), r, *final(self)),
    {
        self.count_children = self.count_children + 1;
        self.count_children
    }
}

/// The reactor is one that is made for the given count, from a clone of the given parameter.
pub open spec fn makes_reactor<R: NewServerReactor>(
    count: usize,
    base: R::InitServerParam,
    reactor: R,
) -> bool {
    exists|param: R::InitServerParam| #[trigger]
        cloned(base, param) && call_ensures(R::new_server_reactor, (count, param), reactor)
}

/// Makes a reactor of one kind for each connection.
pub struct DefaultTcpListenerHandler<NewReactor: NewServerReactor> {
    children: ChildCounter,
    server_param: NewReactor::InitServerParam,
    _phantom: PhantomData<NewReactor>,
}

impl<NewReactor: NewServerReactor> DefaultTcpListenerHandler<NewReactor> {
    pub closed spec fn param(&self) -> NewReactor::InitServerParam {
        self.server_param
    }

    pub closed spec fn counter(&self) -> ChildCounter {
        self.children
    }

    pub fn new(recv_buffer_min_size: usize, param: NewReactor::InitServerParam) -> (r: Self)
        ensures
            r.param() == param,
            r.counter() == (ChildCounter {
                reactorid: invalid_reactor_id(),
                count_children: 0,
                recv_buffer_min_size,
            }),
    {
        Self {
            children: ChildCounter::new(recv_buffer_min_size),
            server_param: param,
            _phantom: PhantomData,
        }
    }

    pub fn new_boxed(recv_buffer_min_size: usize, param: NewReactor::InitServerParam) -> (r: Box<
        Self,
    >)
        ensures
            r.param() == param,
            r.counter() == (ChildCounter {
                reactorid: invalid_reactor_id(),
                count_children: 0,
                recv_buffer_min_size,
            }),
    {
        Box::new(Self::new(recv_buffer_min_size, param))
    }

    /// The id of the listener, or the invalid one before it listens.
    pub fn reactorid(&self) -> (r: ReactorID)
        ensures
            r == self.counter().reactorid,
    {
        self.children.reactorid
    }

    /// How many reactors have been made.
    pub fn count_children(&self) -> (r: usize)
        ensures
            r == self.counter().count_children,
    {
        self.children.count_children
    }

    pub fn on_start_listen(&mut self, reactorid: ReactorID)
        ensures
            final(self).param() == old(self).param(),
            final(self).counter() == (ChildCounter { reactorid, ..old(self).counter() }),
    {
        self.children.on_start_listen(reactorid);
    }

    /// Makes the reactor for a connection.
    pub fn on_new_connection(&mut self) -> (r: Option<NewStreamConnection<NewReactor>>)
        requires
            old(self).counter().count_children < usize::MAX,
        ensures
            final(self).param() == old(self).param(),
            final(self).counter() == (ChildCounter {
                count_children: (old(self).counter().count_children + 1) as usize,
                ..old(self).counter()
            }),
            r matches Some(conn) && {
                &&& conn.recv_buffer_min_size == old(self).counter().recv_buffer_min_size
                &&& makes_reactor(
                    final(self).counter().count_children,
                    old(self).param(),
                    conn.reactor,
                )
            },
    {
        let count = self.children.on_new_connection();
        let param = self.server_param.clone();
        let reactor = NewReactor::new_server_reactor(count, param);
        assert(cloned(self.server_param, param));
        Some(NewStreamConnection {
            reactor,
            recv_buffer_min_size: self.children.recv_buffer_min_size,
        })
    }
}

/// The counters of a listener before each of its connections and behind the last, with the numbers that
/// the connections got.
pub open spec fn children_counted(counters: Seq<ChildCounter>, counts: Seq<usize>) -> bool {
    &&& counters.len() == counts.len() + 1
    &&& forall|i: int| 0 <= i < counts.len() ==> #[trigger] counted_at(counters, counts, i)
}

pub open spec fn counted_at(counters: Seq<ChildCounter>, counts: Seq<usize>, i: int) -> bool {
    child_counted(counters[i], counts[i], counters[i + 1])
}

/// The connections of a listener are numbered one after the other, from one on. Its id and the size
/// that is reserved stay the same.
pub proof fn law_children_numbered(counters: Seq<ChildCounter>, counts: Seq<usize>, k: int)
    requires
        children_counted(counters, counts),
        counters[0].count_children == 0,
        0 <= k < counts.len(),
    ensures
        counts[k] == k + 1,
        counters[k + 1].count_children == k + 1,
        counters[k + 1].reactorid == counters[0].reactorid,
        counters[k + 1].recv_buffer_min_size == counters[0].recv_buffer_min_size,
    decreases k,
{
    if k > 0 {
        law_children_numbered(counters, counts, k - 1);
    }
    assert(counted_at(counters, counts, k));
}

} // verus!
