//! The order in which an event is handled.

use crate::socket_io::SockEvent;
use vstd::prelude::*;

verus! {

/// What is to be done next for an event.
#[derive(Debug, Clone, Copy, PartialEq, Eq, Structural)]
pub enum EventAction {
    /// Nothing: the socket has been removed.
    Removed,
    /// Accept a connection, and then end the event of the listener.
    Accept,
    /// End the event of the listener.
    EndListener,
    /// Write the messages that wait.
    Send,
    /// Let the reactor read.
    Read,
    /// End the event of the stream.
    EndStream,
}

/// What is next for a stream when no message waits any more, or writing has been tried.
pub open spec fn read_or_end(ev: SockEvent) -> EventAction {
    if ev.readable {
        EventAction::Read
    } else {
        EventAction::EndStream
    }
}

/// What is first for a stream: messages that wait are sent before anything is read.
pub open spec fn stream_action(ev: SockEvent, waits: bool) -> EventAction {
    if ev.writable && waits {
        EventAction::Send
    } else {
        read_or_end(ev)
    }
}

/// What is first for a listener.
pub open spec fn listener_action(ev: SockEvent) -> EventAction {
    if ev.readable {
        EventAction::Accept
    } else {
        EventAction::EndListener
    }
}

/// An event while it is handled, and whether anything failed so far.
#[derive(Debug, Clone, Copy, PartialEq, Eq, Structural)]
pub struct EventPass {
    pub ev: SockEvent,
    pub failed: bool,
}

/// An event when something has been tried for it.
pub open spec fn with_outcome(pass: EventPass, ok: bool) -> EventPass {
    EventPass { failed: pass.failed || !ok, ..pass }
}

impl EventPass {
    pub fn new(ev: SockEvent) -> (r: Self)
        ensures
            r == (EventPass { ev, failed: false }),
    {
        Self { ev, failed: false }
    }

    /// What is first for a listener.
    pub fn start_listener(&self) -> (r: EventAction)
        ensures
            r == listener_action(self.ev),
    {
        if self.ev.readable {
            EventAction::Accept
        } else {
            EventAction::EndListener
        }
    }

    /// What is first for a stream; `waits` is whether messages wait.
    pub fn start_stream(&self, waits: bool) -> (r: EventAction)
        ensures
            r == stream_action(self.ev, waits),
    {
        if self.ev.writable && waits {
            EventAction::Send
        } else if self.ev.readable {
            EventAction::Read
        } else {
            EventAction::EndStream
        }
    }

    /// Writing has been tried. The reactor may read also if it failed.
    pub fn on_sent(&mut self, ok: bool) -> (r: EventAction)
        ensures
            *final(self) == (EventPass { failed: old(self).failed || !ok, ..*old(self) }),
            *final(self) == with_outcome(*old(self), ok),
            r == read_or_end(old(self).ev),
    {
        if !ok {
            self.failed = true;
        }
        if self.ev.readable {
            EventAction::Read
        } else {
            EventAction::EndStream
        }
    }

    /// The reactor has read.
    pub fn on_read(&mut self, ok: bool) -> (r: EventAction)
        ensures
            *final(self) == (EventPass { failed: old(self).failed || !ok, ..*old(self) }),
            *final(self) == with_outcome(*old(self), ok),
            r == EventAction::EndStream,
    {
        if !ok {
            self.failed = true;
        }
        EventAction::EndStream
    }
}

/// All that is done for a stream, in order.
pub open spec fn stream_plan(ev: SockEvent, waits: bool) -> Seq<EventAction> {
    match stream_action(ev, waits) {
        EventAction::Send => match read_or_end(ev) {
            EventAction::Read => seq![EventAction::Send, EventAction::Read, EventAction::EndStream],
            last => seq![EventAction::Send, last],
        },
        EventAction::Read => seq![EventAction::Read, EventAction::EndStream],
        last => seq![last],
    }
}

/// Messages that wait are written exactly when the socket is writable, the reactor reads exactly
/// when it is readable, in this order, and the event always ends.
pub proof fn law_stream_plan(ev: SockEvent, waits: bool)
    ensures
        ({
            let plan = stream_plan(ev, waits);
            &&& plan.contains(EventAction::Send) == (ev.writable && waits)
            &&& plan.contains(EventAction::Read) == ev.readable
            &&& plan.last() == EventAction::EndStream
            &&& forall|i: int|
                0 <= i < plan.len() && #[trigger] plan[i] == EventAction::Send ==> i == 0
        }),
{
    let plan = stream_plan(ev, waits);
    if ev.writable && waits {
        assert(plan[0] == EventAction::Send);
        if ev.readable {
            assert(plan[1] == EventAction::Read);
        }
    } else if ev.readable {
        assert(plan[0] == EventAction::Read);
    }
}

/// A listener accepts a connection exactly when it is readable.
pub proof fn law_listener_accepts(ev: SockEvent)
    ensures
        listener_action(ev) == EventAction::Accept <==> ev.readable,
        listener_action(ev) == EventAction::EndListener <==> !ev.readable,
{
}

/// The first action for a stream depends on what it is ready for and on whether messages wait, and
/// on nothing else of the event: a writable stream with messages sends, any other that is readable
/// reads, and any other is done. After sending, a readable stream reads.
pub proof fn law_stream_starts(ev: SockEvent, waits: bool)
    ensures
        stream_action(ev, waits) == EventAction::Send <==> ev.writable && waits,
        stream_action(ev, waits) == EventAction::Read <==> ev.readable && !(ev.writable && waits),
        stream_action(ev, waits) == EventAction::EndStream <==> !ev.readable && !(ev.writable
            && waits),
        read_or_end(ev) == EventAction::Read <==> ev.readable,
        read_or_end(ev) == EventAction::EndStream <==> !ev.readable,
{
}

/// Whatever is tried for an event, and in whatever order: it has failed exactly if one of the trials
/// did, and it stays the same event.
pub proof fn law_failures_are_kept(pass: EventPass, sent: bool, read: bool)
    ensures
        with_outcome(with_outcome(pass, sent), read).failed <==> pass.failed || !sent || !read,
        with_outcome(with_outcome(pass, sent), read) == with_outcome(
            with_outcome(pass, read),
            sent,
        ),
        with_outcome(pass, true) == pass,
        with_outcome(pass, sent).ev == pass.ev,
{
}

} // verus!
