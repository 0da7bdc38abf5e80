//! What a non-blocking socket and its poller answer, as plain values.

use vstd::prelude::*;

verus! {

/// The kinds of socket errors that are told apart.
#[derive(Debug, Clone, Copy, PartialEq, Eq, Structural)]
pub enum IoErrorKind {
    WouldBlock,
    ConnectionReset,
    Interrupted,
    ConnectionAborted,
    Other,
}

/// What a socket is registered for in the poller.
#[derive(Debug, Clone, Copy, PartialEq, Eq, Structural)]
pub struct Interest {
    pub key: usize,
    pub readable: bool,
    pub writable: bool,
}

/// A readiness event of the poller. `err` is `None` where the platform cannot tell.
#[derive(Debug, Clone, Copy, PartialEq, Eq, Structural)]
pub struct SockEvent {
    pub key: usize,
    pub readable: bool,
    pub writable: bool,
    pub err: Option<bool>,
    pub interrupt: bool,
}

impl SockEvent {
    /// The event reports an error or a hang-up.
    pub open spec fn spec_broken(&self) -> bool {
        self.err == Some(true) || self.interrupt
    }

    pub fn broken(&self) -> (r: bool)
        ensures
            r == self.spec_broken(),
            self.interrupt ==> r,
            self.err == Some(true) ==> r,
            r ==> self.interrupt || self.err == Some(true),
    {
        let err = match self.err {
            Some(e) => e,
            None => false,
        };
        err || self.interrupt
    }
}

/// `polling::Event::readable`: an interest in reading alone, under the given key.
#[verifier::external_body]
pub(crate) fn interest_readable(key: usize) -> (r: Interest)
    ensures
        r == (Interest { key, readable: true, writable: false }),
{
    let ev = polling::Event::readable(key);
    Interest { key: ev.key, readable: ev.readable, writable: ev.writable }
}

/// `polling::Event::all`: an interest in both reading and writing, under the given key.
#[verifier::external_body]
pub(crate) fn interest_all(key: usize) -> (r: Interest)
    ensures
        r == (Interest { key, readable: true, writable: true }),
{
    let ev = polling::Event::all(key);
    Interest { key: ev.key, readable: ev.readable, writable: ev.writable }
}

/// What to register a stream for anew, if anything: it is to be registered for writing exactly while
/// messages wait.
pub open spec fn spec_interest_in_step(key: usize, writable: bool, waits: bool) -> Option<Interest> {
    if writable != waits {
        Some(Interest { key, readable: true, writable: waits })
    } else {
        None
    }
}

pub fn interest_in_step(key: usize, writable: bool, waits: bool) -> (r: Option<Interest>)
    ensures
        r == spec_interest_in_step(key, writable, waits),
{
    if !writable && waits {
        Some(interest_all(key))
    } else if writable && !waits {
        Some(interest_readable(key))
    } else {
        None
    }
}

/// An event that reports a hang-up is broken, whatever it says of errors, and one that reports an
/// error is, whatever it says of a hang-up. No other event is.
pub proof fn law_broken_events(ev: SockEvent)
    ensures
        ev.interrupt ==> ev.spec_broken(),
        ev.err == Some(true) ==> ev.spec_broken(),
        !ev.interrupt && ev.err != Some(true) ==> !ev.spec_broken(),
{
}

/// A stream is registered anew only where that makes a difference, always for reading, and then is
/// registered for writing exactly while messages wait.
pub proof fn law_interest_follows_queue(key: usize, writable: bool, waits: bool)
    ensures
        match spec_interest_in_step(key, writable, waits) {
            Some(interest) => {
                &&& interest.key == key
                &&& interest.readable
                &&& interest.writable == waits
                &&& interest.writable != writable
            },
            None => writable == waits,
        },
{
}

} // verus!
