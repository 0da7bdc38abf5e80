//! The sample reactor in several runtimes: reactors find one another by name.

use crate::command::Deferred;
use crate::reactor_id::ReactorID;
use crate::sample::MyReactor;
use crate::threaded_reactors::{ReactorUID, ThreadedReactorMgr};
use vstd::prelude::*;

verus! {

/// How long a client waits before it sends its first message.
pub const START_DELAY_MILLIS: i64 = 10;

/// What the reactors of a listener are made from.
pub struct ThreadedServiceParam {
    pub runtimeid: usize,
    pub name: String,
    pub latency_batch: i32,
}

/// A sample reactor with a name, in one of the runtimes.
pub struct MyThreadedReactor {
    pub runtimeid: usize,
    pub name: String,
    pub reactor: MyReactor,
}

/// What a client does when its command arrives: a command for the server, and a first message.
pub struct ClientStart {
    pub server: ReactorUID,
    pub server_cmd: String,
    pub body: String,
}

impl MyThreadedReactor {
    pub fn new_client(name: String, runtimeid: usize, max_echo: i32, latency_batch: i32) -> (r: Self)
        ensures
            r.name == name,
            r.runtimeid == runtimeid,
            r.reactor.is_new(true, max_echo, latency_batch),
    {
        Self { runtimeid, name, reactor: MyReactor::new(true, max_echo, latency_batch) }
    }

    /// The reactor of a connection to a service, named after it.
    pub fn new_service_reactor(p: ThreadedServiceParam) -> (r: Self)
        ensures
            r.name@ == p.name@ + "-1"@,
            r.runtimeid == p.runtimeid,
            r.reactor.is_new(false, i32::MAX, p.latency_batch),
    {
        let mut name = p.name;
        name.append("-1");
        Self {
            runtimeid: p.runtimeid,
            name,
            reactor: MyReactor::new(false, i32::MAX, p.latency_batch),
        }
    }

    /// The reactor is connected: it registers its name, which is not taken. A client has a command
    /// sent to itself a little later: the command, and when.
    pub fn on_connected<X>(
        &self,
        mgr: &mut ThreadedReactorMgr<X>,
        reactorid: ReactorID,
        now_millis: i64,
    ) -> (r: Option<(String, Deferred)>)
        requires
            old(mgr).wf(),
            !old(mgr)@.contains_key(self.name@),
            now_millis <= i64::MAX - START_DELAY_MILLIS,
        ensures
            final(mgr).wf(),
            final(mgr).senders() == old(mgr).senders(),
            final(mgr)@ == old(mgr)@.insert(
                self.name@,
                ReactorUID { runtimeid: self.runtimeid, reactorid },
            ),
            match r {
                Some((cmd, deferred)) => {
                    &&& self.reactor.dispatcher.is_client
                    &&& cmd@ == "StartSending"@
                    &&& deferred == Deferred::UtilTime((now_millis + START_DELAY_MILLIS) as i64)
                },
                None => !self.reactor.dispatcher.is_client,
            },
    {
        let uid = ReactorUID { runtimeid: self.runtimeid, reactorid };
        let _ = mgr.add_new_reactor_uid(self.name.clone(), uid);
        if self.reactor.dispatcher.is_client {
            Some(("StartSending".to_owned(), Deferred::UtilTime(now_millis + START_DELAY_MILLIS)))
        } else {
            None
        }
    }

    /// A command has arrived. A client turns to the server, which is there under its name.
    pub fn on_command<X>(&self, mgr: &ThreadedReactorMgr<X>) -> (r: Option<ClientStart>)
        requires
            mgr.wf(),
            self.reactor.dispatcher.is_client ==> mgr@.contains_key("server-1"@),
        ensures
            match r {
                Some(start) => {
                    &&& self.reactor.dispatcher.is_client
                    &&& start.server == mgr@["server-1"@]
                    &&& start.server_cmd@ == "TestCmdFromClient"@
                    &&& start.body@ == "hello world"@
                },
                None => !self.reactor.dispatcher.is_client,
            },
    {
        if !self.reactor.dispatcher.is_client {
            return None;
        }
        match mgr.find_reactor_uid("server-1") {
            Some(server) => Some(
                ClientStart {
                    server,
                    server_cmd: "TestCmdFromClient".to_owned(),
                    body: "hello world".to_owned(),
                },
            ),
            None => None,
        }
    }

    /// The reactor goes, and its name with it.
    pub fn on_close<X>(&self, mgr: &mut ThreadedReactorMgr<X>)
        requires
            old(mgr).wf(),
        ensures
            final(mgr).wf(),
            final(mgr).senders() == old(mgr).senders(),
            final(mgr)@ == old(mgr)@.remove(self.name@),
    {
        let _ = mgr.remove_reactor_name(self.name.as_str());
        assert(mgr@ =~= old(mgr)@.remove(self.name@));
    }
}

/// A reactor that is connected is found under its name until it goes, and then its name is free, as
/// it was.
pub proof fn law_names_come_and_go(
    before: Map<Seq<char>, ReactorUID>,
    name: Seq<char>,
    uid: ReactorUID,
)
    requires
        !before.contains_key(name),
    ensures
        before.insert(name, uid).contains_key(name),
        before.insert(name, uid)[name] == uid,
        before.insert(name, uid).remove(name) == before,
{
    assert(before.insert(name, uid).remove(name) =~= before);
}

} // verus!
