//! The runtime: reactors, commands, and commands that wait for their time.

use crate::command::{CmdData, CommandCompletion, Deferred, SysCommand};
use crate::deferred::{
    deferred_current, is_deferred_current, law_commands_wait_for_their_time, millis_fit, pop_answers,
    pops, DeferredQueue,
};
use crate::flat_storage::KeyPool;
use crate::reactor::{call_ended, ListenerData, ReactorMgr, SockData, StreamEnd};
use crate::reactor_id::{id_text, invalid_reactor_id, ReactorID};
use crate::sock_table::{stream_keys, TcpSocketHandler};
use vstd::multiset::Multiset;
use vstd::prelude::*;

verus! {

/// Manages reactors, a queue of commands that wait, and counters.
///
/// `L` and `S` are kept for listeners and streams, `C` for messages that are being sent; `LH` and `R`
/// are the handlers and reactors that commands bring, `U` the user commands, and `K` is told what
/// came of a command.
pub struct ReactRuntime<L, S, C, LH, R, U, K> {
    pub mgr: ReactorMgr<L, S, C>,
    pub deferred: DeferredQueue<CmdData<LH, R, U, K>>,
    pub accum_sock_events: usize,
    pub accum_commands: usize,
}

/// What is to be done next for a command.
pub enum CmdStep<L, S, C, LH, R, U, K> {
    /// Connect, and tell what came of it.
    Connect { reactor: R, remote_addr: String, recv_buffer_min_size: usize, completion: K },
    /// Listen, and tell what came of it.
    Listen { listener: LH, local_addr: String, completion: K },
    /// Give the command to the reactor, which is there, and tell that it is completed.
    Deliver { reactorid: ReactorID, cmd: U, completion: K },
    /// Tell the result, and close the socket that was taken out, if any.
    Done {
        completion: K,
        result: CommandCompletion,
        closed: Option<TcpSocketHandler<ListenerData<L>, SockData<S, C>>>,
    },
}

/// The text with an id behind it.
fn text_id(text: &str, id: ReactorID) -> (r: String)
    ensures
        r@ == text@ + id_text(id),
{
    let mut s = text.to_owned();
    id.push_to(&mut s);
    s
}

/// Two texts, each with an id behind it.
fn text_ids(text: &str, id: ReactorID, more: &str, other: ReactorID) -> (r: String)
    ensures
        r@ == text@ + id_text(id) + more@ + id_text(other),
{
    let mut s = text_id(text, id);
    s.append(more);
    other.push_to(&mut s);
    s
}

/// Two texts, each with one behind it.
fn text_reason(text: &str, addr: &str, more: &str, err: &str) -> (r: String)
    ensures
        r@ == text@ + addr@ + more@ + err@,
{
    let mut s = text.to_owned();
    s.append(addr);
    s.append(more);
    s.append(err);
    s
}

/// Why a user command cannot be given to the reactor: there is none, or a listener, or another one
/// in its slot.
pub open spec fn user_cmd_error<L, S, C>(
    mgr: ReactorMgr<L, S, C>,
    id: ReactorID,
) -> Option<Seq<char>> {
    let slot = id.sockslot as usize;
    if !mgr@.contains_key(slot) {
        Some("Failed to execute user command on non existing socket with reactorid: "@ + id_text(id))
    } else {
        match mgr@[slot] {
            TcpSocketHandler::ListenerType(l) => Some(
                "Listener cannot receive user command. cmd reactorid: "@ + id_text(id)
                    + ", reactorid: "@ + id_text(l.reactorid),
            ),
            TcpSocketHandler::StreamType(s) => if s.reactorid != id {
                Some(
                    "Failed to execute user command with wrong cmd reactorid: "@ + id_text(id)
                        + ", found: "@ + id_text(s.reactorid),
                )
            } else {
                None
            },
        }
    }
}

/// What is told when connecting to an address failed.
pub fn connect_failed(remote_addr: &str, err: &str) -> (r: CommandCompletion)
    ensures
        r matches CommandCompletion::Error(text) && text@ == "Failed to connect to "@ + remote_addr@
            + ". Error: "@ + err@,
{
    CommandCompletion::Error(text_reason("Failed to connect to ", remote_addr, ". Error: ", err))
}

/// What is told when listening on an address failed.
pub fn listen_failed(local_addr: &str, err: &str) -> (r: CommandCompletion)
    ensures
        r matches CommandCompletion::Error(text) && text@ == "Failed to listen on "@ + local_addr@
            + ". Error: "@ + err@,
{
    CommandCompletion::Error(text_reason("Failed to listen on ", local_addr, ". Error: ", err))
}

/// Whether there is anything left for a runtime, after so many events and commands in one round, with
/// so many commands that wait and so many sockets.
pub open spec fn goes_on(sock_events: nat, cmds: nat, deferred: nat, sockets: nat) -> bool {
    sock_events > 0 || cmds > 0 || deferred > 0 || sockets > 0
}

/// The id that is told to the sender of a command to connect.
pub open spec fn told_id(id: ReactorID, accepted: bool) -> ReactorID {
    if accepted {
        id
    } else {
        invalid_reactor_id()
    }
}

/// What executing a command comes to, as far as it needs no socket.
pub open spec fn command_executed<L, S, C, LH, R, U, K>(
    before: ReactorMgr<L, S, C>,
    cmddata: CmdData<LH, R, U, K>,
    r: CmdStep<L, S, C, LH, R, U, K>,
    after: ReactorMgr<L, S, C>,
) -> bool {
    let (id, completion) = (cmddata.reactorid, cmddata.completion);
    match cmddata.cmd {
        SysCommand::NewConnect(reactor, remote_addr, recv_buffer_min_size) => r
            == CmdStep::<L, S, C, LH, R, U, K>::Connect {
            reactor,
            remote_addr,
            recv_buffer_min_size,
            completion,
        },
        SysCommand::NewListen(listener, local_addr) => r == CmdStep::<
            L,
            S,
            C,
            LH,
            R,
            U,
            K,
        >::Listen { listener, local_addr, completion },
        SysCommand::CloseSocket => {
            &&& r matches CmdStep::Done { completion: k, result, closed }
            &&& k == completion
            &&& if before.live(id) {
                &&& result == CommandCompletion::Completed(id)
                &&& closed == Some(before@[id.sockslot as usize])
                &&& after@ == before@.remove(id.sockslot as usize)
                &&& after.keys() == before.keys().freed(
                    id.sockslot as usize,
                )
            } else {
                &&& result matches CommandCompletion::Error(text)
                &&& text@ == "Failed to remove non existing socket with reactorid: "@
                    + id_text(id)
                &&& closed is None
                &&& after == before
            }
        },
        SysCommand::UserCmd(cmd) => match user_cmd_error(before, id) {
            None => r == CmdStep::<L, S, C, LH, R, U, K>::Deliver {
                reactorid: id,
                cmd,
                completion,
            },
            Some(msg) => {
                &&& r matches CmdStep::Done { completion: k, result, closed }
                &&& k == completion
                &&& result matches CommandCompletion::Error(text)
                &&& text@ == msg
                &&& closed is None
            },
        },
    }
}

/// What looking for a command that is due comes to.
pub open spec fn deferred_taken<T>(
    before: Multiset<(i64, T)>,
    now_nanos: i64,
    r: Option<T>,
    after: Multiset<(i64, T)>,
) -> bool {
    match r {
        Some(cmddata) => exists|millis: i64| #[trigger]
            pop_answers(before, now_nanos, Some((millis, cmddata)), after),
        None => pop_answers(before, now_nanos, None, after),
    }
}

/// What receiving a command comes to: it is to be executed now, or waits in the queue.
pub open spec fn command_received<LH, R, U, K>(
    before: Multiset<(i64, CmdData<LH, R, U, K>)>,
    cmddata: CmdData<LH, R, U, K>,
    now_nanos: i64,
    r: Option<CmdData<LH, R, U, K>>,
    after: Multiset<(i64, CmdData<LH, R, U, K>)>,
) -> bool {
    match cmddata.deferred {
        Deferred::Immediate => r == Some(cmddata) && after == before,
        Deferred::UtilTime(millis) => if deferred_current(millis, now_nanos) {
            r == Some(cmddata) && after == before
        } else {
            r is None && after == before.insert((millis, cmddata))
        },
    }
}

impl<L, S, C, LH, R, U, K> ReactRuntime<L, S, C, LH, R, U, K> {
    pub open spec fn wf(&self) -> bool {
        &&& self.mgr.wf()
        &&& self.deferred.wf()
        &&& forall|item: (i64, CmdData<LH, R, U, K>)| #[trigger]
            self.deferred@.contains(item) ==> item.1.valid()
    }

    pub fn new() -> (r: Self)
        ensures
            r.wf(),
            r.mgr@ == Map::<usize, TcpSocketHandler<ListenerData<L>, SockData<S, C>>>::empty(),
            r.mgr.keys() == KeyPool::fresh(),
            r.deferred@.len() == 0,
            r.accum_sock_events == 0,
            r.accum_commands == 0,
    {
        Self {
            mgr: ReactorMgr::new(),
            deferred: DeferredQueue::new(),
            accum_sock_events: 0,
            accum_commands: 0,
        }
    }

    /// Number of listeners and streams.
    pub fn count_reactors(&self) -> (r: usize)
        requires
            self.wf(),
        ensures
            self.mgr@.dom().finite(),
            r == self.mgr@.dom().len(),
    {
        self.mgr.len()
    }

    /// Number of commands that wait for their time.
    pub fn count_deferred_queue(&self) -> (r: usize)
        requires
            self.wf(),
        ensures
            r == self.deferred@.len(),
    {
        self.deferred.len()
    }

    /// Number of streams, without listeners.
    pub fn count_streams(&self) -> (r: usize)
        requires
            self.wf(),
        ensures
            self.mgr@.dom().finite(),
            stream_keys(self.mgr@).finite(),
            r == stream_keys(self.mgr@).len(),
    {
        self.mgr.count_streams()
    }

    /// Number of all socket events.
    pub fn count_sock_events(&self) -> (r: usize)
        ensures
            r == self.accum_sock_events,
    {
        self.accum_sock_events
    }

    /// Number of all received commands.
    pub fn count_received_commands(&self) -> (r: usize)
        ensures
            r == self.accum_commands,
    {
        self.accum_commands
    }

    /// A round of events and commands has been processed: counts them. Returns false when there is
    /// nothing left, so that the runtime can go.
    pub fn process_events_with(&mut self, sock_events: usize, cmds: usize) -> (r: bool)
        requires
            old(self).wf(),
            old(self).accum_sock_events + sock_events <= usize::MAX,
            old(self).accum_commands + cmds <= usize::MAX,
        ensures
            final(self).wf(),
            final(self).mgr == old(self).mgr,
            final(self).deferred == old(self).deferred,
            final(self).accum_sock_events == old(self).accum_sock_events + sock_events,
            final(self).accum_commands == old(self).accum_commands + cmds,
            r == (sock_events > 0 || cmds > 0 || old(self).deferred@.len() > 0
                || old(self).mgr@.dom().len() > 0),
            r == goes_on(
                sock_events as nat,
                cmds as nat,
                old(self).deferred@.len(),
                old(self).mgr@.dom().len(),
            ),
    {
        self.accum_sock_events = self.accum_sock_events + sock_events;
        self.accum_commands = self.accum_commands + cmds;
        sock_events > 0 || cmds > 0 || self.deferred.len() > 0 || self.mgr.len() > 0
    }

    /// A command has been received. It is handed back if it is to be executed now, and otherwise
    /// put into the queue.
    pub fn process_command_queue(&mut self, cmddata: CmdData<LH, R, U, K>, now_nanos: i64) -> (r:
        Option<CmdData<LH, R, U, K>>)
        requires
            old(self).wf(),
            cmddata.valid(),
            cmddata.deferred matches Deferred::UtilTime(millis) ==> millis_fit(millis),
            old(self).deferred@.len() < usize::MAX,
        ensures
            final(self).wf(),
            match cmddata.deferred {
                Deferred::Immediate => r == Some(cmddata) && *final(self) == *old(self),
                Deferred::UtilTime(millis) => if deferred_current(millis, now_nanos) {
                    r == Some(cmddata) && *final(self) == *old(self)
                } else {
                    &&& r is None
                    &&& final(self).deferred@ == old(self).deferred@.insert((millis, cmddata))
                    &&& final(self).mgr == old(self).mgr
                    &&& final(self).accum_sock_events == old(self).accum_sock_events
                    &&& final(self).accum_commands == old(self).accum_commands
                },
            },
            command_received(old(self).deferred@, cmddata, now_nanos, r, final(self).deferred@),
    {
        if let Deferred::UtilTime(millis) = cmddata.deferred {
            if !is_deferred_current(millis, now_nanos) {
                self.deferred.push(millis, cmddata);
                proof {
                    broadcast use vstd::multiset::group_multiset_axioms;

                    assert forall|item: (i64, CmdData<LH, R, U, K>)| #[trigger]
                        self.deferred@.contains(item) implies item.1.valid() by {
                        assert(item == (millis, cmddata) || old(self).deferred@.contains(item));
                    }
                }
                return None;
            }
        }
        Some(cmddata)
    }

    /// Takes out the command that is due first, if its time has come.
    pub fn process_deferred_queue(&mut self, now_nanos: i64) -> (r: Option<CmdData<LH, R, U, K>>)
        requires
            old(self).wf(),
        ensures
            final(self).wf(),
            final(self).mgr == old(self).mgr,
            final(self).accum_sock_events == old(self).accum_sock_events,
            final(self).accum_commands == old(self).accum_commands,
            match r {
                Some(cmddata) => {
                    &&& cmddata.valid()
                    &&& exists|millis: i64|
                        deferred_current(millis, now_nanos) && #[trigger] pops(
                            old(self).deferred@,
                            millis,
                            cmddata,
                            final(self).deferred@,
                        )
                    &&& exists|millis: i64|
                        millis * 1_000_000 <= now_nanos && #[trigger] old(self).deferred@.contains(
                            (millis, cmddata),
                        )
                },
                None => final(self).deferred == old(self).deferred && forall|
                    other: (i64, CmdData<LH, R, U, K>),
                | #[trigger]
                    old(self).deferred@.contains(other) ==> !deferred_current(other.0, now_nanos),
            },
            deferred_taken(old(self).deferred@, now_nanos, r, final(self).deferred@),
    {
        match self.deferred.pop_current(now_nanos) {
            Some((millis, cmddata)) => {
                proof {
                    broadcast use vstd::multiset::group_multiset_axioms;

                    assert(pops(old(self).deferred@, millis, cmddata, self.deferred@));
                    assert(pop_answers(
                        old(self).deferred@,
                        now_nanos,
                        Some((millis, cmddata)),
                        self.deferred@,
                    ));
                    assert(old(self).deferred@.contains((millis, cmddata)));
                    assert forall|item: (i64, CmdData<LH, R, U, K>)| #[trigger]
                        self.deferred@.contains(item) implies item.1.valid() by {
                        assert(old(self).deferred@.contains(item));
                    }
                }
                Some(cmddata)
            },
            None => None,
        }
    }

    /// Executes a command as far as it needs no socket, and says what is to be done then.
    pub fn execute_immediate_cmd(&mut self, cmddata: CmdData<LH, R, U, K>) -> (r: CmdStep<
        L,
        S,
        C,
        LH,
        R,
        U,
        K,
    >)
        requires
            old(self).wf(),
            cmddata.valid(),
        ensures
            final(self).wf(),
            final(self).deferred == old(self).deferred,
            final(self).accum_sock_events == old(self).accum_sock_events,
            final(self).accum_commands == old(self).accum_commands,
            !(cmddata.cmd is CloseSocket) ==> final(self).mgr == old(self).mgr,
            command_executed(old(self).mgr, cmddata, r, final(self).mgr),
            cmddata.cmd is UserCmd ==> (r is Deliver <==> old(self).mgr.live(cmddata.reactorid)
                && old(self).mgr@[cmddata.reactorid.sockslot as usize] is StreamType),
    {
        let CmdData { reactorid, cmd, deferred: _, completion } = cmddata;
        match cmd {
            SysCommand::NewConnect(reactor, remote_addr, recv_buffer_min_size) => CmdStep::Connect {
                reactor,
                remote_addr,
                recv_buffer_min_size,
                completion,
            },
            SysCommand::NewListen(listener, local_addr) => CmdStep::Listen {
                listener,
                local_addr,
                completion,
            },
            SysCommand::CloseSocket => match self.mgr.close_reactor(reactorid) {
                Some(h) => CmdStep::Done {
                    completion,
                    result: CommandCompletion::Completed(reactorid),
                    closed: Some(h),
                },
                None => CmdStep::Done {
                    completion,
                    result: CommandCompletion::Error(
                        text_id("Failed to remove non existing socket with reactorid: ", reactorid),
                    ),
                    closed: None,
                },
            },
            SysCommand::UserCmd(cmd) => match self.mgr.check_user_cmd(reactorid) {
                Ok(_) => CmdStep::Deliver { reactorid, cmd, completion },
                Err(text) => CmdStep::Done {
                    completion,
                    result: CommandCompletion::Error(text),
                    closed: None,
                },
            },
        }
    }

    /// The reactor of a new connection has been told that it is connected, and says whether it
    /// accepts. What is told to the sender of the command is the id, or the invalid one.
    pub fn end_connect(&mut self, reactorid: ReactorID, accepted: bool) -> (r: (
        CommandCompletion,
        StreamEnd<L, S, C>,
    ))
        requires
            old(self).wf(),
            old(self).mgr.live(reactorid),
            old(self).mgr@[reactorid.sockslot as usize] is StreamType,
        ensures
            final(self).wf(),
            final(self).deferred == old(self).deferred,
            r.0 == CommandCompletion::Completed(
                if accepted {
                    reactorid
                } else {
                    invalid_reactor_id()
                },
            ),
            r.0 == CommandCompletion::Completed(told_id(reactorid, accepted)),
            call_ended(old(self).mgr, reactorid, accepted, r.1, final(self).mgr),
            final(self).accum_sock_events == old(self).accum_sock_events,
            final(self).accum_commands == old(self).accum_commands,
    {
        let end = self.mgr.end_call(reactorid, accepted);
        let id = if accepted {
            reactorid
        } else {
            invalid_reactor_id()
        };
        (CommandCompletion::Completed(id), end)
    }

    /// A listener has been added, and its handler told that it listens. What is told to the sender of
    /// the command is its id.
    pub fn end_listen(&self, reactorid: ReactorID) -> (r: CommandCompletion)
        requires
            self.wf(),
            self.mgr.live(reactorid),
        ensures
            r == CommandCompletion::Completed(reactorid),
    {
        CommandCompletion::Completed(reactorid)
    }

    /// The reactor has been given a user command, and says whether it wants to stay. What is told to
    /// the sender of the command is the id, whatever it says.
    pub fn end_user_cmd(&mut self, reactorid: ReactorID, accepted: bool) -> (r: (
        CommandCompletion,
        StreamEnd<L, S, C>,
    ))
        requires
            old(self).wf(),
            user_cmd_error(old(self).mgr, reactorid) is None,
        ensures
            final(self).wf(),
            final(self).deferred == old(self).deferred,
            r.0 == CommandCompletion::Completed(reactorid),
            call_ended(old(self).mgr, reactorid, accepted, r.1, final(self).mgr),
            final(self).accum_sock_events == old(self).accum_sock_events,
            final(self).accum_commands == old(self).accum_commands,
    {
        let end = self.mgr.end_call(reactorid, accepted);
        (CommandCompletion::Completed(reactorid), end)
    }
}

/// What to do next while commands are being received.
#[derive(Debug, Clone, Copy, PartialEq, Eq, Structural)]
pub enum CommandStep {
    /// See whether a command has come, and process it.
    Receive,
    /// Stop: so many commands have been received.
    Done(usize),
}

/// One look for a command after `received` of at most `max_commands`: how many have been received
/// then, and what to do next.
pub open spec fn command_step(max_commands: usize, received: usize, found: bool) -> (
    usize,
    CommandStep,
) {
    let now = if found {
        (received + 1) as usize
    } else {
        received
    };
    (
        now,
        if found && now < max_commands {
            CommandStep::Receive
        } else {
            CommandStep::Done(now)
        },
    )
}

/// Receives commands until none is left, or as many as one round may take: so sockets and commands
/// that wait get their turn.
pub struct CommandRound {
    max_commands: usize,
    received: usize,
}

impl CommandRound {
    pub closed spec fn max_commands(&self) -> usize {
        self.max_commands
    }

    pub closed spec fn received(&self) -> usize {
        self.received
    }

    /// Starts a round of at most `max_commands` commands.
    pub fn start(max_commands: usize) -> (r: (Self, CommandStep))
        ensures
            r.0.max_commands() == max_commands,
            r.0.received() == 0,
            r.1 == if max_commands == 0 {
                CommandStep::Done(0)
            } else {
                CommandStep::Receive
            },
            (r.0.received(), r.1) == command_run(max_commands, Seq::empty()),
    {
        let step = if max_commands == 0 {
            CommandStep::Done(0)
        } else {
            CommandStep::Receive
        };
        (Self { max_commands, received: 0 }, step)
    }

    /// Takes whether a command had come.
    pub fn on_received(&mut self, found: bool) -> (r: CommandStep)
        requires
            old(self).received() < old(self).max_commands(),
        ensures
            final(self).max_commands() == old(self).max_commands(),
            (final(self).received(), r) == command_step(
                old(self).max_commands(),
                old(self).received(),
                found,
            ),
    {
        if !found {
            return CommandStep::Done(self.received);
        }
        self.received = self.received + 1;
        if self.received < self.max_commands {
            CommandStep::Receive
        } else {
            CommandStep::Done(self.received)
        }
    }
}

/// A round of looks for commands, each with whether one had come.
pub open spec fn command_run(max_commands: usize, found: Seq<bool>) -> (usize, CommandStep)
    decreases found.len(),
{
    if found.len() == 0 {
        (
            0,
            if max_commands == 0 {
                CommandStep::Done(0)
            } else {
                CommandStep::Receive
            },
        )
    } else {
        command_step(max_commands, command_run(max_commands, found.drop_last()).0, found.last())
    }
}

/// Each look is one that is asked for, and finds a command as long as one of the `waiting` is left.
pub open spec fn looks_fit(max_commands: usize, waiting: nat, found: Seq<bool>) -> bool
    decreases found.len(),
{
    found.len() == 0 || {
        &&& looks_fit(max_commands, waiting, found.drop_last())
        &&& command_run(max_commands, found.drop_last()).1 is Receive
        &&& found.last() == (found.len() <= waiting)
    }
}

/// Of `waiting` commands a round receives all, or as many as it may take, and says how many these
/// are.
pub proof fn law_command_round(max_commands: usize, waiting: nat, found: Seq<bool>)
    requires
        looks_fit(max_commands, waiting, found),
    ensures
        match command_run(max_commands, found) {
            (received, CommandStep::Receive) => received == found.len() && received <= waiting
                && received < max_commands,
            (received, CommandStep::Done(n)) => n == received && n == (if waiting < max_commands {
                waiting as int
            } else {
                max_commands as int
            }),
        },
    decreases found.len(),
{
    if found.len() > 0 {
        law_command_round(max_commands, waiting, found.drop_last());
    }
}

impl<L, S, C> ReactorMgr<L, S, C> {
    /// Whether a user command can be given to the reactor, or why not.
    pub fn check_user_cmd(&self, reactorid: ReactorID) -> (r: Result<(), String>)
        requires
            self.wf(),
        ensures
            match user_cmd_error(*self, reactorid) {
                None => r is Ok,
                Some(msg) => r matches Err(text) && text@ == msg,
            },
    {
        match self.get_slot(reactorid) {
            None => Err(
                text_id(
                    "Failed to execute user command on non existing socket with reactorid: ",
                    reactorid,
                ),
            ),
            Some(TcpSocketHandler::ListenerType(l)) => Err(
                text_ids(
                    "Listener cannot receive user command. cmd reactorid: ",
                    reactorid,
                    ", reactorid: ",
                    l.reactorid,
                ),
            ),
            Some(TcpSocketHandler::StreamType(s)) => if s.reactorid != reactorid {
                Err(
                    text_ids(
                        "Failed to execute user command with wrong cmd reactorid: ",
                        reactorid,
                        ", found: ",
                        s.reactorid,
                    ),
                )
            } else {
                Ok(())
            },
        }
    }
}

/// A command that is received is executed at once exactly if it asks for no time, or its time has
/// come: not before that time, and at the latest a millisecond after it. Otherwise it waits in the
/// queue, with its time, and all others wait on.
pub proof fn law_commands_are_held<LH, R, U, K>(
    before: Multiset<(i64, CmdData<LH, R, U, K>)>,
    cmddata: CmdData<LH, R, U, K>,
    now_nanos: i64,
    r: Option<CmdData<LH, R, U, K>>,
    after: Multiset<(i64, CmdData<LH, R, U, K>)>,
)
    requires
        command_received(before, cmddata, now_nanos, r, after),
    ensures
        cmddata.deferred is Immediate ==> r == Some(cmddata),
        cmddata.deferred matches Deferred::UtilTime(millis) ==> {
            &&& r is Some ==> now_nanos >= millis * 1_000_000
            &&& now_nanos >= (millis + 1) * 1_000_000 ==> r is Some
            &&& r is None ==> after.count((millis, cmddata)) == before.count((millis, cmddata)) + 1
        },
        r is Some ==> r == Some(cmddata) && after == before,
        forall|other: (i64, CmdData<LH, R, U, K>)|
            #![trigger after.count(other)]
            other.1 != cmddata ==> after.count(other) == before.count(other),
{
    broadcast use vstd::multiset::group_multiset_axioms;

}

/// A user command can be given to exactly those reactors that are live and have a stream: a reactor
/// that is gone gets none, also when its slot is in use again.
pub proof fn law_user_commands_find_their_reactor<L, S, C>(mgr: ReactorMgr<L, S, C>, id: ReactorID)
    ensures
        user_cmd_error(mgr, id) is None <==> mgr.live(id) && mgr@[id.sockslot as usize] is StreamType,
        user_cmd_error(mgr, id) is None ==> (mgr@[id.sockslot as usize] matches
            TcpSocketHandler::StreamType(data) && data.reactorid.sockslot == id.sockslot
            && data.reactorid.ver == id.ver),
        !mgr@.contains_key(id.sockslot as usize) ==> user_cmd_error(mgr, id) == Some(
            "Failed to execute user command on non existing socket with reactorid: "@ + id_text(id),
        ),
        mgr@.contains_key(id.sockslot as usize) ==> (mgr@[id.sockslot as usize] matches
            TcpSocketHandler::ListenerType(data) ==> user_cmd_error(mgr, id) == Some(
            "Listener cannot receive user command. cmd reactorid: "@ + id_text(id)
                + ", reactorid: "@ + id_text(data.reactorid),
        )),
        mgr@.contains_key(id.sockslot as usize) ==> (mgr@[id.sockslot as usize] matches
            TcpSocketHandler::StreamType(data) ==> (data.reactorid.ver != id.ver ==> user_cmd_error(
            mgr,
            id,
        ) == Some(
            "Failed to execute user command with wrong cmd reactorid: "@ + id_text(id)
                + ", found: "@ + id_text(data.reactorid),
        ))),
{
}

/// What executing a command means. A user command is delivered exactly if its reactor is live and has
/// a stream, and otherwise answered with an error. A command to close takes out the socket of the id if
/// it is live, which is told, and otherwise is an error and changes nothing. Commands to connect and to
/// listen are handed on as they are. Only closing changes the sockets.
pub proof fn law_commands_executed<L, S, C, LH, R, U, K>(
    before: ReactorMgr<L, S, C>,
    cmddata: CmdData<LH, R, U, K>,
    r: CmdStep<L, S, C, LH, R, U, K>,
    after: ReactorMgr<L, S, C>,
)
    requires
        command_executed(before, cmddata, r, after),
        cmddata.cmd is CloseSocket || after == before,
    ensures
        ({
            let id = cmddata.reactorid;
            let slot = id.sockslot as usize;
            match cmddata.cmd {
                SysCommand::UserCmd(cmd) => {
                    &&& r is Deliver <==> before.live(id) && before@[slot] is StreamType
                    &&& r matches CmdStep::Deliver { reactorid, cmd: given, completion }
                        ==> reactorid == id && given == cmd && completion == cmddata.completion
                    &&& !(r is Deliver) ==> (r matches CmdStep::Done { completion, result, closed }
                        && completion == cmddata.completion && result is Error && closed is None)
                    &&& after == before
                },
                SysCommand::CloseSocket => {
                    &&& r matches CmdStep::Done { completion, result, closed }
                    &&& completion == cmddata.completion
                    &&& before.live(id) ==> {
                        &&& result == CommandCompletion::Completed(id)
                        &&& closed == Some(before@[slot])
                        &&& !after@.contains_key(slot)
                        &&& forall|other: usize|
                            #![trigger after@[other]]
                            other != slot && before@.contains_key(other) ==> after@.contains_key(
                                other,
                            ) && after@[other] == before@[other]
                    }
                    &&& !before.live(id) ==> result is Error && closed is None && after == before
                },
                SysCommand::NewConnect(reactor, addr, min) => r matches CmdStep::Connect {
                    reactor: given,
                    remote_addr,
                    recv_buffer_min_size,
                    completion,
                } && given == reactor && remote_addr == addr && recv_buffer_min_size == min
                    && completion == cmddata.completion,
                SysCommand::NewListen(listener, addr) => r matches CmdStep::Listen {
                    listener: given,
                    local_addr,
                    completion,
                } && given == listener && local_addr == addr && completion == cmddata.completion,
            }
        }),
{
    law_user_commands_find_their_reactor(before, cmddata.reactorid);
}

/// A runtime can go exactly when a round brought no event and no command, no command waits and no
/// socket is left.
pub proof fn law_runtime_ends(sock_events: nat, cmds: nat, deferred: nat, sockets: nat)
    ensures
        !goes_on(sock_events, cmds, deferred, sockets) <==> sock_events + cmds + deferred + sockets
            == 0,
{
}

/// The sender of a command to connect is told the id of the new reactor if it accepts the connection,
/// and otherwise the id with both numbers the largest, which no reactor has.
pub proof fn law_told_ids(id: ReactorID, accepted: bool)
    ensures
        accepted ==> told_id(id, accepted) == id,
        !accepted ==> told_id(id, accepted).sockslot == 0xffff_ffff && told_id(id, accepted).ver
            == 0xffff_ffff,
{
}

/// A deferred command is executed only when its time has come, and before all that are due later. None
/// is executed only if none is due: no time has passed by a millisecond.
pub proof fn law_deferred_commands_in_time<T>(
    before: Multiset<(i64, T)>,
    now_nanos: i64,
    r: Option<T>,
    after: Multiset<(i64, T)>,
)
    requires
        deferred_taken(before, now_nanos, r, after),
    ensures
        match r {
            Some(cmddata) => exists|millis: i64|
                {
                    &&& before.count((millis, cmddata)) > 0
                    &&& now_nanos >= millis * 1_000_000
                    &&& #[trigger] after.count((millis, cmddata)) == before.count((millis, cmddata))
                        - 1
                    &&& forall|other: (i64, T)| #[trigger]
                        after.count(other) > 0 ==> millis <= other.0
                },
            None => after == before && forall|other: (i64, T)| #[trigger]
                before.count(other) > 0 ==> now_nanos < (other.0 + 1) * 1_000_000,
        },
{
    match r {
        Some(cmddata) => {
            let millis = choose|millis: i64| #[trigger]
                pop_answers(before, now_nanos, Some((millis, cmddata)), after);
            law_commands_wait_for_their_time(before, now_nanos, Some((millis, cmddata)), after);
            assert(after.count((millis, cmddata)) == before.count((millis, cmddata)) - 1);
        },
        None => {
            law_commands_wait_for_their_time(before, now_nanos, None, after);
        },
    }
}

} // verus!
