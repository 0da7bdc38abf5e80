//! Commands to a runtime and its reactors.

use crate::reactor_id::{invalid_reactor_id, ReactorID};
use std::sync::mpsc::Sender;
use vstd::prelude::*;

verus! {

/// When a command is to be executed.
#[derive(Debug, Clone, Copy, PartialEq, Eq, Structural)]
pub enum Deferred {
    Immediate,
    /// Not before this time, in milliseconds since the epoch.
    UtilTime(i64),
}

/// What came of a command.
#[derive(Debug)]
pub enum CommandCompletion {
    /// The command has been executed.
    Completed(ReactorID),
    /// The command was not executed due to an error.
    Error(String),
}

/// A command: `L` is the handler of a listener, `R` a reactor, `U` what users send to reactors.
#[derive(Debug)]
pub enum SysCommand<L, R, U> {
    /// Connect to an address; the reader of the reactor reserves the given size.
    NewConnect(R, String, usize),
    /// Listen on an address.
    NewListen(L, String),
    CloseSocket,
    UserCmd(U),
}

/// A command on its way: to which reactor, when, and `K` to be told what came of it.
#[derive(Debug)]
pub struct CmdData<L, R, U, K> {
    pub reactorid: ReactorID,
    pub cmd: SysCommand<L, R, U>,
    pub deferred: Deferred,
    pub completion: K,
}

/// New sockets have no id yet, and user commands are for a reactor.
pub open spec fn cmd_error<L, R, U>(reactorid: ReactorID, cmd: SysCommand<L, R, U>) -> Option<
    Seq<char>,
> {
    match cmd {
        SysCommand::NewListen(_, _) | SysCommand::NewConnect(_, _, _) => if reactorid
            != invalid_reactor_id() {
            Some("reactorid msut be INVALID_REACTOR_ID if NewConnect/NewListen"@)
        } else {
            None
        },
        SysCommand::UserCmd(_) => if reactorid == invalid_reactor_id() {
            Some("UserCmd must has a valid reactorid."@)
        } else {
            None
        },
        SysCommand::CloseSocket => None,
    }
}

impl<L, R, U, K> CmdData<L, R, U, K> {
    /// The command can be executed: it has been accepted by `new`.
    pub open spec fn valid(&self) -> bool {
        cmd_error(self.reactorid, self.cmd) is None
    }

    /// A command as it is sent, or why it cannot be.
    pub fn new(
        reactorid: ReactorID,
        cmd: SysCommand<L, R, U>,
        deferred: Deferred,
        completion: K,
    ) -> (r: Result<Self, String>)
        ensures
            match cmd_error(reactorid, cmd) {
                Some(msg) => r matches Err(err) && err@ == msg,
                None => r == Ok::<Self, String>(CmdData { reactorid, cmd, deferred, completion }),
            },
    {
        match &cmd {
            SysCommand::NewListen(_, _) | SysCommand::NewConnect(_, _, _) => {
                if reactorid != invalid_reactor_id() {
                    return Err(
                        "reactorid msut be INVALID_REACTOR_ID if NewConnect/NewListen".to_owned(),
                    );
                }
            },
            SysCommand::UserCmd(_) => {
                if reactorid == invalid_reactor_id() {
                    return Err("UserCmd must has a valid reactorid.".to_owned());
                }
            },
            SysCommand::CloseSocket => {},
        }
        Ok(CmdData { reactorid, cmd, deferred, completion })
    }

    /// This is the command to connect to an address.
    pub open spec fn connects(
        &self,
        remote_addr: Seq<char>,
        recv_buffer_min_size: usize,
        reactor: R,
        deferred: Deferred,
        completion: K,
    ) -> bool {
        &&& self.reactorid == invalid_reactor_id()
        &&& self.cmd matches SysCommand::NewConnect(a_reactor, addr, min)
        &&& a_reactor == reactor
        &&& addr@ == remote_addr
        &&& min == recv_buffer_min_size
        &&& self.deferred == deferred
        &&& self.completion == completion
    }

    /// This is the command to listen on an address.
    pub open spec fn listens(
        &self,
        local_addr: Seq<char>,
        listener: L,
        deferred: Deferred,
        completion: K,
    ) -> bool {
        &&& self.reactorid == invalid_reactor_id()
        &&& self.cmd matches SysCommand::NewListen(a_listener, addr)
        &&& a_listener == listener
        &&& addr@ == local_addr
        &&& self.deferred == deferred
        &&& self.completion == completion
    }

    /// The command to connect to an address.
    pub fn connect(
        remote_addr: &str,
        recv_buffer_min_size: usize,
        reactor: R,
        deferred: Deferred,
        completion: K,
    ) -> (r: Self)
        ensures
            r.valid(),
            r.connects(remote_addr@, recv_buffer_min_size, reactor, deferred, completion),
    {
        CmdData {
            reactorid: invalid_reactor_id(),
            cmd: SysCommand::NewConnect(reactor, remote_addr.to_owned(), recv_buffer_min_size),
            deferred,
            completion,
        }
    }

    /// The command to listen on an address.
    pub fn listen(local_addr: &str, listener: L, deferred: Deferred, completion: K) -> (r: Self)
        ensures
            r.valid(),
            r.listens(local_addr@, listener, deferred, completion),
    {
        CmdData {
            reactorid: invalid_reactor_id(),
            cmd: SysCommand::NewListen(listener, local_addr.to_owned()),
            deferred,
            completion,
        }
    }
}

/// The sending half of a channel.
#[verifier::external_type_specification]
#[verifier::external_body]
#[verifier::reject_recursive_types(T)]
pub struct ExSender<T>(Sender<T>);

/// `std::sync::mpsc::Sender::send`: whether the value was sent, which it is not when there is no
/// receiver any more. That rests with the other end of the channel, so nothing is claimed of it.
#[verifier::external_body]
fn channel_send<T>(sender: &Sender<T>, value: T) -> (r: bool) {
    sender.send(value).is_ok()
}

/// `std::sync::mpsc::Sender::clone`: another sender of the same channel. Nothing is claimed of it: a
/// channel has no value that two senders could be compared by.
#[verifier::external_body]
fn channel_clone<T>(sender: &Sender<T>) -> (r: Sender<T>) {
    sender.clone()
}

/// Sends commands to the reactors of one runtime.
#[verifier::reject_recursive_types(L)]
#[verifier::reject_recursive_types(R)]
#[verifier::reject_recursive_types(U)]
#[verifier::reject_recursive_types(K)]
pub struct CmdSender<L, R, U, K>(Sender<CmdData<L, R, U, K>>);

/// The one channel was made by cloning the other.
pub closed spec fn channel_cloned<T>(channel: Sender<T>, clone: Sender<T>) -> bool {
    call_ensures(channel_clone::<T>, (&channel,), clone)
}

impl<L, R, U, K> Clone for CmdSender<L, R, U, K> {
    /// Another sender of commands to the same runtime.
    fn clone(&self) -> (r: Self)
        ensures
            channel_cloned(self.channel(), r.channel()),
    {
        CmdSender(channel_clone(&self.0))
    }
}

/// The value was handed to the channel, which took it or not.
pub closed spec fn handed_over<T>(channel: Sender<T>, value: T, taken: bool) -> bool {
    call_ensures(channel_send::<T>, (&channel, value), taken)
}

impl<L, R, U, K> CmdSender<L, R, U, K> {
    /// The channel that commands are sent through.
    pub closed spec fn channel(&self) -> Sender<CmdData<L, R, U, K>> {
        self.0
    }

    /// The command was handed to the channel, and the result is whether the channel took it. It does
    /// not where the receiver has gone.
    pub open spec fn sent(&self, data: CmdData<L, R, U, K>, r: Result<(), String>) -> bool {
        &&& handed_over(self.channel(), data, r is Ok)
        &&& r matches Err(err) ==> err@ == "Failed to send. Receiver disconnected."@
    }

    /// Sends through the given channel.
    pub fn new(sender: Sender<CmdData<L, R, U, K>>) -> (r: Self)
        ensures
            r.channel() == sender,
    {
        CmdSender(sender)
    }

    /// Hands a command to the channel.
    fn send(&self, data: CmdData<L, R, U, K>) -> (r: Result<(), String>)
        ensures
            self.sent(data, r),
    {
        let ghost value = data;
        let taken = channel_send(&self.0, data);
        assert(handed_over(self.channel(), value, taken));
        if taken {
            Ok(())
        } else {
            Err("Failed to send. Receiver disconnected.".to_owned())
        }
    }

    /// Sends a command, if it is accepted. Otherwise it is refused with the reason.
    pub fn send_cmd(
        &self,
        reactorid: ReactorID,
        cmd: SysCommand<L, R, U>,
        deferred: Deferred,
        completion: K,
    ) -> (r: Result<(), String>)
        ensures
            match cmd_error(reactorid, cmd) {
                Some(msg) => r matches Err(err) && err@ == msg,
                None => self.sent(CmdData { reactorid, cmd, deferred, completion }, r),
            },
            command_sent(*self, reactorid, cmd, deferred, completion, r),
    {
        match CmdData::new(reactorid, cmd, deferred, completion) {
            Err(err) => Err(err),
            Ok(data) => self.send(data),
        }
    }

    /// Sends a command to connect to an address. The reactor receives messages once connected.
    pub fn send_connect(
        &self,
        remote_addr: &str,
        recv_buffer_min_size: usize,
        reactor: R,
        deferred: Deferred,
        completion: K,
    ) -> (r: Result<(), String>)
        ensures
            exists|data: CmdData<L, R, U, K>|
                data.connects(remote_addr@, recv_buffer_min_size, reactor, deferred, completion)
                    && #[trigger] self.sent(data, r),
    {
        self.send(CmdData::connect(remote_addr, recv_buffer_min_size, reactor, deferred, completion))
    }

    /// Sends a command to listen on an address.
    pub fn send_listen(&self, local_addr: &str, listener: L, deferred: Deferred, completion: K) -> (r:
        Result<(), String>)
        ensures
            exists|data: CmdData<L, R, U, K>|
                data.listens(local_addr@, listener, deferred, completion) && #[trigger] self.sent(
                    data,
                    r,
                ),
    {
        self.send(CmdData::listen(local_addr, listener, deferred, completion))
    }

    /// Sends a command to close a reactor and its socket.
    pub fn send_close(&self, reactorid: ReactorID, deferred: Deferred, completion: K) -> (r: Result<
        (),
        String,
    >)
        ensures
            self.sent(
                CmdData { reactorid, cmd: SysCommand::CloseSocket, deferred, completion },
                r,
            ),
            command_sent(
                *self,
                reactorid,
                SysCommand::<L, R, U>::CloseSocket,
                deferred,
                completion,
                r,
            ),
    {
        self.send_cmd(reactorid, SysCommand::CloseSocket, deferred, completion)
    }

    /// Sends a user command to a reactor. Whether the reactor exists is found out when the command is
    /// executed.
    pub fn send_user_cmd(&self, reactorid: ReactorID, cmd: U, deferred: Deferred, completion: K) -> (r:
        Result<(), String>)
        ensures
            if reactorid == invalid_reactor_id() {
                r matches Err(err) && err@ == "UserCmd must has a valid reactorid."@
            } else {
                self.sent(
                    CmdData { reactorid, cmd: SysCommand::UserCmd(cmd), deferred, completion },
                    r,
                )
            },
            command_sent(
                *self,
                reactorid,
                SysCommand::<L, R, U>::UserCmd(cmd),
                deferred,
                completion,
                r,
            ),
    {
        self.send_cmd(reactorid, SysCommand::UserCmd(cmd), deferred, completion)
    }
}

/// A command for a new socket is accepted exactly with the id whose two numbers are the largest, a
/// user command with every other, and a command to close with any.
pub proof fn law_accepted_commands<L, R, U, K>(data: CmdData<L, R, U, K>)
    ensures
        ({
            let unset = data.reactorid.sockslot == 0xffff_ffff && data.reactorid.ver
                == 0xffff_ffff;
            data.valid() == match data.cmd {
                SysCommand::NewConnect(_, _, _) => unset,
                SysCommand::NewListen(_, _) => unset,
                SysCommand::UserCmd(_) => !unset,
                SysCommand::CloseSocket => true,
            }
        }),
        match cmd_error(data.reactorid, data.cmd) {
            None => data.valid(),
            Some(text) => !data.valid() && text == (if data.cmd is UserCmd {
                "UserCmd must has a valid reactorid."@
            } else {
                "reactorid msut be INVALID_REACTOR_ID if NewConnect/NewListen"@
            }),
        },
{
}

/// A command to connect holds the address, the size and the reactor that it was made with, and is for
/// no reactor that is there; and so is one to listen. Both are to be executed when it was asked for.
pub proof fn law_commands_hold_what_was_asked<L, R, U, K>(
    data: CmdData<L, R, U, K>,
    addr: Seq<char>,
    min: usize,
    reactor: R,
    listener: L,
    deferred: Deferred,
    completion: K,
)
    ensures
        data.connects(addr, min, reactor, deferred, completion) <==> {
            &&& data.reactorid.sockslot == 0xffff_ffff && data.reactorid.ver == 0xffff_ffff
            &&& data.cmd matches SysCommand::NewConnect(a_reactor, to, size)
            &&& a_reactor == reactor && to@ == addr && size == min
            &&& data.deferred == deferred && data.completion == completion
        },
        data.listens(addr, listener, deferred, completion) <==> {
            &&& data.reactorid.sockslot == 0xffff_ffff && data.reactorid.ver == 0xffff_ffff
            &&& data.cmd matches SysCommand::NewListen(a_listener, at)
            &&& a_listener == listener && at@ == addr
            &&& data.deferred == deferred && data.completion == completion
        },
{
}

/// A command is handed to the channel as it is, and the result is whether the channel took it.
pub proof fn law_commands_are_handed_over<L, R, U, K>(
    sender: CmdSender<L, R, U, K>,
    data: CmdData<L, R, U, K>,
    r: Result<(), String>,
)
    requires
        sender.sent(data, r),
    ensures
        handed_over(sender.channel(), data, r is Ok),
        r matches Err(err) ==> err@ == "Failed to send. Receiver disconnected."@,
{
}

/// What sending a command comes to.
pub open spec fn command_sent<L, R, U, K>(
    sender: CmdSender<L, R, U, K>,
    reactorid: ReactorID,
    cmd: SysCommand<L, R, U>,
    deferred: Deferred,
    completion: K,
    r: Result<(), String>,
) -> bool {
    match cmd_error(reactorid, cmd) {
        Some(msg) => r matches Err(err) && err@ == msg,
        None => sender.sent(CmdData { reactorid, cmd, deferred, completion }, r),
    }
}

/// A command that is accepted is handed to the channel with the id, the time and the completion that
/// it was sent with. A user command is refused exactly for the id with both numbers the largest, and a
/// command to close for none.
pub proof fn law_commands_sent<L, R, U, K>(
    sender: CmdSender<L, R, U, K>,
    reactorid: ReactorID,
    cmd: SysCommand<L, R, U>,
    deferred: Deferred,
    completion: K,
    r: Result<(), String>,
)
    requires
        command_sent(sender, reactorid, cmd, deferred, completion, r),
    ensures
        ({
            let unset = reactorid.sockslot == 0xffff_ffff && reactorid.ver == 0xffff_ffff;
            let accepted = match cmd {
                SysCommand::NewConnect(_, _, _) => unset,
                SysCommand::NewListen(_, _) => unset,
                SysCommand::UserCmd(_) => !unset,
                SysCommand::CloseSocket => true,
            };
            if accepted {
                handed_over(
                    sender.channel(),
                    CmdData { reactorid, cmd, deferred, completion },
                    r is Ok,
                )
            } else {
                r is Err
            }
        }),
{
}

} // verus!
