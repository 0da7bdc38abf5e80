use reactio::command::{CmdData, CmdSender, CommandCompletion, Deferred, SysCommand};
use reactio::reactor::StreamEnd;
use reactio::reactor_id::{invalid_reactor_id, ReactorID};
use reactio::runtime::{
    connect_failed, listen_failed, CmdStep, CommandRound, CommandStep, ReactRuntime,
};
use reactio::sock_table::TcpSocketHandler;

type Runtime = ReactRuntime<&'static str, &'static str, (), u8, char, String, u32>;
type Cmd = CmdData<u8, char, String, u32>;

fn text(completion: CommandCompletion) -> String {
    match completion {
        CommandCompletion::Error(text) => text,
        CommandCompletion::Completed(id) => format!("completed {}", id.to_text()),
    }
}

fn done(step: CmdStep<&'static str, &'static str, (), u8, char, String, u32>) -> (u32, String, bool) {
    match step {
        CmdStep::Done {
            completion,
            result,
            closed,
        } => (completion, text(result), closed.is_some()),
        _ => panic!("not done"),
    }
}

fn user_cmd(id: ReactorID, cmd: &str, completion: u32) -> Cmd {
    CmdData::new(
        id,
        SysCommand::UserCmd(cmd.to_owned()),
        Deferred::Immediate,
        completion,
    )
    .unwrap()
}

#[test]
fn commands_for_the_wrong_id_are_refused() {
    let id = ReactorID { sockslot: 1, ver: 1 };
    for cmd in [
        SysCommand::NewConnect('r', "addr".to_owned(), 8),
        SysCommand::NewListen(1, "addr".to_owned()),
    ] {
        let res = Cmd::new(id, cmd, Deferred::Immediate, 0);
        assert_eq!(
            res.err().unwrap(),
            "reactorid msut be INVALID_REACTOR_ID if NewConnect/NewListen"
        );
    }
    let res = Cmd::new(
        invalid_reactor_id(),
        SysCommand::UserCmd("x".to_owned()),
        Deferred::Immediate,
        0,
    );
    assert_eq!(res.err().unwrap(), "UserCmd must has a valid reactorid.");
    let res = Cmd::new(
        invalid_reactor_id(),
        SysCommand::CloseSocket,
        Deferred::Immediate,
        0,
    );
    assert!(res.is_ok());
}

#[test]
fn commands_go_through_the_channel() {
    let (tx, rx) = std::sync::mpsc::channel::<Cmd>();
    let sender = CmdSender::new(tx);
    let other = sender.clone();
    let id = ReactorID { sockslot: 3, ver: 4 };
    sender
        .send_connect("host:1", 64, 'r', Deferred::UtilTime(5), 10)
        .unwrap();
    other
        .send_listen("host:2", 9, Deferred::Immediate, 11)
        .unwrap();
    sender.send_close(id, Deferred::Immediate, 12).unwrap();
    other
        .send_user_cmd(id, "hello".to_owned(), Deferred::Immediate, 13)
        .unwrap();
    assert_eq!(
        sender.send_user_cmd(
            invalid_reactor_id(),
            "hello".to_owned(),
            Deferred::Immediate,
            14
        ),
        Err("UserCmd must has a valid reactorid.".to_owned())
    );
    let got = rx.try_recv().unwrap();
    assert_eq!(got.reactorid, invalid_reactor_id());
    assert_eq!(got.deferred, Deferred::UtilTime(5));
    assert_eq!(got.completion, 10);
    match got.cmd {
        SysCommand::NewConnect('r', addr, 64) => assert_eq!(addr, "host:1"),
        _ => panic!("no connect"),
    }
    match rx.try_recv().unwrap().cmd {
        SysCommand::NewListen(9, addr) => assert_eq!(addr, "host:2"),
        _ => panic!("no listen"),
    }
    let got = rx.try_recv().unwrap();
    assert_eq!((got.reactorid, got.completion), (id, 12));
    assert!(matches!(got.cmd, SysCommand::CloseSocket));
    match rx.try_recv().unwrap().cmd {
        SysCommand::UserCmd(cmd) => assert_eq!(cmd, "hello"),
        _ => panic!("no user command"),
    }
    assert!(rx.try_recv().is_err());
    drop(rx);
    assert_eq!(
        sender.send_close(id, Deferred::Immediate, 15),
        Err("Failed to send. Receiver disconnected.".to_owned())
    );
}

#[test]
fn deferred_commands_wait_for_their_time() {
    let mut runtime = Runtime::new();
    let cmd = |millis: i64, completion: u32| {
        CmdData::connect("a", 8, 'r', Deferred::UtilTime(millis), completion)
    };
    let now = 1_000_000_000;
    let immediate = CmdData::listen("a", 1, Deferred::Immediate, 1);
    assert_eq!(
        runtime.process_command_queue(immediate, now).unwrap().completion,
        1
    );
    assert_eq!(
        runtime.process_command_queue(cmd(999, 2), now).unwrap().completion,
        2
    );
    assert!(runtime.process_command_queue(cmd(1002, 3), now).is_none());
    assert!(runtime.process_command_queue(cmd(1000, 4), now).is_none());
    assert!(runtime.process_command_queue(cmd(1001, 5), now).is_none());
    assert_eq!(runtime.count_deferred_queue(), 3);
    assert!(runtime.process_deferred_queue(now).is_none());
    assert!(runtime.process_deferred_queue(now + 499_999).is_none());
    let later = now + 1_500_000;
    assert_eq!(runtime.process_deferred_queue(later).unwrap().completion, 4);
    assert_eq!(runtime.process_deferred_queue(later).unwrap().completion, 5);
    assert!(runtime.process_deferred_queue(later).is_none());
    assert_eq!(runtime.count_deferred_queue(), 1);
    assert!(runtime.process_events_with(0, 0));
    assert_eq!(
        runtime.process_deferred_queue(now + 5_000_000).unwrap().completion,
        3
    );
    assert!(!runtime.process_events_with(0, 0));
}

#[test]
fn runtime_goes_on_while_there_is_anything() {
    let mut runtime = Runtime::new();
    assert!(!runtime.process_events_with(0, 0));
    assert!(runtime.process_events_with(2, 0));
    assert!(runtime.process_events_with(0, 3));
    assert_eq!(runtime.count_sock_events(), 2);
    assert_eq!(runtime.count_received_commands(), 3);
    let (id, _) = runtime.mgr.add_listener("l");
    assert!(runtime.process_events_with(0, 0));
    assert_eq!((runtime.count_reactors(), runtime.count_streams()), (1, 0));
    runtime.mgr.close_reactor(id);
    assert!(!runtime.process_events_with(0, 0));
}

#[test]
fn connect_and_listen_are_left_to_the_caller() {
    let mut runtime = Runtime::new();
    match runtime.execute_immediate_cmd(CmdData::connect("h:1", 32, 'r', Deferred::Immediate, 5)) {
        CmdStep::Connect {
            reactor,
            remote_addr,
            recv_buffer_min_size,
            completion,
        } => assert_eq!(
            (reactor, remote_addr.as_str(), recv_buffer_min_size, completion),
            ('r', "h:1", 32, 5)
        ),
        _ => panic!("no connect"),
    }
    match runtime.execute_immediate_cmd(CmdData::listen("h:2", 7, Deferred::Immediate, 6)) {
        CmdStep::Listen {
            listener,
            local_addr,
            completion,
        } => assert_eq!((listener, local_addr.as_str(), completion), (7, "h:2", 6)),
        _ => panic!("no listen"),
    }
    assert_eq!(
        text(connect_failed("h:1", "refused")),
        "Failed to connect to h:1. Error: refused"
    );
    assert_eq!(
        text(listen_failed("h:2", "in use")),
        "Failed to listen on h:2. Error: in use"
    );
}

#[test]
fn accepted_and_rejected_connections_are_told() {
    let mut runtime = Runtime::new();
    let (id, _) = runtime.mgr.add_stream(8, "s");
    let (result, end) = runtime.end_connect(id, true);
    assert_eq!(text(result), "completed 0:1");
    assert!(matches!(end, StreamEnd::Kept(None)));
    let (result, end) = runtime.end_connect(id, false);
    assert_eq!(text(result), "completed 4294967295:4294967295");
    assert!(matches!(
        end,
        StreamEnd::Closed(TcpSocketHandler::StreamType(_))
    ));
    assert_eq!(runtime.count_reactors(), 0);
}

#[test]
fn close_command_takes_the_socket_out() {
    let mut runtime = Runtime::new();
    let (id, _) = runtime.mgr.add_stream(8, "s");
    let close = |completion: u32| {
        Cmd::new(id, SysCommand::CloseSocket, Deferred::Immediate, completion).unwrap()
    };
    assert_eq!(
        done(runtime.execute_immediate_cmd(close(1))),
        (1, "completed 0:1".to_owned(), true)
    );
    assert_eq!(
        done(runtime.execute_immediate_cmd(close(2))),
        (
            2,
            "Failed to remove non existing socket with reactorid: 0:1".to_owned(),
            false
        )
    );
}

#[test]
fn user_commands_go_to_streams_that_are_there() {
    let mut runtime = Runtime::new();
    let (listener, _) = runtime.mgr.add_listener("l");
    let (stream, _) = runtime.mgr.add_stream(8, "s");
    match runtime.execute_immediate_cmd(user_cmd(stream, "go", 1)) {
        CmdStep::Deliver {
            reactorid,
            cmd,
            completion,
        } => assert_eq!((reactorid, cmd.as_str(), completion), (stream, "go", 1)),
        _ => panic!("not delivered"),
    }
    assert_eq!(
        done(runtime.execute_immediate_cmd(user_cmd(listener, "go", 2))).1,
        "Listener cannot receive user command. cmd reactorid: 0:1, reactorid: 0:1"
    );
    let stale = ReactorID { sockslot: 1, ver: 9 };
    assert_eq!(
        done(runtime.execute_immediate_cmd(user_cmd(stale, "go", 3))).1,
        "Failed to execute user command with wrong cmd reactorid: 1:9, found: 1:2"
    );
    let gone = ReactorID { sockslot: 8, ver: 9 };
    assert_eq!(
        done(runtime.execute_immediate_cmd(user_cmd(gone, "go", 4))),
        (
            4,
            "Failed to execute user command on non existing socket with reactorid: 8:9".to_owned(),
            false
        )
    );
    assert_eq!(runtime.count_reactors(), 2);
}

#[test]
fn round_receives_no_more_commands_than_it_may() {
    for (waiting, max_commands) in [(0, 0), (3, 0), (0, 2), (1, 2), (2, 2), (5, 2), (5, 32)] {
        let mut left = waiting;
        let (mut round, mut step) = CommandRound::start(max_commands);
        while step == CommandStep::Receive {
            let found = left > 0;
            if found {
                left -= 1;
            }
            step = round.on_received(found);
        }
        let received = waiting.min(max_commands);
        assert_eq!(step, CommandStep::Done(received));
        assert_eq!(left, waiting - received);
    }
}

#[test]
fn listening_and_user_commands_are_told_by_id() {
    let mut runtime: ReactRuntime<&str, &str, (), u8, char, String, u32> = ReactRuntime::new();
    let (listener, _) = runtime.mgr.add_listener("l");
    assert!(matches!(
        runtime.end_listen(listener),
        CommandCompletion::Completed(id) if id == listener
    ));
    let (stream, _) = runtime.mgr.add_stream(16, "s");
    let (told, end) = runtime.end_user_cmd(stream, true);
    assert!(matches!(told, CommandCompletion::Completed(id) if id == stream));
    assert!(matches!(end, StreamEnd::Kept(None)));
    let (told, end) = runtime.end_user_cmd(stream, false);
    assert!(matches!(told, CommandCompletion::Completed(id) if id == stream));
    assert!(matches!(end, StreamEnd::Closed(_)));
    assert_eq!(runtime.count_reactors(), 1);
}
