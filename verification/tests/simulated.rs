//! A runtime over pipes in memory, which are small, so that messages are cut and have to wait.

use reactio::command::{CmdData, CmdSender, CommandCompletion, Deferred};
use reactio::event_pass::{EventAction, EventPass};
use reactio::msg_reader::{MessageResult, MsgDispatcher, ReadStep};
use reactio::msg_sender::{AutoSendBuffer, MsgSender, SendProgress, SendStep};
use reactio::reactor::{ListenerData, ListenerEnd, SockData, StreamEnd};
use reactio::reactor_id::{invalid_reactor_id, ReactorID};
use reactio::runtime::{connect_failed, CmdStep, ReactRuntime};
use reactio::sample::{ConnectedStep, EchoStep, MyReactor};
use reactio::sock_table::TcpSocketHandler;
use reactio::socket_io::{Interest, IoErrorKind, SockEvent};
use std::cell::RefCell;
use std::collections::{BTreeMap, VecDeque};
use std::rc::Rc;
use std::sync::mpsc::{channel, Receiver};

const CAPACITY: usize = 7;

#[derive(Default)]
struct Pipe {
    bytes: VecDeque<u8>,
    reader_gone: bool,
    writer_gone: bool,
}

struct Sock {
    input: Rc<RefCell<Pipe>>,
    output: Rc<RefCell<Pipe>>,
}

impl Sock {
    fn pair() -> (Sock, Sock) {
        let (a, b) = (
            Rc::new(RefCell::new(Pipe::default())),
            Rc::new(RefCell::new(Pipe::default())),
        );
        (
            Sock {
                input: a.clone(),
                output: b.clone(),
            },
            Sock {
                input: b,
                output: a,
            },
        )
    }

    fn read(&mut self, buf: &mut [u8]) -> Result<usize, IoErrorKind> {
        let mut pipe = self.input.borrow_mut();
        if pipe.bytes.is_empty() {
            return if pipe.writer_gone {
                Ok(0)
            } else {
                Err(IoErrorKind::WouldBlock)
            };
        }
        let n = buf.len().min(pipe.bytes.len());
        for b in buf[..n].iter_mut() {
            *b = pipe.bytes.pop_front().unwrap();
        }
        Ok(n)
    }

    fn write(&mut self, buf: &[u8]) -> Result<usize, IoErrorKind> {
        let mut pipe = self.output.borrow_mut();
        if pipe.reader_gone {
            return Err(IoErrorKind::ConnectionReset);
        }
        let n = buf.len().min(CAPACITY - pipe.bytes.len());
        if n == 0 {
            return Err(IoErrorKind::WouldBlock);
        }
        pipe.bytes.extend(&buf[..n]);
        Ok(n)
    }

    fn readable(&self) -> bool {
        let pipe = self.input.borrow();
        !pipe.bytes.is_empty() || pipe.writer_gone
    }

    fn writable(&self) -> bool {
        let pipe = self.output.borrow();
        pipe.bytes.len() < CAPACITY || pipe.reader_gone
    }
}

impl Drop for Sock {
    fn drop(&mut self) {
        self.input.borrow_mut().reader_gone = true;
        self.output.borrow_mut().writer_gone = true;
    }
}

type Done = Box<dyn FnOnce()>;
type Completion = Box<dyn FnOnce(CommandCompletion)>;
type Reactors = Box<dyn SimReactor>;
type Listeners = Box<dyn SimListener>;
type Cmds = CmdSender<Listeners, Reactors, String, Completion>;
type Stream = SockData<(Sock, Reactors), Done>;
type Handler = TcpSocketHandler<ListenerData<(String, Listeners)>, Stream>;

struct Ctx<'a> {
    id: ReactorID,
    sock: &'a mut Sock,
    sender: &'a mut MsgSender<Done>,
    cmds: &'a Cmds,
}

impl<'a> Ctx<'a> {
    fn try_send_all(sock: &mut Sock, msg: &[u8]) -> Result<usize, IoErrorKind> {
        let (mut progress, mut step) = SendProgress::try_send_all(msg.len());
        loop {
            match step {
                SendStep::Write(from) => step = progress.on_write(sock.write(&msg[from..])),
                SendStep::Done(n) => return Ok(n),
                SendStep::Failed(kind) => return Err(kind),
            }
        }
    }

    fn send_msg(&mut self, msg: &[u8], completion: Option<Done>) -> Result<(), String> {
        assert!(self.sender.has_room(msg.len()));
        let sent = if self.sender.must_write(msg) {
            Ctx::try_send_all(self.sock, msg)
        } else {
            Ok(0)
        };
        let (res, done) = self.sender.send_or_que(msg, completion, sent);
        if let Some(done) = done {
            done();
        }
        res.map(|_| ()).map_err(|err| format!("{:?}", err))
    }
}

trait SimReactor {
    fn on_connected(&mut self, _ctx: &mut Ctx, _listener: ReactorID) -> Result<(), String> {
        Ok(())
    }
    fn on_inbound_message(
        &mut self,
        buf: &mut [u8],
        msg_size: usize,
        ctx: &mut Ctx,
    ) -> Result<MessageResult, String>;
    fn keep(&self) -> bool {
        true
    }
    fn on_command(&mut self, _cmd: String, _ctx: &mut Ctx) -> Result<(), String> {
        Ok(())
    }
    fn on_close(&mut self) {}
}

trait SimListener {
    fn on_new_connection(&mut self) -> Option<(usize, Reactors)>;
}

struct Adapter<'a>(&'a mut dyn SimReactor);

impl<'a, 'b> MsgDispatcher<Ctx<'b>> for Adapter<'a> {
    fn dispatch(
        &mut self,
        buf: &mut [u8],
        _new_bytes: usize,
        msg_size: usize,
        ctx: &mut Ctx<'b>,
    ) -> Result<MessageResult, String> {
        self.0.on_inbound_message(buf, msg_size, ctx)
    }
}

fn on_readable(data: &mut Stream, cmds: &Cmds) -> bool {
    let id = data.reactorid;
    let (sock, reactor) = &mut data.peer;
    let old = data.reader.count_pending();
    let read = loop {
        assert!(data.reader.check_can_grow());
        data.reader.reserve();
        let outcome = sock.read(data.reader.space_mut());
        match data.reader.try_read_all(outcome) {
            ReadStep::More(_) => {}
            ReadStep::Enough(_) | ReadStep::Blocked => break Ok(()),
            ReadStep::Close(err) => break Err(err),
        }
    };
    let mut ctx = Ctx {
        id,
        sock,
        sender: &mut data.sender,
        cmds,
    };
    let ok = data
        .reader
        .try_read_fast_read(old, read, &mut ctx, &mut Adapter(reactor.as_mut()))
        .is_ok();
    ok && reactor.keep()
}

struct Sim {
    runtime: ReactRuntime<(String, Listeners), (Sock, Reactors), Done, Listeners, Reactors, String, Completion>,
    cmds: Cmds,
    received: Receiver<CmdData<Listeners, Reactors, String, Completion>>,
    interests: BTreeMap<usize, Interest>,
    backlog: BTreeMap<String, VecDeque<Sock>>,
    now_nanos: i64,
}

impl Sim {
    fn new() -> Self {
        let (tx, received) = channel();
        Sim {
            runtime: ReactRuntime::new(),
            cmds: CmdSender::new(tx),
            received,
            interests: BTreeMap::new(),
            backlog: BTreeMap::new(),
            now_nanos: 1_000_000_000,
        }
    }

    fn close(&mut self, handler: Handler) {
        match handler {
            TcpSocketHandler::ListenerType(l) => {
                self.interests.remove(&l.reactorid.to_usize());
                self.backlog.remove(&l.listener.0);
            }
            TcpSocketHandler::StreamType(mut s) => {
                self.interests.remove(&s.reactorid.to_usize());
                s.peer.1.on_close();
            }
        }
    }

    fn end(&mut self, end: StreamEnd<(String, Listeners), (Sock, Reactors), Done>) {
        match end {
            StreamEnd::Closed(handler) => self.close(handler),
            StreamEnd::Kept(Some(interest)) => {
                self.interests.insert(interest.key, interest);
            }
            StreamEnd::Kept(None) => {}
        }
    }

    fn connected(&mut self, id: ReactorID, listener: ReactorID) -> bool {
        let data = self.runtime.mgr.stream_mut(id).unwrap();
        let (sock, reactor) = &mut data.peer;
        let mut ctx = Ctx {
            id,
            sock,
            sender: &mut data.sender,
            cmds: &self.cmds,
        };
        reactor.on_connected(&mut ctx, listener).is_ok()
    }

    fn poll(&self) -> Vec<SockEvent> {
        let mut events = Vec::new();
        for (key, interest) in self.interests.iter() {
            let (readable, writable) = match self.runtime.mgr.get(ReactorID::from_usize(*key)) {
                Some(TcpSocketHandler::ListenerType(l)) => {
                    (!self.backlog[&l.listener.0].is_empty(), false)
                }
                Some(TcpSocketHandler::StreamType(s)) => (
                    s.peer.0.readable(),
                    interest.writable && s.peer.0.writable(),
                ),
                None => panic!("registered without a socket"),
            };
            if readable || writable {
                events.push(SockEvent {
                    key: *key,
                    readable,
                    writable,
                    err: None,
                    interrupt: false,
                });
            }
        }
        events
    }

    fn process_event(&mut self, ev: SockEvent) {
        let mut pass = EventPass::new(ev);
        let (id, mut action) = self.runtime.mgr.begin_event(&pass);
        let mut conn = None;
        loop {
            match action {
                EventAction::Removed => return,
                EventAction::Accept => {
                    let l = self.runtime.mgr.listener_mut(id).unwrap();
                    let sock = self
                        .backlog
                        .get_mut(&l.listener.0)
                        .unwrap()
                        .pop_front()
                        .unwrap();
                    if let Some((min, reactor)) = l.listener.1.on_new_connection() {
                        conn = Some((min, (sock, reactor)));
                    }
                    action = EventAction::EndListener;
                }
                EventAction::EndListener => {
                    match self.runtime.mgr.end_listener_event(&pass, conn) {
                        ListenerEnd::Connected(new, interest) => {
                            self.interests.insert(interest.key, interest);
                            let accepted = self.connected(new, id);
                            let end = self.runtime.mgr.end_call(new, accepted);
                            self.end(end);
                        }
                        ListenerEnd::Closed(handler) => self.close(handler),
                        ListenerEnd::Kept => {}
                    }
                    return;
                }
                EventAction::Send => {
                    let data = self.runtime.mgr.stream_mut(id).unwrap();
                    let written = data.peer.0.write(data.sender.queued_bytes());
                    let (next, done) = self.runtime.mgr.send_queued(&mut pass, id, written);
                    for callback in done {
                        callback();
                    }
                    action = next;
                }
                EventAction::Read => {
                    let data = self.runtime.mgr.stream_mut(id).unwrap();
                    action = pass.on_read(on_readable(data, &self.cmds));
                }
                EventAction::EndStream => {
                    let end = self.runtime.mgr.end_stream_event(&pass);
                    self.end(end);
                    return;
                }
            }
        }
    }

    fn execute(&mut self, cmd: CmdData<Listeners, Reactors, String, Completion>) {
        match self.runtime.execute_immediate_cmd(cmd) {
            CmdStep::Connect {
                reactor,
                remote_addr,
                recv_buffer_min_size,
                completion,
            } => {
                let (ours, theirs) = Sock::pair();
                match self.backlog.get_mut(&remote_addr) {
                    Some(backlog) => backlog.push_back(theirs),
                    None => return completion(connect_failed(&remote_addr, "connection refused")),
                }
                let (id, interest) = self
                    .runtime
                    .mgr
                    .add_stream(recv_buffer_min_size, (ours, reactor));
                self.interests.insert(interest.key, interest);
                let accepted = self.connected(id, invalid_reactor_id());
                let (result, end) = self.runtime.end_connect(id, accepted);
                self.end(end);
                completion(result);
            }
            CmdStep::Listen {
                listener,
                local_addr,
                completion,
            } => {
                self.backlog.insert(local_addr.clone(), VecDeque::new());
                let (id, interest) = self.runtime.mgr.add_listener((local_addr, listener));
                self.interests.insert(interest.key, interest);
                completion(CommandCompletion::Completed(id));
            }
            CmdStep::Deliver {
                reactorid,
                cmd,
                completion,
            } => {
                let data = self.runtime.mgr.stream_mut(reactorid).unwrap();
                let (sock, reactor) = &mut data.peer;
                let mut ctx = Ctx {
                    id: reactorid,
                    sock,
                    sender: &mut data.sender,
                    cmds: &self.cmds,
                };
                let accepted = reactor.on_command(cmd, &mut ctx).is_ok();
                completion(CommandCompletion::Completed(reactorid));
                let end = self.runtime.mgr.end_call(reactorid, accepted);
                self.end(end);
            }
            CmdStep::Done {
                completion,
                result,
                closed,
            } => {
                if let Some(handler) = closed {
                    self.close(handler);
                }
                completion(result);
            }
        }
    }

    fn process_events(&mut self) -> bool {
        self.now_nanos += 1_000_000;
        let events = self.poll();
        for ev in events.iter() {
            self.process_event(*ev);
        }
        while let Some(cmd) = self.runtime.process_deferred_queue(self.now_nanos) {
            self.execute(cmd);
        }
        let mut cmds = 0;
        while cmds < 32 {
            match self.received.try_recv() {
                Ok(cmd) => {
                    cmds += 1;
                    if let Some(cmd) = self.runtime.process_command_queue(cmd, self.now_nanos) {
                        self.execute(cmd);
                    }
                }
                Err(_) => break,
            }
        }
        self.runtime.process_events_with(events.len(), cmds)
    }

    fn run(&mut self) {
        let mut rounds = 0;
        while self.process_events() {
            rounds += 1;
            assert!(rounds < 1000, "timeout waiting for tests to complete!");
        }
    }
}

fn ignore() -> Completion {
    Box::new(|_| {})
}

/// Calls back for messages; drops what the callback says.
struct SimpleIoReactor<M: FnMut(&mut [u8], &mut Ctx) -> Result<usize, String>> {
    on_connected: fn(&mut Ctx, ReactorID) -> Result<(), String>,
    on_msg: M,
    closed: Rc<RefCell<usize>>,
}

impl<M: FnMut(&mut [u8], &mut Ctx) -> Result<usize, String>> SimReactor for SimpleIoReactor<M> {
    fn on_connected(&mut self, ctx: &mut Ctx, listener: ReactorID) -> Result<(), String> {
        (self.on_connected)(ctx, listener)
    }
    fn on_inbound_message(
        &mut self,
        buf: &mut [u8],
        _msg_size: usize,
        ctx: &mut Ctx,
    ) -> Result<MessageResult, String> {
        Ok(MessageResult::DropMsgSize((self.on_msg)(buf, ctx)?))
    }
    fn on_close(&mut self) {
        *self.closed.borrow_mut() += 1;
    }
}

struct SimpleIoListener<F: FnMut() -> Reactors>(usize, F);

impl<F: FnMut() -> Reactors> SimListener for SimpleIoListener<F> {
    fn on_new_connection(&mut self) -> Option<(usize, Reactors)> {
        Some((self.0, (self.1)()))
    }
}

fn close_listener(ctx: &mut Ctx, listener: ReactorID) -> Result<(), String> {
    ctx.cmds.send_close(listener, Deferred::Immediate, ignore())
}

fn accept(_: &mut Ctx, _: ReactorID) -> Result<(), String> {
    Ok(())
}

fn send_first_msg(ctx: &mut Ctx, _: ReactorID) -> Result<(), String> {
    assert!(ctx.sender.has_room(12));
    let mut auto_sender = AutoSendBuffer::acquire_send(ctx.sender);
    auto_sender.write(ctx.sender, b"test ");
    auto_sender.write(ctx.sender, b"msgsend");
    assert_eq!(auto_sender.count_written(ctx.sender), 12);
    assert_eq!(auto_sender.get_written(ctx.sender), b"test msgsend");
    let sent = if auto_sender.must_write(ctx.sender) {
        Ctx::try_send_all(ctx.sock, ctx.sender.queued_bytes())
    } else {
        Ok(0)
    };
    let (res, _) = auto_sender.send(ctx.sender, None, sent);
    res.map(|_| ()).map_err(|err| format!("{:?}", err))
}

fn echo(buf: &mut [u8], ctx: &mut Ctx) -> Result<usize, String> {
    ctx.send_msg(buf, None)?;
    Ok(buf.len())
}

#[test]
fn test_io_reactor() {
    let addr = "127.0.0.1:12355";
    let recv_buffer_min_size = 1024;
    let mut runtime = Sim::new();
    let closed = Rc::new(RefCell::new(0));
    let server_closed = closed.clone();
    let cmds = runtime.cmds.clone();
    cmds.send_listen(
        addr,
        Box::new(SimpleIoListener(recv_buffer_min_size, move || {
            Box::new(SimpleIoReactor {
                on_connected: close_listener,
                on_msg: echo,
                closed: server_closed.clone(),
            }) as Reactors
        })),
        Deferred::Immediate,
        ignore(),
    )
    .unwrap();
    while runtime.runtime.count_reactors() < 1 {
        runtime.process_events();
    }
    cmds.send_connect(
        addr,
        recv_buffer_min_size,
        Box::new(SimpleIoReactor {
            on_connected: send_first_msg,
            on_msg: |_: &mut [u8], _: &mut Ctx| {
                Err("Client disconnect on recv response.".to_owned())
            },
            closed: closed.clone(),
        }),
        Deferred::Immediate,
        ignore(),
    )
    .unwrap();
    runtime.run();
    assert_eq!(runtime.runtime.count_reactors(), 0);
    assert_eq!(runtime.runtime.count_deferred_queue(), 0);
    assert_eq!(*closed.borrow(), 2);
}

#[test]
fn test_io_service() {
    const NCLIENTS: usize = 3;
    let addr = "127.0.0.1:12355";
    let recv_buf_min_size = 1024;
    let mut runtime = Sim::new();
    let count_recv = Rc::new(RefCell::new(Vec::new()));
    let count_disconnections = Rc::new(RefCell::new(0));
    let (recv, disconnections) = (count_recv.clone(), count_disconnections.clone());
    let cmds = runtime.cmds.clone();
    cmds.send_listen(
        addr,
        Box::new(SimpleIoListener(recv_buf_min_size, move || {
            let recv = recv.clone();
            Box::new(SimpleIoReactor {
                on_connected: accept,
                on_msg: move |buf: &mut [u8], ctx: &mut Ctx| {
                    ctx.send_msg(buf, None)?;
                    recv.borrow_mut().extend_from_slice(buf);
                    Ok(buf.len())
                },
                closed: disconnections.clone(),
            }) as Reactors
        })),
        Deferred::Immediate,
        ignore(),
    )
    .unwrap();
    while runtime.runtime.count_reactors() < 1 {
        runtime.process_events();
    }
    let client_closed = Rc::new(RefCell::new(0));
    for _ in 0..NCLIENTS {
        let mut answer = 0;
        cmds.send_connect(
            addr,
            recv_buf_min_size,
            Box::new(SimpleIoReactor {
                on_connected: send_first_msg,
                on_msg: move |buf: &mut [u8], _: &mut Ctx| {
                    answer += buf.len();
                    if answer == 12 {
                        return Err("Client disconnects when recv response.".to_owned());
                    }
                    Ok(buf.len())
                },
                closed: client_closed.clone(),
            }),
            Deferred::Immediate,
            ignore(),
        )
        .unwrap();
    }
    let mut rounds = 0;
    while *count_disconnections.borrow() < NCLIENTS {
        runtime.process_events();
        rounds += 1;
        assert!(rounds < 1000, "timeout waiting for all disconnections!");
    }
    assert_eq!(*client_closed.borrow(), NCLIENTS);
    assert_eq!(count_recv.borrow().len(), NCLIENTS * 12);
    assert_eq!(runtime.runtime.count_reactors(), 1);
    assert_eq!(runtime.runtime.count_streams(), 0);
}

/// The sample reactor on a simulated socket; the clock is a counter.
struct PingPong {
    my: MyReactor,
    clock: i64,
    completed: Rc<RefCell<usize>>,
}

impl PingPong {
    fn tick(&mut self) -> i64 {
        self.clock += 1000;
        self.clock
    }
}

impl SimReactor for PingPong {
    fn on_connected(&mut self, ctx: &mut Ctx, listener: ReactorID) -> Result<(), String> {
        let time = self.tick();
        match self.my.on_connected(listener, time) {
            ConnectedStep::SendMsg(msg) => ctx.send_msg(&msg, None),
            ConnectedStep::CloseListener(id) => {
                ctx.cmds.send_close(id, Deferred::Immediate, ignore())
            }
        }
    }
    fn on_inbound_message(
        &mut self,
        buf: &mut [u8],
        msg_size: usize,
        ctx: &mut Ctx,
    ) -> Result<MessageResult, String> {
        let recv = self.tick();
        match self.my.dispatcher.dispatch(buf, msg_size, recv) {
            EchoStep::Expect(size) => Ok(MessageResult::ExpectMsgSize(size)),
            EchoStep::Message { size, report, echo } => {
                assert!(!report);
                let (send, sent) = (self.tick(), self.tick());
                self.my.dispatcher.stamp(buf, send, sent);
                let completed = self.completed.clone();
                let sent = if echo {
                    let done: Done = Box::new(move || *completed.borrow_mut() += 1);
                    Some(ctx.send_msg(&buf[..size], Some(done)).is_ok())
                } else {
                    None
                };
                self.my.dispatcher.end_message(size, sent).into_result()
            }
        }
    }
    fn keep(&self) -> bool {
        self.my.on_readable(true)
    }
    fn on_command(&mut self, cmd: String, ctx: &mut Ctx) -> Result<(), String> {
        assert_eq!(ctx.id.sockslot as usize + 1, cmd.len());
        Err(cmd)
    }
}

fn ping_pong(client_cmd: bool) -> (Sim, Rc<RefCell<usize>>) {
    let addr = "127.0.0.1:12355";
    let mut runtime = Sim::new();
    let completed = Rc::new(RefCell::new(0));
    let (server, client) = (completed.clone(), completed.clone());
    let cmds = runtime.cmds.clone();
    cmds.send_listen(
        addr,
        Box::new(SimpleIoListener(1024, move || {
            Box::new(PingPong {
                my: MyReactor::default(),
                clock: 0,
                completed: server.clone(),
            }) as Reactors
        })),
        Deferred::Immediate,
        ignore(),
    )
    .unwrap();
    let deferred = if client_cmd {
        Deferred::UtilTime(1010)
    } else {
        Deferred::Immediate
    };
    cmds.send_connect(
        addr,
        1024,
        Box::new(PingPong {
            my: *MyReactor::new_client(2, 1000),
            clock: 0,
            completed: client,
        }),
        deferred,
        ignore(),
    )
    .unwrap();
    runtime.run();
    (runtime, completed)
}

#[test]
fn test_ping_pong_reactor() {
    let (runtime, completed) = ping_pong(false);
    assert_eq!(runtime.runtime.count_reactors(), 0);
    assert!(*completed.borrow() >= 3);
}

#[test]
fn test_reactors_cmd() {
    let (runtime, completed) = ping_pong(true);
    assert_eq!(runtime.runtime.count_reactors(), 0);
    assert_eq!(runtime.runtime.count_deferred_queue(), 0);
    assert!(*completed.borrow() >= 3);
    assert!(runtime.runtime.count_received_commands() >= 3);
    assert!(runtime.runtime.count_sock_events() > 4);
}

#[test]
fn commands_reach_reactors_and_close_them() {
    let addr = "a";
    let mut runtime = Sim::new();
    let cmds = runtime.cmds.clone();
    let results = Rc::new(RefCell::new(Vec::new()));
    let note = |name: &'static str| -> Completion {
        let results = results.clone();
        Box::new(move |completion| {
            results.borrow_mut().push(match completion {
                CommandCompletion::Completed(id) => format!("{} {}", name, id.to_text()),
                CommandCompletion::Error(text) => format!("{} {}", name, text),
            })
        })
    };
    let reactor = || {
        Box::new(PingPong {
            my: MyReactor::default(),
            clock: 0,
            completed: Rc::new(RefCell::new(0)),
        }) as Reactors
    };
    cmds.send_connect(addr, 8, reactor(), Deferred::Immediate, note("early"))
        .unwrap();
    cmds.send_listen(
        addr,
        Box::new(SimpleIoListener(8, move || reactor())),
        Deferred::Immediate,
        note("listen"),
    )
    .unwrap();
    runtime.process_events();
    cmds.send_connect(addr, 8, reactor(), Deferred::Immediate, note("connect"))
        .unwrap();
    runtime.process_events();
    let id = ReactorID { sockslot: 1, ver: 2 };
    cmds.send_user_cmd(id, "go".to_owned(), Deferred::Immediate, note("user"))
        .unwrap();
    cmds.send_user_cmd(id, "go".to_owned(), Deferred::Immediate, note("again"))
        .unwrap();
    runtime.process_events();
    assert_eq!(
        *results.borrow(),
        vec![
            "early Failed to connect to a. Error: connection refused".to_owned(),
            "listen 0:1".to_owned(),
            "connect 1:2".to_owned(),
            "user 1:2".to_owned(),
            "again Failed to execute user command on non existing socket with reactorid: 1:2"
                .to_owned(),
        ]
    );
}
