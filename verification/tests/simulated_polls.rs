//! Pollers over pipes in memory.

use reactio::event_pass::{EventAction, EventPass};
use reactio::msg_reader::{MessageResult, MsgDispatcher};
use reactio::msg_sender::MsgSender;
use reactio::poller::{Context, PollEnd, ReactorMgr};
use reactio::reactor_id::invalid_reactor_id;
use reactio::sample::{ConnectedStep, EchoStep, MyReactor};
use reactio::sock_table::TcpSocketHandler;
use reactio::socket_io::{IoErrorKind, SockEvent};
use reactio::tcp_events::{SocketKey, TcpEventStart, TcpPollMgr};
use std::cell::RefCell;
use std::collections::VecDeque;
use std::rc::Rc;

#[derive(Default)]
struct Pipe {
    bytes: VecDeque<u8>,
    gone: bool,
}

struct Sock {
    input: Rc<RefCell<Pipe>>,
    output: Rc<RefCell<Pipe>>,
}

impl Sock {
    fn pair() -> (Sock, Sock) {
        let (a, b) = (
            Rc::new(RefCell::new(Pipe::default())),
            Rc::new(RefCell::new(Pipe::default())),
        );
        (
            Sock {
                input: a.clone(),
                output: b.clone(),
            },
            Sock {
                input: b,
                output: a,
            },
        )
    }

    fn read(&mut self, buf: &mut [u8]) -> Result<usize, IoErrorKind> {
        let mut pipe = self.input.borrow_mut();
        if pipe.bytes.is_empty() {
            return if pipe.gone {
                Ok(0)
            } else {
                Err(IoErrorKind::WouldBlock)
            };
        }
        let n = buf.len().min(pipe.bytes.len());
        for b in buf[..n].iter_mut() {
            *b = pipe.bytes.pop_front().unwrap();
        }
        Ok(n)
    }

    fn write(&mut self, buf: &[u8]) -> Result<usize, IoErrorKind> {
        self.output.borrow_mut().bytes.extend(buf);
        Ok(buf.len())
    }

    fn readable(&self) -> bool {
        let pipe = self.input.borrow();
        !pipe.bytes.is_empty() || pipe.gone
    }
}

impl Drop for Sock {
    fn drop(&mut self) {
        self.output.borrow_mut().gone = true;
    }
}

fn readable(key: usize) -> SockEvent {
    SockEvent {
        key,
        readable: true,
        writable: false,
        err: None,
        interrupt: false,
    }
}

/// Echoes whatever it reads, up to a number of times.
struct TcpEchoHandler {
    recv_buf: Vec<u8>,
    max_echo: i32,
    count_echo: i32,
}

impl TcpEchoHandler {
    fn new(max_echo: i32) -> Self {
        TcpEchoHandler {
            recv_buf: vec![0u8; 1024],
            max_echo,
            count_echo: 0,
        }
    }

    fn on_readable(&mut self, sock: &mut Sock) -> bool {
        match sock.read(&mut self.recv_buf) {
            Ok(0) => false,
            Ok(nbytes) => {
                if self.count_echo >= self.max_echo {
                    return false;
                }
                sock.write(&self.recv_buf[..nbytes]).unwrap();
                self.count_echo += 1;
                true
            }
            Err(kind) => kind == IoErrorKind::WouldBlock,
        }
    }
}

#[test]
fn tcp_events_test_tcp_event_handler() {
    let mut mgr: TcpPollMgr<VecDeque<Sock>, (Sock, TcpEchoHandler)> = TcpPollMgr::new();
    let (mut client, server) = Sock::pair();
    let (listener, interest) = mgr.connections.add_listener(VecDeque::from(vec![server]));
    assert_eq!(interest.key, listener.0);
    client.write(b"test msg00").unwrap();
    let (key, _) = mgr
        .connections
        .start_connect((client, TcpEchoHandler::new(2)), true);
    let mut polled = vec![listener, key];
    let mut rounds = 0;
    while mgr.count_streams() > 0 {
        rounds += 1;
        assert!(rounds < 100, "timeout");
        for key in polled.clone() {
            let ready = match mgr.connections.get(key) {
                Some(TcpSocketHandler::ListenerType(l)) => !l.is_empty(),
                Some(TcpSocketHandler::StreamType(s)) => s.0.readable(),
                None => false,
            };
            if !ready {
                continue;
            }
            let ev = readable(key.0);
            let keep = match mgr.begin_event(&ev) {
                TcpEventStart::Nothing => true,
                TcpEventStart::Accept => {
                    let sock = mgr.connections.listener_mut(key).unwrap().pop_front();
                    let (new, res) = mgr
                        .connections
                        .start_connect((sock.unwrap(), TcpEchoHandler::new(i32::MAX)), true);
                    assert!(res.is_ok());
                    polled.push(new);
                    true
                }
                TcpEventStart::Read => {
                    let (sock, handler) = mgr.connections.stream_mut(key).unwrap();
                    handler.on_readable(sock)
                }
            };
            if mgr.end_event(&ev, keep).is_some() {
                polled.retain(|k| *k != key);
            }
        }
    }
    assert_eq!(mgr.len(), 1); // remaining listener
}

type Stream = Context<(Sock, MyReactor), u32>;

struct EchoCtx<'a> {
    sock: &'a mut Sock,
    sender: &'a mut MsgSender<u32>,
}

fn send(sock: &mut Sock, sender: &mut MsgSender<u32>, msg: &[u8]) -> bool {
    assert!(sender.has_room(msg.len()));
    let written = if sender.must_write(msg) {
        sock.write(msg)
    } else {
        Ok(0)
    };
    sender.send_once(msg, 0, written).0.is_ok()
}

struct Echo<'a>(&'a mut MyReactor);

impl<'a, 'b> MsgDispatcher<EchoCtx<'b>> for Echo<'a> {
    fn dispatch(
        &mut self,
        buf: &mut [u8],
        _new_bytes: usize,
        msg_size: usize,
        ctx: &mut EchoCtx<'b>,
    ) -> Result<MessageResult, String> {
        match self.0.dispatcher.dispatch(buf, msg_size, 10) {
            EchoStep::Expect(size) => Ok(MessageResult::ExpectMsgSize(size)),
            EchoStep::Message { size, echo, .. } => {
                self.0.dispatcher.stamp(buf, 20, 30);
                let sent = if echo {
                    Some(send(ctx.sock, ctx.sender, &buf[..size]))
                } else {
                    None
                };
                self.0.dispatcher.end_message(size, sent).into_result()
            }
        }
    }
}

fn on_readable(data: &mut Stream) -> bool {
    let (sock, my) = &mut data.peer;
    loop {
        assert!(data.reader.check_can_grow());
        data.reader.reserve_exact();
        let outcome = sock.read(data.reader.space_mut());
        let mut ctx = EchoCtx {
            sock,
            sender: &mut data.sender,
        };
        match data
            .reader
            .try_read_fast_dispatch(outcome, &mut ctx, &mut Echo(my))
        {
            Ok(true) => {}
            Ok(false) => return my.on_readable(true),
            Err(_) => return my.on_readable(false),
        }
    }
}

fn on_connected(data: &mut Stream) -> bool {
    let (sock, my) = &mut data.peer;
    match my.on_connected(invalid_reactor_id(), 5) {
        ConnectedStep::SendMsg(msg) => send(sock, &mut data.sender, &msg),
        ConnectedStep::CloseListener(_) => true,
    }
}

#[test]
fn poller_test_tcp_event_handler() {
    let mut mgr: ReactorMgr<VecDeque<Sock>, (Sock, MyReactor), u32> = ReactorMgr::new();
    let (client, server) = Sock::pair();
    let (listener, _) = mgr.add_listener(VecDeque::from(vec![server]));
    let (key, _) = mgr.add_stream((client, *MyReactor::new_client(2, 1000)));
    let accepted = on_connected(mgr.stream_mut(key).unwrap());
    let (key, closed) = mgr.start_connect(key, accepted);
    assert!(closed.is_none());
    let mut polled: Vec<SocketKey> = vec![listener, key];
    let mut rounds = 0;
    while mgr.count_streams() > 0 {
        rounds += 1;
        assert!(rounds < 100, "timeout");
        for key in polled.clone() {
            let ready = match (mgr.listener_mut(key).map(|l| !l.is_empty()), key) {
                (Some(ready), _) => ready,
                (None, key) => mgr
                    .stream_mut(key)
                    .map(|s| s.peer.0.readable())
                    .unwrap_or(false),
            };
            if !ready {
                continue;
            }
            let mut pass = EventPass::new(readable(key.0));
            match mgr.begin_event(&pass) {
                EventAction::Accept => {
                    let sock = mgr.listener_mut(key).unwrap().pop_front().unwrap();
                    let (new, _) = mgr.add_stream((sock, MyReactor::default()));
                    let accepted = on_connected(mgr.stream_mut(new).unwrap());
                    let (new, closed) = mgr.start_connect(new, accepted);
                    assert!(closed.is_none());
                    polled.push(new);
                }
                EventAction::Read => {
                    let ok = on_readable(mgr.stream_mut(key).unwrap());
                    assert_eq!(pass.on_read(ok), EventAction::EndStream);
                }
                other => panic!("unexpected {:?}", other),
            }
            if let PollEnd::Closed(_) = mgr.end_event(&pass) {
                polled.retain(|k| *k != key);
            }
        }
    }
    assert_eq!(mgr.len(), 1); // remaining listener
}
