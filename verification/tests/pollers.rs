use reactio::event_pass::{EventAction, EventPass};
use reactio::poller::{PollEnd, ReactorMgr};
use reactio::sock_table::TcpSocketHandler;
use reactio::socket_io::{Interest, SockEvent};
use reactio::tcp_events::{
    invalid_socket_key, SocketKey, TcpConnections, TcpEventStart, TcpPollMgr,
};

fn event(key: usize) -> SockEvent {
    SockEvent {
        key,
        readable: false,
        writable: false,
        err: None,
        interrupt: false,
    }
}

fn reading(key: usize) -> Interest {
    Interest {
        key,
        readable: true,
        writable: false,
    }
}

#[test]
fn streams_are_added_only_if_accepted() {
    let mut conns: TcpConnections<&str, &str> = TcpConnections::new();
    let (listener, interest) = conns.add_listener("l");
    assert_eq!((listener, interest), (SocketKey(0), reading(0)));
    assert_eq!(
        conns.start_connect("s", false),
        (invalid_socket_key(), Err("s"))
    );
    assert_eq!((conns.len(), conns.count_streams()), (1, 0));
    assert_eq!(
        conns.start_connect("s", true),
        (SocketKey(1), Ok(reading(1)))
    );
    assert_eq!(conns.add_stream("t"), (SocketKey(2), reading(2)));
    *conns.stream_mut(SocketKey(2)).unwrap() = "u";
    *conns.listener_mut(SocketKey(0)).unwrap() = "m";
    assert!(matches!(
        conns.get(SocketKey(2)),
        Some(TcpSocketHandler::StreamType("u"))
    ));
    assert!(conns.remove_by_key(SocketKey(1)).is_some());
    assert!(conns.remove_by_key(SocketKey(1)).is_none());
    assert_eq!((conns.len(), conns.count_streams()), (2, 1));
}

#[test]
fn events_accept_read_and_remove() {
    let mut mgr: TcpPollMgr<&str, &str> = TcpPollMgr::new();
    mgr.connections.add_listener("l");
    mgr.connections.add_stream("s");
    let (mut on_l, mut on_s) = (event(0), event(1));
    assert_eq!(mgr.begin_event(&on_l), TcpEventStart::Nothing);
    on_l.readable = true;
    on_s.readable = true;
    assert_eq!(mgr.begin_event(&on_l), TcpEventStart::Accept);
    assert_eq!(mgr.begin_event(&on_s), TcpEventStart::Read);
    assert!(mgr.end_event(&on_l, true).is_none());
    assert!(mgr.end_event(&on_s, false).is_some());
    assert!(mgr.end_event(&on_s, false).is_none());
    on_l.interrupt = true;
    assert!(mgr.end_event(&on_l, true).is_some());
    assert_eq!((mgr.len(), mgr.count_streams()), (0, 0));
}

#[test]
fn polled_socket_cannot_be_closed_from_within() {
    let mut mgr: ReactorMgr<&str, &str, u32> = ReactorMgr::new();
    let (a, interest) = mgr.add_stream("a");
    assert_eq!((a, interest), (SocketKey(0), reading(0)));
    let (b, _) = mgr.add_stream("b");
    let mut ev = EventPass::new(event(a.0));
    ev.ev.readable = true;
    assert_eq!(mgr.begin_event(&ev), EventAction::Read);
    assert!(mgr.close_by_key(a).is_none());
    assert!(mgr.close_by_key(b).is_some());
    ev.on_read(false);
    assert!(matches!(mgr.end_event(&ev), PollEnd::Closed(_)));
    assert!(mgr.close_by_key(a).is_none());
    assert_eq!(mgr.len(), 0);
}

#[test]
fn connections_are_accepted_or_closed() {
    let mut mgr: ReactorMgr<&str, &str, u32> = ReactorMgr::new();
    let (a, _) = mgr.add_stream("a");
    let (key, closed) = mgr.start_connect(a, true);
    assert!(key == a && closed.is_none());
    let (key, closed) = mgr.start_connect(a, false);
    assert!(key == invalid_socket_key() && closed.is_some());
    assert_eq!((mgr.len(), mgr.count_streams()), (0, 0));
}

#[test]
fn queue_and_interest_in_a_poll() {
    let mut mgr: ReactorMgr<&str, &str, u32> = ReactorMgr::new();
    let (l, _) = mgr.add_listener("l");
    let (a, _) = mgr.add_stream("a");
    assert_eq!(mgr.stream_mut(a).unwrap().reader.space_mut().len(), 1024);
    let mut ev = EventPass::new(event(a.0));
    ev.ev.readable = true;
    mgr.begin_event(&ev);
    let _ = mgr.stream_mut(a).unwrap().sender.send_once(b"abc", 1, Ok(1));
    match mgr.end_event(&ev) {
        PollEnd::Kept(Some(i)) => assert_eq!((i.key, i.writable), (a.0, true)),
        _ => panic!("no interest"),
    }
    ev.ev.readable = false;
    ev.ev.writable = true;
    assert_eq!(mgr.begin_event(&ev), EventAction::Send);
    assert_eq!(
        mgr.send_queued(&mut ev, Ok(2)),
        (EventAction::EndStream, vec![1])
    );
    match mgr.end_event(&ev) {
        PollEnd::Kept(Some(i)) => assert_eq!((i.key, i.writable), (a.0, false)),
        _ => panic!("no interest"),
    }
    let mut ev = EventPass::new(event(l.0));
    ev.ev.readable = true;
    assert_eq!(mgr.begin_event(&ev), EventAction::Accept);
    *mgr.listener_mut(l).unwrap() = "m";
    assert!(matches!(mgr.end_event(&ev), PollEnd::Kept(None)));
    ev.ev.writable = true;
    mgr.begin_event(&ev);
    assert!(matches!(
        mgr.end_event(&ev),
        PollEnd::Closed(TcpSocketHandler::ListenerType("m"))
    ));
    assert_eq!(mgr.begin_event(&ev), EventAction::Removed);
    assert!(matches!(mgr.end_event(&ev), PollEnd::Kept(None)));
}
