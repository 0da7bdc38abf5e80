use reactio::event_pass::{EventAction, EventPass};
use reactio::reactor::{ListenerEnd, ReactorMgr, StreamEnd};
use reactio::reactor_id::{invalid_reactor_id, ReactorID};
use reactio::sock_table::{SocketTable, TcpSocketHandler};
use reactio::socket_io::{Interest, IoErrorKind, SockEvent};

type Mgr = ReactorMgr<&'static str, &'static str, u32>;

fn event(key: usize) -> EventPass {
    EventPass::new(SockEvent {
        key,
        readable: false,
        writable: false,
        err: None,
        interrupt: false,
    })
}

fn id(sockslot: u32, ver: u32) -> ReactorID {
    ReactorID { sockslot, ver }
}

#[test]
fn ids_and_poller_keys() {
    assert_eq!(id(5, 3).to_usize(), (3usize << 32) + 5);
    assert_eq!(ReactorID::from_usize((3usize << 32) + 5), id(5, 3));
    assert_eq!(invalid_reactor_id().to_usize(), usize::MAX);
    assert_eq!(ReactorID::from_usize(usize::MAX), invalid_reactor_id());
    assert_eq!(id(12, 340).to_text(), "12:340");
    assert_eq!(invalid_reactor_id().to_text(), "4294967295:4294967295");
    assert_eq!(id(0, 0).to_text(), "0:0");
}

#[test]
fn sockets_are_counted_by_kind() {
    let mut table: SocketTable<u8, u8> = SocketTable::new();
    let a = table.add_listener(1);
    let b = table.add_stream(2);
    let c = table.add_stream(3);
    assert_eq!((table.len(), table.count_streams()), (3, 2));
    assert!(table.get_stream_mut(a).is_none());
    assert!(table.get_listener_mut(b).is_none());
    *table.get_stream_mut(b).unwrap() = 20;
    *table.get_listener_mut(a).unwrap() = 10;
    assert!(matches!(table.get(a), Some(TcpSocketHandler::ListenerType(10))));
    assert!(matches!(table.take(b), Some(TcpSocketHandler::StreamType(20))));
    assert!(table.take(b).is_none());
    assert!(table.get(b).is_none());
    assert_eq!((table.len(), table.count_streams()), (2, 1));
    assert!(table.take(c).is_some());
    assert!(table.take(a).is_some());
    assert_eq!((table.len(), table.count_streams()), (0, 0));
}

#[test]
fn new_sockets_are_registered_for_reading() {
    let mut mgr = Mgr::new();
    assert!(mgr.check_can_add());
    let (listener, interest) = mgr.add_listener("listener");
    assert_eq!(listener, id(0, 1));
    assert_eq!(
        interest,
        Interest {
            key: listener.to_usize(),
            readable: true,
            writable: false
        }
    );
    let (stream, interest) = mgr.add_stream(64, "stream");
    assert_eq!(stream, id(1, 2));
    assert_eq!(
        interest,
        Interest {
            key: stream.to_usize(),
            readable: true,
            writable: false
        }
    );
    assert_eq!((mgr.len(), mgr.count_streams()), (2, 1));
    let data = mgr.stream_mut(stream).unwrap();
    assert_eq!(data.peer, "stream");
    assert_eq!(data.reactorid, stream);
    assert_eq!(data.reader.space_mut().len(), 64);
    assert!(mgr.stream_mut(listener).is_none());
    assert_eq!(mgr.listener_mut(listener).unwrap().listener, "listener");
    assert!(mgr.listener_mut(stream).is_none());
}

#[test]
fn sockets_are_closed_once_and_by_their_own_id() {
    let mut mgr = Mgr::new();
    let (a, _) = mgr.add_stream(8, "a");
    let (b, _) = mgr.add_stream(8, "b");
    assert!(mgr.close_reactor(id(a.sockslot, 77)).is_none());
    assert!(mgr.close_reactor(invalid_reactor_id()).is_none());
    match mgr.close_reactor(a) {
        Some(TcpSocketHandler::StreamType(data)) => assert_eq!(data.peer, "a"),
        _ => panic!("no stream"),
    }
    assert!(mgr.close_reactor(a).is_none());
    assert!(mgr.get(b).is_some());
    let (c, _) = mgr.add_stream(8, "c");
    assert_eq!(c, id(0, 2));
    assert!(mgr.get(a).is_none());
    assert!(mgr.get_slot(a).is_some());
    assert_eq!((mgr.len(), mgr.count_streams()), (2, 2));
}

#[test]
fn events_of_removed_sockets_are_skipped() {
    let mut mgr = Mgr::new();
    let (a, _) = mgr.add_stream(8, "a");
    let mut ev = event(a.to_usize());
    ev.ev.readable = true;
    assert_eq!(mgr.begin_event(&ev), (a, EventAction::Read));
    mgr.close_reactor(a);
    assert_eq!(mgr.begin_event(&ev), (a, EventAction::Removed));
}

#[test]
fn listener_brings_connections() {
    let mut mgr = Mgr::new();
    let (listener, _) = mgr.add_listener("listener");
    let mut ev = event(listener.to_usize());
    ev.ev.readable = true;
    assert_eq!(mgr.begin_event(&ev), (listener, EventAction::Accept));
    match mgr.end_listener_event(&ev, Some((32, "conn"))) {
        ListenerEnd::Connected(conn, interest) => {
            assert_eq!(conn, id(1, 2));
            assert_eq!(interest.key, conn.to_usize());
            assert_eq!(mgr.stream_mut(conn).unwrap().peer, "conn");
        }
        _ => panic!("not connected"),
    }
    assert!(matches!(
        mgr.end_listener_event(&ev, None),
        ListenerEnd::Kept
    ));
    ev.ev.writable = true;
    assert!(matches!(
        mgr.end_listener_event(&ev, Some((32, "other"))),
        ListenerEnd::Connected(_, _)
    ));
    assert!(mgr.get(listener).is_some());
    assert!(matches!(
        mgr.end_listener_event(&ev, None),
        ListenerEnd::Closed(TcpSocketHandler::ListenerType(_))
    ));
    assert_eq!((mgr.len(), mgr.count_streams()), (2, 2));
}

#[test]
fn interest_in_writing_follows_the_queue() {
    let mut mgr = Mgr::new();
    let (a, _) = mgr.add_stream(8, "a");
    let key = a.to_usize();
    let mut ev = event(key);
    ev.ev.readable = true;
    assert_eq!(mgr.begin_event(&ev), (a, EventAction::Read));
    let _ = mgr
        .stream_mut(a)
        .unwrap()
        .sender
        .send_or_que(b"abc", Some(1), Ok(1));
    match mgr.end_stream_event(&ev) {
        StreamEnd::Kept(interest) => assert_eq!(
            interest,
            Some(Interest {
                key,
                readable: true,
                writable: true
            })
        ),
        _ => panic!("closed"),
    }
    assert!(matches!(
        mgr.end_stream_event(&ev),
        StreamEnd::Kept(None)
    ));
    ev.ev.readable = false;
    ev.ev.writable = true;
    assert_eq!(mgr.begin_event(&ev), (a, EventAction::Send));
    assert_eq!(
        mgr.send_queued(&mut ev, a, Ok(2)),
        (EventAction::EndStream, vec![1])
    );
    match mgr.end_stream_event(&ev) {
        StreamEnd::Kept(interest) => assert_eq!(
            interest,
            Some(Interest {
                key,
                readable: true,
                writable: false
            })
        ),
        _ => panic!("closed"),
    }
}

#[test]
fn unsolicited_writable_event_is_taken_back() {
    let mut mgr = Mgr::new();
    let (a, _) = mgr.add_stream(8, "a");
    let mut ev = event(a.to_usize());
    ev.ev.writable = true;
    assert_eq!(mgr.begin_event(&ev), (a, EventAction::EndStream));
    assert!(mgr.stream_mut(a).unwrap().interested_writable);
    match mgr.end_stream_event(&ev) {
        StreamEnd::Kept(Some(interest)) => assert!(!interest.writable),
        _ => panic!("no new interest"),
    }
}

#[test]
fn failed_closing_and_broken_streams_are_closed() {
    let mut mgr = Mgr::new();
    let (a, _) = mgr.add_stream(8, "a");
    let mut ev = event(a.to_usize());
    assert_eq!(ev.on_read(false), EventAction::EndStream);
    assert!(matches!(mgr.end_stream_event(&ev), StreamEnd::Closed(_)));

    let (a, _) = mgr.add_stream(8, "a");
    let ev = event(a.to_usize());
    let _ = mgr.stream_mut(a).unwrap().sender.send_or_que(
        b"abc",
        None,
        Err(IoErrorKind::ConnectionReset),
    );
    assert!(matches!(
        mgr.end_stream_event(&ev),
        StreamEnd::Closed(_)
    ));

    for (err, interrupt, closed) in [
        (Some(true), false, true),
        (Some(false), false, false),
        (None, false, false),
        (None, true, true),
    ] {
        let (a, _) = mgr.add_stream(8, "a");
        let mut ev = event(a.to_usize());
        ev.ev.err = err;
        ev.ev.interrupt = interrupt;
        let end = mgr.end_stream_event(&ev);
        assert_eq!(matches!(end, StreamEnd::Closed(_)), closed);
        mgr.close_reactor(a);
    }
    assert_eq!((mgr.len(), mgr.count_streams()), (0, 0));
    assert!(matches!(
        mgr.end_stream_event(&ev),
        StreamEnd::Kept(None)
    ));
}

#[test]
fn rejected_connections_are_closed() {
    let mut mgr = Mgr::new();
    let (a, _) = mgr.add_stream(8, "a");
    assert!(matches!(mgr.end_call(a, true), StreamEnd::Kept(None)));
    let _ = mgr
        .stream_mut(a)
        .unwrap()
        .sender
        .send_or_que(b"abc", None, Ok(0));
    match mgr.end_call(a, true) {
        StreamEnd::Kept(Some(interest)) => {
            assert!(interest.writable);
            assert_eq!(interest.key, a.to_usize());
        }
        _ => panic!("no interest"),
    }
    assert!(matches!(mgr.end_call(a, false), StreamEnd::Closed(_)));
    assert!(matches!(mgr.end_call(a, false), StreamEnd::Kept(None)));
    assert_eq!(mgr.len(), 0);
}

#[test]
fn messages_are_sent_before_reading_and_errors_remembered() {
    let mut mgr = Mgr::new();
    let (a, _) = mgr.add_stream(8, "a");
    mgr.stream_mut(a).unwrap().sender.queue_msg(b"abc", 1);
    let mut ev = event(a.to_usize());
    ev.ev.readable = true;
    ev.ev.writable = true;
    assert_eq!(mgr.begin_event(&ev), (a, EventAction::Send));
    assert_eq!(
        mgr.send_queued(&mut ev, a, Err(IoErrorKind::ConnectionReset)),
        (EventAction::Read, vec![])
    );
    assert!(ev.failed);
    assert_eq!(ev.on_read(true), EventAction::EndStream);
    assert!(matches!(
        mgr.end_stream_event(&ev),
        StreamEnd::Closed(_)
    ));
    let mut idle = event(0);
    assert_eq!(idle.start_listener(), EventAction::EndListener);
    assert_eq!(idle.start_stream(true), EventAction::EndStream);
    assert_eq!(idle.on_sent(true), EventAction::EndStream);
    assert!(!idle.failed);
}

#[test]
fn slot_of_a_closed_socket_is_used_next() {
    let mut mgr: ReactorMgr<char, char, u32> = ReactorMgr::new();
    for slot in 0..3 {
        assert_eq!(mgr.add_stream(16, 's').0, id(slot, slot + 1));
    }
    assert!(mgr.close_reactor(id(0, 1)).is_some());
    assert!(mgr.close_reactor(id(1, 2)).is_some());
    assert_eq!(mgr.add_listener('l').0, id(1, 2));
    assert_eq!(mgr.add_stream(16, 's').0, id(0, 3));
    assert_eq!(mgr.add_stream(16, 's').0, id(3, 4));
}
