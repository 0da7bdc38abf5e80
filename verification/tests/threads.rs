use reactio::command::Deferred;
use reactio::reactor_id::ReactorID;
use reactio::threaded_reactors::{ReactorUID, ThreadedReactorMgr};
use reactio::threaded_sample::{MyThreadedReactor, ThreadedServiceParam};

fn uid(runtimeid: usize, slot: u32) -> ReactorUID {
    ReactorUID {
        runtimeid,
        reactorid: ReactorID {
            sockslot: slot,
            ver: 1,
        },
    }
}

#[test]
fn senders_are_found_by_runtime() {
    let mgr = ThreadedReactorMgr::new(vec![(2, "c"), (0, "a"), (1, "b")]);
    assert_eq!(mgr.get_cmd_sender(0), Some(&"a"));
    assert_eq!(mgr.get_cmd_sender(1), Some(&"b"));
    assert_eq!(mgr.get_cmd_sender(2), Some(&"c"));
    assert_eq!(mgr.get_cmd_sender(3), None);
    assert_eq!(mgr.count_reactors(), 0);
}

#[test]
fn names_are_unique() {
    let mut mgr: ThreadedReactorMgr<()> = ThreadedReactorMgr::new(vec![]);
    assert_eq!(mgr.add_reactor_uid("x".to_owned(), uid(0, 1)), Ok(()));
    assert_eq!(mgr.add_reactor_uid("y".to_owned(), uid(0, 2)), Ok(()));
    assert_eq!(mgr.count_reactors(), 2);
    assert_eq!(
        mgr.add_reactor_uid("x".to_owned(), uid(1, 3)),
        Err("Duplicate ReactorName".to_owned())
    );
    assert_eq!(mgr.find_reactor_uid("x"), Some(uid(0, 1)));
    assert_eq!(mgr.count_reactors(), 2);
    assert_eq!(
        mgr.add_new_reactor_uid("x".to_owned(), uid(1, 4)),
        Some(uid(0, 1))
    );
    assert_eq!(mgr.find_reactor_uid("x"), Some(uid(0, 1)));
    assert_eq!(mgr.add_new_reactor_uid("z".to_owned(), uid(1, 4)), None);
    assert_eq!(mgr.update_reactor_uid("z", uid(1, 5)), Some(uid(1, 4)));
    assert_eq!(mgr.update_reactor_uid("w", uid(1, 5)), None);
    assert_eq!(mgr.find_reactor_uid("w"), None);
    assert_eq!(mgr.find_reactor_uid("z"), Some(uid(1, 5)));
    assert_eq!(mgr.remove_reactor_name("z"), Some(uid(1, 5)));
    assert_eq!(mgr.remove_reactor_name("z"), None);
    assert_eq!(mgr.find_reactor_uid("y"), Some(uid(0, 2)));
    assert_eq!(mgr.count_reactors(), 2);
}

#[test]
fn client_finds_the_server_by_name() {
    let mut mgr: ThreadedReactorMgr<()> = ThreadedReactorMgr::new(vec![(0, ()), (1, ())]);
    let server = MyThreadedReactor::new_service_reactor(ThreadedServiceParam {
        runtimeid: 0,
        name: "server".to_owned(),
        latency_batch: 1000,
    });
    let client = MyThreadedReactor::new_client("myclient".to_owned(), 1, 5, 1000);
    assert_eq!(server.name, "server-1");
    assert_eq!(server.reactor.dispatcher.max_echo, i32::MAX);
    let (a, b) = (uid(0, 4).reactorid, uid(1, 6).reactorid);
    assert!(server.on_connected(&mut mgr, a, 100).is_none());
    assert_eq!(
        client.on_connected(&mut mgr, b, 100),
        Some(("StartSending".to_owned(), Deferred::UtilTime(110)))
    );
    assert_eq!(mgr.count_reactors(), 2);
    assert!(server.on_command(&mgr).is_none());
    let start = client.on_command(&mgr).unwrap();
    assert_eq!(start.server, uid(0, 4));
    assert_eq!(start.server_cmd, "TestCmdFromClient");
    assert_eq!(start.body, "hello world");
    client.on_close(&mut mgr);
    server.on_close(&mut mgr);
    assert_eq!(mgr.count_reactors(), 0);
}
