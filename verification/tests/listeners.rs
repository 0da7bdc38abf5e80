use reactio::listener::{ChildCounter, DefaultTcpListenerHandler, NewServerReactor};
use reactio::reactor_id::{invalid_reactor_id, ReactorID};

struct Numbered(String);

impl NewServerReactor for Numbered {
    type InitServerParam = String;

    fn new_server_reactor(count: usize, param: String) -> Self {
        Numbered(format!("{}-{}", param, count))
    }
}

#[test]
fn reactors_are_numbered_from_one() {
    let mut listener = DefaultTcpListenerHandler::<Numbered>::new(64, "server".to_owned());
    assert_eq!(listener.reactorid(), invalid_reactor_id());
    let id = ReactorID { sockslot: 2, ver: 3 };
    listener.on_start_listen(id);
    assert_eq!(listener.reactorid(), id);
    let first = listener.on_new_connection().unwrap();
    assert_eq!(first.reactor.0, "server-1");
    assert_eq!(first.recv_buffer_min_size, 64);
    assert_eq!(listener.on_new_connection().unwrap().reactor.0, "server-2");
    let mut boxed = DefaultTcpListenerHandler::<Numbered>::new_boxed(8, "other".to_owned());
    assert_eq!(boxed.on_new_connection().unwrap().reactor.0, "other-1");
}

#[test]
fn connections_are_counted() {
    let mut counter = ChildCounter::new(16);
    assert_eq!(counter.on_new_connection(), 1);
    assert_eq!(counter.on_new_connection(), 2);
    counter.on_start_listen(ReactorID { sockslot: 1, ver: 1 });
    assert_eq!(counter.count_children, 2);
    assert_eq!(counter.recv_buffer_min_size, 16);
}
