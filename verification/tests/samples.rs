use reactio::msg_reader::{DispatchResult, MessageResult, MsgDispatcher, MsgReader};
use reactio::reactor_id::{invalid_reactor_id, ReactorID};
use reactio::sample::{
    ConnectedStep, EchoStep, LatencyReport, MsgHeader, MyReactor, LATENCY_BATCH_SIZE,
};

#[test]
fn header_is_little_endian() {
    let header = MsgHeader {
        body_len: 0x0102,
        send_time: 0x1122334455667788,
    };
    let bytes = header.encode();
    assert_eq!(
        bytes,
        vec![0x02, 0x01, 0x88, 0x77, 0x66, 0x55, 0x44, 0x33, 0x22, 0x11]
    );
    assert_eq!(MsgHeader::decode(&bytes), header);
    let negative = MsgHeader {
        body_len: u16::MAX,
        send_time: -2,
    };
    let mut bytes = negative.encode();
    assert_eq!(bytes[2..], [0xfe, 0xff, 0xff, 0xff, 0xff, 0xff, 0xff, 0xff]);
    bytes.extend_from_slice(b"body");
    assert_eq!(MsgHeader::decode(&bytes), negative);
}

fn message(body: &[u8], send_time: i64) -> Vec<u8> {
    let mut msg = MsgHeader {
        body_len: body.len() as u16,
        send_time,
    }
    .encode();
    msg.extend_from_slice(body);
    msg
}

#[test]
fn client_sends_and_server_closes_its_listener() {
    let listener = ReactorID { sockslot: 4, ver: 5 };
    let mut client = MyReactor::new_client(2, 1000);
    match client.on_connected(invalid_reactor_id(), 77) {
        ConnectedStep::SendMsg(msg) => assert_eq!(msg, message(b"test msg00", 77)),
        _ => panic!("no message"),
    }
    let mut server = MyReactor::default();
    assert_eq!(server.dispatcher.max_echo, i32::MAX);
    assert_eq!(server.dispatcher.latency_batch, LATENCY_BATCH_SIZE);
    match server.on_connected(listener, 77) {
        ConnectedStep::CloseListener(id) => assert_eq!(id, listener),
        _ => panic!("no close"),
    }
    assert_eq!(server.dispatcher.parent_listener, listener);
}

#[test]
fn echo_waits_for_header_and_body() {
    let mut reactor = MyReactor::new(false, 5, 100);
    let mut msg = message(b"hello", 3);
    assert_eq!(
        reactor.dispatcher.dispatch(&msg[..9], 0, 10),
        EchoStep::Expect(0)
    );
    assert_eq!(
        reactor.dispatcher.dispatch(&msg[..14], 0, 10),
        EchoStep::Expect(15)
    );
    assert_eq!(
        reactor.dispatcher.dispatch(&msg, 15, 10),
        EchoStep::Message {
            size: 15,
            report: false,
            echo: true
        }
    );
    assert_eq!(msg, message(b"hello", 3));
    reactor.dispatcher.stamp(&mut msg, 11, 12);
    assert_eq!(msg, message(b"hello", 11));
    assert_eq!(reactor.dispatcher.last_sent_time, 12);
    assert!(reactor.dispatcher.round_trip_durations.is_empty());
}

#[test]
fn echo_measures_and_stops_at_its_maximum() {
    let mut reactor = MyReactor::new(false, 1, 1);
    let echo = &mut reactor.dispatcher;
    let mut msg = message(b"a", 3);
    let step = echo.dispatch(&msg, 0, 10);
    echo.stamp(&mut msg, 11, 12);
    assert_eq!(
        step,
        EchoStep::Message {
            size: 11,
            report: false,
            echo: true
        }
    );
    assert_eq!(
        echo.end_message(11, Some(true)),
        DispatchResult::DropMsgSize(11)
    );
    assert_eq!(echo.count_echo, 1);
    let mut msg = message(b"a", 15);
    let step = echo.dispatch(&msg, 0, 40);
    echo.stamp(&mut msg, 41, 42);
    assert_eq!(msg, message(b"a", 41));
    assert_eq!(
        step,
        EchoStep::Message {
            size: 11,
            report: true,
            echo: false
        }
    );
    assert_eq!(echo.round_trip_durations, vec![28]);
    assert_eq!(echo.single_trip_durations, vec![25]);
    assert_eq!(echo.last_sent_time, 12);
    assert_eq!(echo.end_message(11, None), DispatchResult::DropMsgSize(11));
    assert_eq!(echo.end_message(11, Some(false)), DispatchResult::Error);
    assert_eq!(echo.count_echo, 1);
    assert!(!reactor.on_readable(true));
    reactor.dispatcher.max_echo = 2;
    assert!(reactor.on_readable(true));
    assert!(!reactor.on_readable(false));
}

#[test]
fn latencies_are_reported_in_order() {
    let mut reactor = MyReactor::new(false, 1, 5);
    reactor.dispatcher.round_trip_durations = vec![5000, -1999, 3000, 9000, 4000];
    reactor.dispatcher.single_trip_durations = vec![1];
    assert_eq!(
        reactor.dispatcher.report_latencies(4),
        LatencyReport {
            size: 5,
            min: -1,
            median: 4,
            p99: 9,
            max: 5
        }
    );
    assert!(reactor.dispatcher.round_trip_durations.is_empty());
    assert!(reactor.dispatcher.single_trip_durations.is_empty());
}

struct Collector(MyReactor);

impl MsgDispatcher<Vec<Vec<u8>>> for Collector {
    fn dispatch(
        &mut self,
        buf: &mut [u8],
        _new_bytes: usize,
        msg_size: usize,
        ctx: &mut Vec<Vec<u8>>,
    ) -> Result<MessageResult, String> {
        let before = buf.to_vec();
        match self.0.dispatcher.dispatch(buf, msg_size, 1) {
            EchoStep::Expect(size) => Ok(MessageResult::ExpectMsgSize(size)),
            EchoStep::Message { size, .. } => {
                self.0.dispatcher.stamp(buf, 2, 3);
                ctx.push(before[..size].to_vec());
                self.0.dispatcher.end_message(size, None).into_result()
            }
        }
    }
}

#[test]
fn written_messages_are_read() {
    let messages = vec![
        message(b"first", 1),
        message(b"", 2),
        message(b"third message", 3),
        message(b"4", 4),
    ];
    let stream = messages.concat();
    for size in 1..stream.len() + 1 {
        let mut reader = MsgReader::new(64);
        let mut collector = Collector(MyReactor::new(false, 0, 1000));
        let mut got = Vec::new();
        for part in stream.chunks(size) {
            assert!(reader.check_can_grow());
            reader.reserve();
            reader.space_mut()[..part.len()].copy_from_slice(part);
            reader
                .try_read_fast_dispatch(Ok(part.len()), &mut got, &mut collector)
                .unwrap();
        }
        assert_eq!(got, messages);
        assert_eq!(reader.count_pending(), 0);
    }
}
