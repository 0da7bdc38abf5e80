use reactio::msg_reader::{
    DispatchError, DispatchResult, MessageResult, MsgDispatcher, MsgReader, ReadError, ReadStep,
    ReaderError,
};
use reactio::socket_io::IoErrorKind;

/// Messages are a length byte and as many bytes; they are kept in the context.
struct Frames {
    calls: Vec<(Vec<u8>, usize, usize)>,
}

impl MsgDispatcher<Vec<Vec<u8>>> for Frames {
    fn dispatch(
        &mut self,
        buf: &mut [u8],
        new_bytes: usize,
        msg_size: usize,
        ctx: &mut Vec<Vec<u8>>,
    ) -> Result<MessageResult, String> {
        self.calls.push((buf.to_vec(), new_bytes, msg_size));
        let size = buf[0] as usize + 1;
        if buf[0] == 255 {
            return Err("bye".to_owned());
        }
        if buf[0] == 254 {
            return Ok(MessageResult::DropMsgSize(buf.len() + 1));
        }
        if size > buf.len() {
            return Ok(MessageResult::ExpectMsgSize(size));
        }
        ctx.push(buf[1..size].to_vec());
        Ok(MessageResult::DropMsgSize(size))
    }
}

fn arrive(reader: &mut MsgReader, bytes: &[u8]) -> ReadStep {
    assert!(reader.check_can_grow());
    reader.reserve();
    reader.space_mut()[..bytes.len()].copy_from_slice(bytes);
    reader.try_read_all(Ok(bytes.len()))
}

#[test]
fn messages_are_the_same_however_the_reads_cut_them() {
    let stream: Vec<u8> = vec![2, 10, 11, 0, 3, 20, 21, 22, 1, 30, 4, 40];
    for cut in 0..stream.len() + 1 {
        let mut reader = MsgReader::new(16);
        let mut frames = Frames { calls: Vec::new() };
        let mut messages = Vec::new();
        for part in [&stream[..cut], &stream[cut..]] {
            if !part.is_empty() {
                let old = reader.count_pending();
                assert_eq!(arrive(&mut reader, part), ReadStep::Enough(part.len()));
                reader
                    .try_read_fast_read(old, Ok(()), &mut messages, &mut frames)
                    .unwrap();
            }
        }
        assert_eq!(
            messages,
            vec![vec![10, 11], vec![], vec![20, 21, 22], vec![30]]
        );
        assert_eq!(reader.count_pending(), 2);
    }
}

#[test]
fn dispatcher_is_called_when_all_that_it_asked_for_is_there() {
    let mut reader = MsgReader::new(16);
    let mut frames = Frames { calls: Vec::new() };
    let mut messages = Vec::new();
    arrive(&mut reader, &[3, 1]);
    reader.try_dispatch_all(2, &mut messages, &mut frames).unwrap();
    arrive(&mut reader, &[2]);
    reader.try_dispatch_all(1, &mut messages, &mut frames).unwrap();
    arrive(&mut reader, &[3, 0]);
    reader.try_dispatch_all(2, &mut messages, &mut frames).unwrap();
    assert_eq!(
        frames.calls,
        vec![
            (vec![3, 1], 2, 0),
            (vec![3, 1, 2, 3, 0], 2, 4),
            (vec![0], 1, 0),
        ]
    );
    assert_eq!(messages, vec![vec![1, 2, 3], vec![]]);
    assert_eq!(reader.count_pending(), 0);
}

#[test]
fn reading_goes_on_while_the_buffer_is_full() {
    let mut reader = MsgReader::new(4);
    let mut frames = Frames { calls: Vec::new() };
    let mut messages = Vec::new();
    assert_eq!(arrive(&mut reader, &[5, 1, 2, 3]), ReadStep::More(4));
    reader.reserve();
    assert_eq!(reader.space_mut().len(), 4);
    reader.space_mut()[..2].copy_from_slice(&[4, 5]);
    assert_eq!(
        reader.try_read_fast_dispatch(Ok(2), &mut messages, &mut frames).unwrap(),
        false
    );
    assert_eq!(messages, vec![vec![1, 2, 3, 4, 5]]);
    reader.reserve();
    let space = reader.space_mut().len();
    assert_eq!(space, 8);
    let full = [0u8; 8];
    reader.space_mut().copy_from_slice(&full);
    assert_eq!(
        reader.try_read_fast_dispatch(Ok(8), &mut messages, &mut frames).unwrap(),
        true
    );
    assert_eq!(messages.len(), 9);
}

#[test]
fn buffer_doubles_or_grows_by_what_is_missing() {
    let mut reader = MsgReader::new(10);
    arrive(&mut reader, &[0; 6]);
    reader.reserve();
    assert_eq!(reader.space_mut().len(), 14);
    let mut reader = MsgReader::new(10);
    arrive(&mut reader, &[0; 6]);
    reader.reserve_exact();
    assert_eq!(reader.space_mut().len(), 10);
    let mut reader = MsgReader::default();
    reader.reserve_exact();
    assert_eq!(reader.space_mut().len(), 1024);
}

#[test]
fn outcomes_of_reads_are_told_apart() {
    let cases = [
        (Ok(0), ReadStep::Close(ReadError::PeerClosed)),
        (Err(IoErrorKind::WouldBlock), ReadStep::Blocked),
        (Err(IoErrorKind::Interrupted), ReadStep::Blocked),
        (
            Err(IoErrorKind::ConnectionReset),
            ReadStep::Close(ReadError::ConnectionReset),
        ),
        (
            Err(IoErrorKind::ConnectionAborted),
            ReadStep::Close(ReadError::ConnectionAborted),
        ),
        (
            Err(IoErrorKind::Other),
            ReadStep::Close(ReadError::Io(IoErrorKind::Other)),
        ),
    ];
    for (outcome, step) in cases {
        let mut reader = MsgReader::new(4);
        assert_eq!(reader.try_read_all(outcome), step);
        assert_eq!(reader.count_pending(), 0);
    }
}

#[test]
fn what_was_read_is_dispatched_before_the_socket_is_closed() {
    let mut reader = MsgReader::new(8);
    let mut frames = Frames { calls: Vec::new() };
    let mut messages = Vec::new();
    arrive(&mut reader, &[1, 9]);
    let res = reader.try_read_fast_read(
        0,
        Err(ReadError::PeerClosed),
        &mut messages,
        &mut frames,
    );
    assert!(matches!(res, Err(ReaderError::Read(ReadError::PeerClosed))));
    assert_eq!(messages, vec![vec![9]]);
    let res = reader.try_read_fast_dispatch(Ok(0), &mut messages, &mut frames);
    assert!(matches!(res, Err(ReaderError::Read(ReadError::PeerClosed))));
}

#[test]
fn dispatcher_can_close_the_socket() {
    let mut reader = MsgReader::new(8);
    let mut frames = Frames { calls: Vec::new() };
    let mut messages = Vec::new();
    arrive(&mut reader, &[0, 255, 7]);
    match reader.try_dispatch_all(3, &mut messages, &mut frames) {
        Err(DispatchError::Closed(reason)) => assert_eq!(reason, "bye"),
        _ => panic!("not closed"),
    }
    assert_eq!(messages.len(), 1);
    assert_eq!(reader.count_pending(), 2);
}

#[test]
fn dispatcher_cannot_drop_more_than_there_is() {
    let mut reader = MsgReader::new(8);
    let mut frames = Frames { calls: Vec::new() };
    let mut messages = Vec::new();
    arrive(&mut reader, &[254, 1]);
    let res = reader.try_dispatch_all(2, &mut messages, &mut frames);
    assert!(matches!(res, Err(DispatchError::DropsTooMuch(3))));
}

/// Waits for a size that is there already, then takes all.
struct Impatient;

impl MsgDispatcher<usize> for Impatient {
    fn dispatch(
        &mut self,
        buf: &mut [u8],
        _new_bytes: usize,
        msg_size: usize,
        ctx: &mut usize,
    ) -> Result<MessageResult, String> {
        *ctx += 1;
        if msg_size == 0 {
            Ok(MessageResult::ExpectMsgSize(1))
        } else {
            Ok(MessageResult::DropMsgSize(buf.len()))
        }
    }
}

#[test]
fn expecting_what_is_there_waits_for_the_next_read() {
    let mut reader = MsgReader::new(8);
    let mut calls = 0;
    arrive(&mut reader, &[1, 2]);
    reader.try_dispatch_all(2, &mut calls, &mut Impatient).unwrap();
    assert_eq!((calls, reader.count_pending()), (1, 2));
    arrive(&mut reader, &[3]);
    reader.try_dispatch_all(1, &mut calls, &mut Impatient).unwrap();
    assert_eq!((calls, reader.count_pending()), (2, 0));
}

#[test]
fn answers_without_reasons() {
    assert_eq!(DispatchResult::Error.into_result(), Err(String::new()));
    assert_eq!(
        DispatchResult::ExpectMsgSize(5).into_result(),
        Ok(MessageResult::ExpectMsgSize(5))
    );
    assert_eq!(
        DispatchResult::DropMsgSize(5).into_result(),
        Ok(MessageResult::DropMsgSize(5))
    );
}

/// Takes one message of four bytes at a time, and writes over it.
struct Scribbler(Vec<Vec<u8>>);

impl MsgDispatcher<()> for Scribbler {
    fn dispatch(
        &mut self,
        buf: &mut [u8],
        _new_bytes: usize,
        msg_size: usize,
        _ctx: &mut (),
    ) -> Result<MessageResult, String> {
        assert!(msg_size == 0 || msg_size == 4);
        if buf.len() < 4 {
            return Ok(MessageResult::ExpectMsgSize(4));
        }
        self.0.push(buf[..4].to_vec());
        buf[..4].fill(0xff);
        Ok(MessageResult::DropMsgSize(4))
    }
}

#[test]
fn dropped_messages_may_be_changed() {
    let stream: Vec<u8> = (0..22).collect();
    for size in 1..stream.len() + 1 {
        let mut reader = MsgReader::new(32);
        let mut scribbler = Scribbler(Vec::new());
        for part in stream.chunks(size) {
            assert!(reader.check_can_grow());
            reader.reserve_exact();
            reader.space_mut()[..part.len()].copy_from_slice(part);
            reader
                .try_read_fast_dispatch(Ok(part.len()), &mut (), &mut scribbler)
                .unwrap();
        }
        assert_eq!(scribbler.0.concat(), &stream[..20]);
        assert_eq!(reader.count_pending(), 2);
    }
}
