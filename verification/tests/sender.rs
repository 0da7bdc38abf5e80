use reactio::msg_sender::{
    AutoSendBuffer, MsgSender, SendError, SendOrQueResult, SendProgress, SendStep,
};
use reactio::socket_io::IoErrorKind;

type Res = Result<SendOrQueResult, SendError>;

const COMPLETE: Res = Ok(SendOrQueResult::Complete);
const IN_QUEUE: Res = Ok(SendOrQueResult::InQueue);

#[test]
fn empty_message_is_complete_at_once() {
    let mut sender: MsgSender<u32> = MsgSender::default();
    assert!(!sender.must_write(b""));
    assert_eq!(sender.send_or_que(b"", Some(7), Ok(0)), (COMPLETE, Some(7)));
    assert!(sender.queued_bytes().is_empty());
}

#[test]
fn message_that_the_socket_takes_is_not_queued() {
    let mut sender: MsgSender<u32> = MsgSender::new();
    assert!(sender.must_write(b"hello"));
    assert_eq!(
        sender.send_or_que(b"hello", Some(1), Ok(5)),
        (COMPLETE, Some(1))
    );
    assert_eq!(sender.count_pending(), 0);
}

#[test]
fn rest_of_a_message_waits_and_later_ones_behind_it() {
    let mut sender: MsgSender<u32> = MsgSender::new();
    assert_eq!(
        sender.send_or_que(b"hello", Some(1), Ok(2)),
        (IN_QUEUE, None)
    );
    assert_eq!(sender.queued_bytes(), b"llo");
    assert!(!sender.must_write(b"world"));
    assert_eq!(
        sender.send_or_que(b"world", Some(2), Ok(0)),
        (IN_QUEUE, None)
    );
    assert_eq!(sender.send_or_que(b"!", None, Ok(0)), (IN_QUEUE, None));
    assert_eq!(sender.queued_bytes(), b"lloworld!");
    assert_eq!(sender.count_pending(), 2);
    assert_eq!(sender.send_queued(Ok(2)), (IN_QUEUE, vec![]));
    assert_eq!(sender.send_queued(Ok(1)), (IN_QUEUE, vec![1]));
    assert_eq!(sender.send_queued(Ok(4)), (IN_QUEUE, vec![]));
    assert_eq!(sender.send_queued(Ok(2)), (COMPLETE, vec![2]));
    assert_eq!(sender.count_pending(), 0);
    assert!(sender.queued_bytes().is_empty());
    assert!(sender.must_write(b"x"));
}

#[test]
fn one_write_can_complete_several_messages() {
    let mut sender: MsgSender<u32> = MsgSender::new();
    sender.queue_msg(b"ab", 1);
    sender.queue_msg(b"cd", 2);
    sender.queue_msg(b"ef", 3);
    assert_eq!(sender.send_queued(Ok(5)), (IN_QUEUE, vec![1, 2]));
    assert_eq!(sender.queued_bytes(), b"f");
    assert_eq!(sender.send_queued(Ok(1)), (COMPLETE, vec![3]));
}

#[test]
fn queue_stays_while_the_socket_blocks() {
    let mut sender: MsgSender<u32> = MsgSender::new();
    assert_eq!(sender.send_queued(Ok(0)), (COMPLETE, vec![]));
    sender.queue_msg(b"ab", 1);
    for kind in [IoErrorKind::WouldBlock, IoErrorKind::Interrupted] {
        assert_eq!(sender.send_queued(Err(kind)), (IN_QUEUE, vec![]));
        assert!(!sender.is_closing());
    }
    assert_eq!(sender.queued_bytes(), b"ab");
}

#[test]
fn errors_ask_for_the_socket_to_be_closed() {
    let outcomes = [
        (Ok(0), SendError::ZeroBytes),
        (Err(IoErrorKind::ConnectionReset), SendError::ConnectionReset),
        (
            Err(IoErrorKind::Other),
            SendError::Io(IoErrorKind::Other),
        ),
    ];
    for (written, err) in outcomes {
        let mut sender: MsgSender<u32> = MsgSender::new();
        sender.queue_msg(b"ab", 1);
        assert_eq!(sender.send_queued(written), (Err(err), vec![]));
        assert!(sender.is_closing());
        assert_eq!(sender.count_pending(), 1);
    }
    let mut sender: MsgSender<u32> = MsgSender::new();
    assert_eq!(
        sender.send_or_que(b"ab", Some(1), Err(IoErrorKind::Other)),
        (Err(SendError::Io(IoErrorKind::Other)), None)
    );
    assert!(sender.is_closing());
    let mut sender: MsgSender<u32> = MsgSender::new();
    assert_eq!(
        sender.send_or_que(b"ab", Some(1), Err(IoErrorKind::Interrupted)),
        (IN_QUEUE, None)
    );
    assert!(!sender.is_closing());
    assert_eq!(sender.queued_bytes(), b"ab");
}

#[test]
fn single_write_queues_when_it_would_block() {
    for kind in [IoErrorKind::WouldBlock, IoErrorKind::Interrupted] {
        let mut sender: MsgSender<u32> = MsgSender::new();
        assert_eq!(sender.send_once(b"abc", 1, Err(kind)), (IN_QUEUE, None));
        assert_eq!(sender.queued_bytes(), b"abc");
    }
    let mut sender: MsgSender<u32> = MsgSender::new();
    assert_eq!(sender.send_once(b"abc", 1, Ok(3)), (COMPLETE, Some(1)));
    assert_eq!(sender.send_once(b"abc", 1, Ok(1)), (IN_QUEUE, None));
    assert_eq!(sender.queued_bytes(), b"bc");
    assert_eq!(sender.send_once(b"d", 2, Ok(0)), (IN_QUEUE, None));
    assert_eq!(sender.queued_bytes(), b"bcd");
    let mut sender: MsgSender<u32> = MsgSender::new();
    assert_eq!(
        sender.send_once(b"abc", 1, Ok(0)),
        (Err(SendError::ZeroBytes), None)
    );
    assert!(sender.is_closing());
}

#[test]
fn sending_goes_on_until_all_is_out_or_the_socket_blocks() {
    let (_, step) = SendProgress::try_send_all(0);
    assert_eq!(step, SendStep::Done(0));
    let (mut progress, step) = SendProgress::try_send_all(10);
    assert_eq!(step, SendStep::Write(0));
    assert_eq!(progress.on_write(Ok(4)), SendStep::Write(4));
    assert_eq!(progress.on_write(Ok(5)), SendStep::Write(9));
    assert_eq!(progress.on_write(Ok(1)), SendStep::Done(10));
    for kind in [IoErrorKind::WouldBlock, IoErrorKind::Interrupted] {
        let (mut progress, _) = SendProgress::try_send_all(10);
        assert_eq!(progress.on_write(Ok(4)), SendStep::Write(4));
        assert_eq!(progress.on_write(Err(kind)), SendStep::Done(4));
    }
    for kind in [
        IoErrorKind::ConnectionReset,
        IoErrorKind::ConnectionAborted,
        IoErrorKind::Other,
    ] {
        let (mut progress, _) = SendProgress::try_send_all(10);
        assert_eq!(progress.on_write(Err(kind)), SendStep::Failed(kind));
    }
    let (mut progress, _) = SendProgress::try_send_all(10);
    assert_eq!(progress.on_write(Ok(4)), SendStep::Write(4));
    assert_eq!(progress.on_write(Ok(0)), SendStep::Write(4));
    assert_eq!(progress.on_write(Ok(6)), SendStep::Done(10));
}

#[test]
fn collected_bytes_are_sent_as_one_message() {
    let mut sender: MsgSender<u32> = MsgSender::new();
    let mut buffer = AutoSendBuffer::acquire_send(&sender);
    assert_eq!(buffer.write(&mut sender, b"test "), 5);
    assert_eq!(buffer.write(&mut sender, b"msgsend"), 7);
    assert_eq!(buffer.count_written(&sender), 12);
    assert_eq!(buffer.get_written(&sender), b"test msgsend");
    assert!(buffer.must_write(&sender));
    assert_eq!(
        buffer.send(&mut sender, Some(1), Ok(12)),
        (COMPLETE, vec![1])
    );
    assert_eq!(buffer.count_written(&sender), 0);
    assert_eq!(buffer.send(&mut sender, Some(2), Ok(0)), (COMPLETE, vec![2]));
}

#[test]
fn collected_bytes_can_be_dropped_or_wait() {
    let mut sender: MsgSender<u32> = MsgSender::new();
    sender.queue_msg(b"old", 1);
    let mut buffer = AutoSendBuffer::acquire_send(&sender);
    buffer.write(&mut sender, b"gone");
    buffer.clear(&mut sender);
    assert_eq!(sender.queued_bytes(), b"old");
    buffer.write(&mut sender, b"new");
    assert!(!buffer.must_write(&sender));
    assert_eq!(
        buffer.send(&mut sender, Some(2), Ok(0)),
        (IN_QUEUE, vec![])
    );
    assert_eq!(sender.queued_bytes(), b"oldnew");
    assert_eq!(sender.send_queued(Ok(6)), (COMPLETE, vec![1, 2]));

    let mut buffer = AutoSendBuffer::acquire_send(&sender);
    buffer.write(&mut sender, b"abcd");
    assert_eq!(
        buffer.send(&mut sender, Some(3), Ok(1)),
        (IN_QUEUE, vec![])
    );
    assert_eq!(sender.queued_bytes(), b"bcd");
    assert_eq!(sender.send_queued(Ok(3)), (COMPLETE, vec![3]));

    let mut buffer = AutoSendBuffer::acquire_send(&sender);
    buffer.write(&mut sender, b"x");
    assert_eq!(
        buffer.send(&mut sender, None, Err(IoErrorKind::ConnectionReset)),
        (Err(SendError::ConnectionReset), vec![])
    );
    assert!(sender.is_closing());
}

#[test]
fn nothing_is_lost_repeated_or_reordered() {
    let messages: [&[u8]; 5] = [b"one", b"two two", b"3", b"fourfour", b"five"];
    for step in 1..6 {
        let mut sender: MsgSender<usize> = MsgSender::new();
        let (mut out, mut done) = (Vec::new(), Vec::new());
        for (i, msg) in messages.iter().enumerate() {
            assert!(sender.has_room(msg.len()));
            let n = step.min(msg.len());
            if sender.must_write(msg) {
                out.extend_from_slice(&msg[..n]);
            }
            let (res, due) = sender.send_or_que(msg, Some(i), Ok(n));
            assert!(res.is_ok());
            done.extend(due);
            if i % 2 == 1 && !sender.queued_bytes().is_empty() {
                let n = step.min(sender.queued_bytes().len());
                out.extend_from_slice(&sender.queued_bytes()[..n]);
                done.extend(sender.send_queued(Ok(n)).1);
            }
            let mut all = out.clone();
            all.extend_from_slice(sender.queued_bytes());
            assert_eq!(all, messages[..i + 1].concat());
            assert_eq!(done.len() + sender.count_pending(), i + 1);
        }
        while !sender.queued_bytes().is_empty() {
            let n = step.min(sender.queued_bytes().len());
            out.extend_from_slice(&sender.queued_bytes()[..n]);
            done.extend(sender.send_queued(Ok(n)).1);
        }
        assert_eq!(out, messages.concat());
        assert_eq!(done, vec![0, 1, 2, 3, 4]);
    }
}

#[test]
fn two_writes_complete_what_one_does() {
    let queue = || {
        let mut sender: MsgSender<u32> = MsgSender::new();
        sender.queue_msg(b"abc", 1);
        sender.queue_msg(b"de", 2);
        sender.queue_msg(b"fgh", 3);
        sender
    };
    for n in 1..7 {
        for m in 1..8 - n {
            let (mut twice, mut once) = (queue(), queue());
            let mut done = twice.send_queued(Ok(n)).1;
            done.extend(twice.send_queued(Ok(m)).1);
            assert_eq!(done, once.send_queued(Ok(n + m)).1);
            assert_eq!(twice.queued_bytes(), once.queued_bytes());
            assert_eq!(twice.count_pending(), once.count_pending());
        }
    }
}

#[test]
fn empty_message_does_not_wait_for_the_queue() {
    let mut sender: MsgSender<u32> = MsgSender::new();
    sender.queue_msg(b"abc", 1);
    assert_eq!(sender.send_or_que(b"", Some(2), Ok(0)), (IN_QUEUE, Some(2)));
    assert_eq!(sender.send_once(b"", 3, Ok(0)), (IN_QUEUE, Some(3)));
    let mut buffer = AutoSendBuffer::acquire_send(&sender);
    assert_eq!(
        buffer.send(&mut sender, Some(4), Ok(0)),
        (IN_QUEUE, vec![4])
    );
    assert_eq!(sender.send_queued(Ok(3)), (COMPLETE, vec![1]));
    assert_eq!(sender.send_or_que(b"", Some(5), Ok(0)), (COMPLETE, Some(5)));
}

#[test]
fn written_bytes_are_counted_until_the_queue_is_empty() {
    let mut sender: MsgSender<u32> = MsgSender::new();
    let mut buffer = AutoSendBuffer::acquire_send(&sender);
    buffer.write(&mut sender, &[1, 2, 3, 4]);
    assert_eq!(sender.count_sent(), 0);
    assert_eq!(
        sender.move_buf_front_after_send(3),
        SendOrQueResult::InQueue
    );
    assert_eq!(sender.queued_bytes(), &[4]);
    assert_eq!(sender.count_sent(), 3);
    assert_eq!(
        sender.move_buf_front_after_send(1),
        SendOrQueResult::Complete
    );
    assert_eq!(sender.count_sent(), 0);

    sender.queue_msg(b"ab", 1);
    sender.queue_msg(b"cdef", 2);
    assert_eq!(
        sender.move_buf_front_after_send(3),
        SendOrQueResult::InQueue
    );
    assert_eq!(sender.queued_bytes(), b"def");
    assert_eq!(sender.count_pending(), 2);
    assert_eq!(sender.count_sent(), 3);
    assert_eq!(sender.send_queued(Ok(1)), (IN_QUEUE, vec![1]));
    assert_eq!(sender.count_sent(), 4);
    assert_eq!(sender.send_queued(Ok(2)), (COMPLETE, vec![2]));
    assert_eq!(sender.count_sent(), 0);
}

#[test]
fn collected_bytes_are_sent_like_a_message() {
    let outcomes = [
        Ok(0),
        Ok(2),
        Ok(4),
        Err(IoErrorKind::WouldBlock),
        Err(IoErrorKind::Interrupted),
        Err(IoErrorKind::Other),
    ];
    for queued in [&b""[..], &b"xy"[..]] {
        for sent in outcomes {
            for bytes in [&b""[..], &b"abcd"[..]] {
                let mut one: MsgSender<u32> = MsgSender::new();
                let mut other: MsgSender<u32> = MsgSender::new();
                if !queued.is_empty() {
                    one.queue_msg(queued, 1);
                    other.queue_msg(queued, 1);
                }
                let (res, due) = one.send_or_que(bytes, Some(2), sent);
                let mut buffer = AutoSendBuffer::acquire_send(&other);
                buffer.write(&mut other, bytes);
                let (collected, done) = buffer.send(&mut other, Some(2), sent);
                assert_eq!(res, collected);
                assert_eq!(one.is_closing(), other.is_closing());
                if res.is_ok() {
                    assert_eq!(one.queued_bytes(), other.queued_bytes());
                    assert_eq!(one.count_pending(), other.count_pending());
                    assert_eq!(due.into_iter().collect::<Vec<u32>>(), done);
                }
            }
        }
    }
}
