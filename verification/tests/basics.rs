use reactio::msg_sender::MsgSender;
use reactio::utils::{format_time, now_nanos, split_nanos, CalendarTime};
use std::io::Write;

/// The time of so many seconds since the epoch.
fn calendar_time(seconds: i64) -> CalendarTime {
    let (mut days, rest) = (seconds / 86_400, seconds % 86_400);
    let (mut year, mut month) = (1970, 0);
    loop {
        let leap = year % 4 == 0 && (year % 100 != 0 || year % 400 == 0);
        let months = [
            31,
            if leap { 29 } else { 28 },
            31,
            30,
            31,
            30,
            31,
            31,
            30,
            31,
            30,
            31,
        ];
        if days < months[month] {
            break;
        }
        days -= months[month];
        month += 1;
        if month == 12 {
            month = 0;
            year += 1;
        }
    }
    CalendarTime {
        tm_year: year - 1900,
        tm_mon: month as i32,
        tm_mday: days as i32 + 1,
        tm_hour: (rest / 3600) as i32,
        tm_min: (rest / 60 % 60) as i32,
        tm_sec: (rest % 60) as i32,
    }
}

/// A line of the log.
fn log_line(nanos: i64, msg: &str) -> String {
    let (seconds, subsecond) = split_nanos(nanos);
    let time = format_time(&calendar_time(seconds), subsecond, 6);
    format!("[{}] {}", time, msg)
}

#[test]
fn test_reactio() {
    let line = log_line(now_nanos().unwrap(), "[DBG] test dbglog.");
    println!("{}", line);
    assert_eq!(line.len(), 26 + " [DBG] test dbglog.".len());
    assert!(line.as_str() > "[20200101-00:00:00.000000]");
    assert_eq!(2, 2);
}

#[test]
fn test_send_or_que() {
    let sender = MsgSender::<()>::new();
    assert!(sender.queued_bytes().is_empty());
    assert_eq!(sender.count_pending(), 0);
    assert!(!sender.is_closing());
}

fn empty_completion() {}

fn is_empty_function(_fun: &dyn Fn()) -> Option<Box<dyn Fn()>> {
    None
}

#[test]
fn test_compare_function() {
    assert!(is_empty_function(&empty_completion).is_none());
}

#[test]
fn test_vec_write() {
    let mut v = Vec::<u8>::new();
    v.resize(10, 1);
    let mut s = &mut v[..];
    s.write_all(format!("hello{}", 2).as_bytes())
        .expect("failed to write to slice");
    println!("vec size: {}", v.len());
    assert_eq!(v.len(), 10);
    assert_eq!(&v[..6], b"hello2");
}

#[test]
fn test_log() {
    let mut _buf = [0u8; 32];
    println!("{}", log_line(now_nanos().unwrap(), "[DBG] test dbglog."));
    println!("{}", log_line(now_nanos().unwrap(), "any msg"));
    assert_eq!(
        log_line(1_709_251_199_000_001_999, "any msg"),
        "[20240229-23:59:59.000001] any msg"
    );
}
