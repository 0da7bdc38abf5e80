use reactio::utils::{
    clock_count, format_time, now_nanos, split_nanos, unix_millis, CalendarTime,
};
use std::time::{Duration, SystemTime};

const TM: CalendarTime = CalendarTime {
    tm_year: 124,
    tm_mon: 0,
    tm_mday: 31,
    tm_hour: 7,
    tm_min: 5,
    tm_sec: 9,
};

#[test]
fn times_are_padded() {
    assert_eq!(format_time(&TM, 0, 0), "20240131-07:05:09");
    assert_eq!(format_time(&TM, 12_034_567, 3), "20240131-07:05:09.012");
    assert_eq!(format_time(&TM, 12_034_567, 6), "20240131-07:05:09.012034");
    assert_eq!(
        format_time(&TM, 12_034_567, 9),
        "20240131-07:05:09.012034567"
    );
    assert_eq!(format_time(&TM, 999, 12), "20240131-07:05:09");
    assert_eq!(format_time(&TM, -5, 9), "20240131-07:05:09.-00000005");
    assert_eq!(format_time(&TM, -5_000, 3), "20240131-07:05:09.-00");
    let late = CalendarTime {
        tm_hour: 23,
        ..TM
    };
    assert_eq!(format_time(&late, 0, 0), "20240131-23:05:09");
    let epoch = CalendarTime {
        tm_year: 70,
        tm_mon: 0,
        tm_mday: 1,
        tm_hour: 0,
        tm_min: 0,
        tm_sec: 0,
    };
    assert_eq!(
        format_time(&epoch, 123_456_789, 3),
        "19700101-00:00:00.123"
    );
}

#[test]
fn nanoseconds_are_split_towards_zero() {
    assert_eq!(split_nanos(1_234_567_890_123), (1234, 567_890_123));
    assert_eq!(split_nanos(-1_500_000_000), (-1, -500_000_000));
    assert_eq!(split_nanos(0), (0, 0));
}

#[test]
fn clock_counts_from_the_epoch() {
    assert_eq!(clock_count(Some(17)), Some(17));
    assert_eq!(clock_count(Some(1 << 63)), Some(i64::MIN));
    assert_eq!(clock_count(None), None);
    let after = SystemTime::UNIX_EPOCH + Duration::from_micros(12_345_678);
    assert_eq!(unix_millis(after), Some(12_345));
    let before = SystemTime::UNIX_EPOCH - Duration::from_millis(1);
    assert_eq!(unix_millis(before), None);
    let first = now_nanos().unwrap();
    assert!(first > 1_600_000_000_000_000_000);
    let millis = unix_millis(SystemTime::now()).unwrap();
    assert!(millis >= first / 1_000_000);
}
