//! The clock, and times as text.

use crate::text::{
    all_digits, digit_value, digits_limit, digits_value, law_padded, lemma_digits_taken,
    lemma_padded_width, padded, push_padded,
};
use std::time::{Duration, SystemTime};
use vstd::prelude::*;

verus! {

/// A point in time of the system's clock.
#[verifier::external_type_specification]
#[verifier::external_body]
pub struct ExSystemTime(SystemTime);

/// `std::time::SystemTime::now`: nothing is claimed of what the clock shows.
#[verifier::external_body]
fn system_now() -> (r: SystemTime) {
    SystemTime::now()
}

/// `std::time::SystemTime::duration_since`, from the epoch on: `None` for a time before it. Times are
/// opaque, so nothing is claimed of it.
#[verifier::external_body]
fn since_epoch(time: SystemTime) -> (r: Option<Duration>) {
    time.duration_since(SystemTime::UNIX_EPOCH).ok()
}

/// `std::time::Duration::as_nanos`. Spans of time are opaque, so nothing is claimed of it.
#[verifier::external_body]
fn duration_nanos(duration: &Duration) -> (r: u128) {
    duration.as_nanos()
}

/// `std::time::Duration::as_millis`. Spans of time are opaque, so nothing is claimed of it.
#[verifier::external_body]
fn duration_millis(duration: &Duration) -> (r: u128) {
    duration.as_millis()
}

/// The clock, when it was read, showed this time.
pub closed spec fn clock_showed(time: SystemTime) -> bool {
    call_ensures(system_now, (), time)
}

/// What the system gave, when it was asked, as the span from the epoch to the time.
pub closed spec fn span_given(time: SystemTime, span: Option<Duration>) -> bool {
    call_ensures(since_epoch, (time,), span)
}

/// What the system gave, when it was asked, as the nanoseconds of the span.
pub closed spec fn nanos_given(span: Duration, n: u128) -> bool {
    call_ensures(duration_nanos, (&span,), n)
}

/// What the system gave, when it was asked, as the milliseconds of the span.
pub closed spec fn millis_given(span: Duration, n: u128) -> bool {
    call_ensures(duration_millis, (&span,), n)
}

/// The nanoseconds that the system gave for the time, or `None` if it gave no span.
pub open spec fn nanos_since_epoch(time: SystemTime, n: Option<u128>) -> bool {
    exists|span: Option<Duration>| #[trigger]
        span_given(time, span) && match span {
            Some(d) => n matches Some(k) && nanos_given(d, k),
            None => n is None,
        }
}

/// The milliseconds that the system gave for the time, or `None` if it gave no span.
pub open spec fn millis_since_epoch(time: SystemTime, n: Option<u128>) -> bool {
    exists|span: Option<Duration>| #[trigger]
        span_given(time, span) && match span {
            Some(d) => n matches Some(k) && millis_given(d, k),
            None => n is None,
        }
}

/// A count since the epoch as a signed number, of which the lowest bits are kept.
pub open spec fn counted(since_epoch: Option<u128>) -> Option<i64> {
    match since_epoch {
        Some(n) => Some(n as i64),
        None => None,
    }
}

/// A count since the epoch as a signed number, of which the lowest bits are kept.
pub fn clock_count(since_epoch: Option<u128>) -> (r: Option<i64>)
    ensures
        r == counted(since_epoch),
{
    match since_epoch {
        Some(n) => Some(n as i64),
        None => None,
    }
}

/// Nanoseconds since the epoch, or `None` if the clock shows a time before it: the count that the
/// system gives for a time that the clock showed.
pub fn now_nanos() -> (r: Option<i64>)
    ensures
        exists|time: SystemTime, n: Option<u128>|
            clock_showed(time) && #[trigger] nanos_since_epoch(time, n) && r == counted(n),
{
    let time = system_now();
    let span = since_epoch(time);
    assert(clock_showed(time));
    assert(span_given(time, span));
    match span {
        Some(duration) => {
            let n = duration_nanos(&duration);
            assert(nanos_given(duration, n));
            assert(nanos_since_epoch(time, Some(n)));
            clock_count(Some(n))
        },
        None => {
            assert(nanos_since_epoch(time, None));
            clock_count(None)
        },
    }
}

/// Milliseconds from the epoch to the time, or `None` if it is before it: the count that the system
/// gives for the time.
pub fn unix_millis(time: SystemTime) -> (r: Option<i64>)
    ensures
        exists|n: Option<u128>| #[trigger] millis_since_epoch(time, n) && r == counted(n),
{
    let span = since_epoch(time);
    assert(span_given(time, span));
    match span {
        Some(duration) => {
            let n = duration_millis(&duration);
            assert(millis_given(duration, n));
            assert(millis_since_epoch(time, Some(n)));
            clock_count(Some(n))
        },
        None => {
            assert(millis_since_epoch(time, None));
            clock_count(None)
        },
    }
}

/// A time as the calendar has it: years since 1900, and months from zero on.
#[derive(Debug, Clone, Copy, PartialEq, Eq, Structural)]
pub struct CalendarTime {
    pub tm_year: i32,
    pub tm_mon: i32,
    pub tm_mday: i32,
    pub tm_hour: i32,
    pub tm_min: i32,
    pub tm_sec: i32,
}

/// Nanoseconds as seconds and the nanoseconds beyond them, both with the sign of the whole.
pub fn split_nanos(nanos: i64) -> (r: (i64, i64))
    ensures
        nanos == r.0 * 1_000_000_000 + r.1,
        -1_000_000_000 < r.1 < 1_000_000_000,
        nanos >= 0 ==> r.0 >= 0 && r.1 >= 0,
        nanos <= 0 ==> r.0 <= 0 && r.1 <= 0,
{
    (nanos / 1_000_000_000, nanos % 1_000_000_000)
}

/// Date and time of day.
pub open spec fn date_text(tm: CalendarTime) -> Seq<char> {
    padded(tm.tm_year + 1900, 4) + padded(tm.tm_mon + 1, 2) + padded(tm.tm_mday as int, 2) + seq!['-']
        + padded(tm.tm_hour as int, 2) + seq![':'] + padded(tm.tm_min as int, 2) + seq![':'] + padded(
        tm.tm_sec as int,
        2,
    )
}

/// The time as text.
pub open spec fn time_text(tm: CalendarTime, nanos: i64, subsecond_digits: u32) -> Seq<char> {
    date_text(tm).take(17) + fraction_text(nanos, subsecond_digits)
}

/// The nanoseconds towards zero, as microseconds.
pub open spec fn nanos_micros(nanos: i64) -> int {
    if nanos >= 0 {
        nanos as int / 1000
    } else {
        -((-nanos) / 1000)
    }
}

/// The fraction of a second: a point and its digits, in groups of three.
pub open spec fn fraction_text(nanos: i64, subsecond_digits: u32) -> Seq<char> {
    if 0 < subsecond_digits < 10 {
        let digits = if subsecond_digits == 3 {
            padded(nanos_micros(nanos), 6)
        } else {
            padded(nanos as int, 9)
        };
        (seq!['.'] + digits).take(subsecond_digits as int / 3 * 3 + 1)
    } else {
        Seq::empty()
    }
}

/// The time as text: seventeen characters of date and time of day, such as `20240131-08:05:09`, and
/// the fraction of a second.
///
/// * `nanos` - the nanoseconds beyond the seconds of the time.
/// * `subsecond_digits` - 0, 3, 6 or 9.
pub fn format_time(tm: &CalendarTime, nanos: i64, subsecond_digits: u32) -> (r: String)
    requires
        tm.tm_year <= i32::MAX - 1900,
        tm.tm_mon < i32::MAX,
    ensures
        r@ == date_text(*tm).take(17) + fraction_text(nanos, subsecond_digits),
        r@ == time_text(*tm, nanos, subsecond_digits),
{
    let mut date = String::new();
    proof {
        reveal_strlit("-");
        reveal_strlit(":");
        reveal_strlit(".");
        lemma_padded_width(tm.tm_year + 1900, 4);
        lemma_padded_width(tm.tm_mon + 1, 2);
        lemma_padded_width(tm.tm_mday as int, 2);
        lemma_padded_width(tm.tm_hour as int, 2);
        lemma_padded_width(tm.tm_min as int, 2);
        lemma_padded_width(tm.tm_sec as int, 2);
    }
    push_padded(&mut date, (tm.tm_year + 1900) as i64, 4);
    push_padded(&mut date, (tm.tm_mon + 1) as i64, 2);
    push_padded(&mut date, tm.tm_mday as i64, 2);
    date.append("-");
    push_padded(&mut date, tm.tm_hour as i64, 2);
    date.append(":");
    push_padded(&mut date, tm.tm_min as i64, 2);
    date.append(":");
    push_padded(&mut date, tm.tm_sec as i64, 2);
    assert(date@ =~= date_text(*tm));
    let mut r = date.as_str().substring_char(0, 17).to_owned();
    if subsecond_digits > 0 && subsecond_digits < 10 {
        let mut fraction = ".".to_owned();
        if subsecond_digits == 3 {
            proof {
                lemma_padded_width(nanos_micros(nanos), 6);
            }
            push_padded(&mut fraction, nanos / 1000, 6);
        } else {
            proof {
                lemma_padded_width(nanos as int, 9);
            }
            push_padded(&mut fraction, nanos, 9);
        }
        let n: usize = (subsecond_digits / 3 * 3 + 1) as usize;
        r.append(fraction.as_str().substring_char(0, n));
        assert(r@ =~= date_text(*tm).take(17) + fraction_text(nanos, subsecond_digits));
    }
    assert(r@ =~= date_text(*tm).take(17) + fraction_text(nanos, subsecond_digits));
    r
}

/// A count that a signed number can hold is kept, and no count stays none. Of a larger one the lowest
/// 64 bits are kept.
pub proof fn law_clock_count(n: u128)
    ensures
        counted(None) is None,
        n <= i64::MAX ==> counted(Some(n)) == Some(n as i64) && n as i64 == n,
        counted(Some(n)) matches Some(v) && (v as u64) as int == n % 0x1_0000_0000_0000_0000,
{
    assert((n as i64) as u64 == (n % 0x1_0000_0000_0000_0000u128) as u64) by (bit_vector);
}

/// The fields of a time of the years up to 9999, as they stand in the text: four digits of the year,
/// two each of the month, counted from one, the day, the hour, the minute and the second.
pub proof fn law_date_fields(tm: CalendarTime)
    requires
        0 <= tm.tm_year + 1900 <= 9999,
        0 <= tm.tm_mon <= 11,
        1 <= tm.tm_mday <= 31,
        0 <= tm.tm_hour <= 23,
        0 <= tm.tm_min <= 59,
        0 <= tm.tm_sec <= 60,
    ensures
        ({
            let text = date_text(tm);
            &&& text.len() == 17
            &&& digits_value(text.subrange(0, 4)) == tm.tm_year + 1900
            &&& digits_value(text.subrange(4, 6)) == tm.tm_mon + 1
            &&& digits_value(text.subrange(6, 8)) == tm.tm_mday
            &&& text[8] == '-'
            &&& digits_value(text.subrange(9, 11)) == tm.tm_hour
            &&& text[11] == ':'
            &&& digits_value(text.subrange(12, 14)) == tm.tm_min
            &&& text[14] == ':'
            &&& digits_value(text.subrange(15, 17)) == tm.tm_sec
            &&& all_digits(text.subrange(0, 8))
            &&& all_digits(text.subrange(9, 11))
            &&& all_digits(text.subrange(12, 14))
            &&& all_digits(text.subrange(15, 17))
        }),
{
    reveal_with_fuel(digits_limit, 5);
    law_padded(tm.tm_year + 1900, 4);
    law_padded(tm.tm_mon + 1, 2);
    law_padded(tm.tm_mday as int, 2);
    law_padded(tm.tm_hour as int, 2);
    law_padded(tm.tm_min as int, 2);
    law_padded(tm.tm_sec as int, 2);
    let text = date_text(tm);
    let (year, mon, day) = (
        padded(tm.tm_year + 1900, 4),
        padded(tm.tm_mon + 1, 2),
        padded(tm.tm_mday as int, 2),
    );
    assert(text.subrange(0, 4) =~= year);
    assert(text.subrange(4, 6) =~= mon);
    assert(text.subrange(6, 8) =~= day);
    assert(text.subrange(9, 11) =~= padded(tm.tm_hour as int, 2));
    assert(text.subrange(12, 14) =~= padded(tm.tm_min as int, 2));
    assert(text.subrange(15, 17) =~= padded(tm.tm_sec as int, 2));
    assert forall|i: int| 0 <= i < 8 implies 0 <= digit_value(
        #[trigger] text.subrange(0, 8)[i],
    ) <= 9 by {
        let part = text.subrange(0, 8);
        if i < 4 {
            assert(part[i] == year[i]);
        } else if i < 6 {
            assert(part[i] == mon[i - 4]);
        } else {
            assert(part[i] == day[i - 6]);
        }
    }
}

/// The fraction of a second in thousandths, millionths or billionths, rounded down, behind a point; or
/// none.
pub proof fn law_fraction(nanos: i64)
    requires
        0 <= nanos < 1_000_000_000,
    ensures
        fraction_text(nanos, 0) == Seq::<char>::empty(),
        ({
            let text = fraction_text(nanos, 3);
            &&& text.len() == 4 && text[0] == '.' && all_digits(text.skip(1))
            &&& digits_value(text.skip(1)) == nanos as int / 1_000_000
        }),
        ({
            let text = fraction_text(nanos, 6);
            &&& text.len() == 7 && text[0] == '.' && all_digits(text.skip(1))
            &&& digits_value(text.skip(1)) == nanos as int / 1000
        }),
        ({
            let text = fraction_text(nanos, 9);
            &&& text.len() == 10 && text[0] == '.' && all_digits(text.skip(1))
            &&& digits_value(text.skip(1)) == nanos
        }),
{
    reveal_with_fuel(digits_limit, 10);
    let micros = padded(nanos_micros(nanos), 6);
    let all = padded(nanos as int, 9);
    law_padded(nanos_micros(nanos), 6);
    law_padded(nanos as int, 9);
    lemma_digits_taken(micros, 3);
    assert(digits_limit(3) == 1000);
    assert(nanos as int / 1000 / 1000 == nanos as int / 1_000_000);
    lemma_digits_taken(all, 6);
    assert(fraction_text(nanos, 3).skip(1) =~= micros.take(3));
    assert(fraction_text(nanos, 6).skip(1) =~= all.take(6));
    assert(fraction_text(nanos, 9).skip(1) =~= all);
    lemma_some_digits(micros, 3);
    lemma_some_digits(all, 6);
}

proof fn lemma_some_digits(s: Seq<char>, k: int)
    requires
        all_digits(s),
        0 <= k <= s.len(),
    ensures
        all_digits(s.take(k)),
{
    assert forall|i: int| 0 <= i < k implies 0 <= digit_value(#[trigger] s.take(k)[i]) <= 9 by {
        assert(s.take(k)[i] == s[i]);
    }
}

/// A time of the years up to 9999 is seventeen characters of date and time of day, and behind them a
/// point and as many digits of the fraction as are asked for.
pub proof fn law_time_text(tm: CalendarTime, nanos: i64, subsecond_digits: u32)
    requires
        0 <= tm.tm_year + 1900 <= 9999,
        0 <= tm.tm_mon <= 11,
        1 <= tm.tm_mday <= 31,
        0 <= tm.tm_hour <= 23,
        0 <= tm.tm_min <= 59,
        0 <= tm.tm_sec <= 60,
        0 <= nanos < 1_000_000_000,
        subsecond_digits == 0 || subsecond_digits == 3 || subsecond_digits == 6
            || subsecond_digits == 9,
    ensures
        ({
            let text = time_text(tm, nanos, subsecond_digits);
            &&& text.len() == (if subsecond_digits == 0 {
                17
            } else {
                18 + subsecond_digits as int
            })
            &&& digits_value(text.subrange(0, 4)) == tm.tm_year + 1900
            &&& digits_value(text.subrange(4, 6)) == tm.tm_mon + 1
            &&& digits_value(text.subrange(6, 8)) == tm.tm_mday
            &&& digits_value(text.subrange(9, 11)) == tm.tm_hour
            &&& digits_value(text.subrange(12, 14)) == tm.tm_min
            &&& digits_value(text.subrange(15, 17)) == tm.tm_sec
            &&& text[8] == '-' && text[11] == ':' && text[14] == ':'
            &&& subsecond_digits > 0 ==> text[17] == '.' && digits_value(text.skip(18)) == nanos as int
                / (if subsecond_digits == 3 {
                1_000_000int
            } else if subsecond_digits == 6 {
                1000
            } else {
                1
            })
        }),
{
    law_date_fields(tm);
    law_fraction(nanos);
    let text = time_text(tm, nanos, subsecond_digits);
    let (date, fraction) = (date_text(tm), fraction_text(nanos, subsecond_digits));
    assert(text =~= date + fraction);
    assert(text.subrange(0, 4) =~= date.subrange(0, 4));
    assert(text.subrange(4, 6) =~= date.subrange(4, 6));
    assert(text.subrange(6, 8) =~= date.subrange(6, 8));
    assert(text.subrange(9, 11) =~= date.subrange(9, 11));
    assert(text.subrange(12, 14) =~= date.subrange(12, 14));
    assert(text.subrange(15, 17) =~= date.subrange(15, 17));
    if subsecond_digits > 0 {
        assert(text.skip(18) =~= fraction.skip(1));
    }
}

} // verus!
