//! Formatting QSO durations for log columns.

use vstd::prelude::*;
use crate::textual::{
    chars_to_string, decimal, decimal_chars, digit_char, extend_chars, zero_padded, zero_padded_chars,
};

verus! {

/// A point in time as whole seconds and nanoseconds since the Unix epoch.
#[derive(Debug, Clone, Copy, PartialEq, Eq, Structural)]
pub struct Timestamp {
    pub seconds: i64,
    pub nanos: i32,
}

/// The timing fields of a logged contact: when it started and, once known,
/// when it ended.
#[derive(Debug, Clone, Copy, PartialEq, Eq, Structural)]
pub struct QsoRecord {
    pub utc_timestamp: Option<Timestamp>,
    pub utc_end_timestamp: Option<Timestamp>,
}

impl Default for QsoRecord {
    fn default() -> (r: Self)
        ensures
            r.utc_timestamp.is_none(),
            r.utc_end_timestamp.is_none(),
    {
        QsoRecord { utc_timestamp: None, utc_end_timestamp: None }
    }
}

/// `"Ns"` under a minute, `"Mm SSs"` under an hour, `"Hh MMm"` from an hour.
pub open spec fn duration_text(total: nat) -> Seq<char> {
    let hours = total / 3600;
    let minutes = (total % 3600) / 60;
    let secs = total % 60;
    if hours > 0 {
        decimal(hours) + seq!['h', ' '] + zero_padded(minutes, 2) + seq!['m']
    } else if minutes > 0 {
        decimal(minutes) + seq!['m', ' '] + zero_padded(secs, 2) + seq!['s']
    } else {
        decimal(secs) + seq!['s']
    }
}

/// Formats a positive duration in whole seconds for a log column
/// (`45s`, `2m 35s`, `1h 12m`); `None` when `seconds <= 0`.
pub fn format_duration_seconds(seconds: i64) -> (r: Option<String>)
    ensures
        seconds <= 0 ==> r.is_none(),
        seconds > 0 ==> r.is_some() && r.unwrap()@ == duration_text(seconds as nat),
{
    if seconds <= 0 {
        return None;
    }
    let total = seconds as u64;
    let hours = total / 3600;
    let minutes = (total % 3600) / 60;
    let secs = total % 60;
    let mut out: Vec<char>;
    if hours > 0 {
        out = decimal_chars(hours);
        extend_chars(&mut out, &['h', ' ']);
        let m = zero_padded_chars(minutes, 2);
        extend_chars(&mut out, m.as_slice());
        out.push('m');
    } else if minutes > 0 {
        out = decimal_chars(minutes);
        extend_chars(&mut out, &['m', ' ']);
        let s = zero_padded_chars(secs, 2);
        extend_chars(&mut out, s.as_slice());
        out.push('s');
    } else {
        out = decimal_chars(secs);
        out.push('s');
    }
    Some(chars_to_string(out.as_slice()))
}

/// The contact's length in seconds when both timestamps are present and the
/// end is strictly after the start.
pub open spec fn duration_between(start: Option<Timestamp>, end: Option<Timestamp>) -> Option<int> {
    match (start, end) {
        (Some(s), Some(e)) => {
            let d = e.seconds - s.seconds;
            if i64::MIN <= d <= i64::MAX && d > 0 {
                Some(d)
            } else {
                None
            }
        },
        _ => None,
    }
}

/// The QSO duration in seconds when both timestamps are present and
/// `end > start` (and the difference fits in an `i64`).
pub fn qso_duration_seconds(start: Option<&Timestamp>, end: Option<&Timestamp>) -> (r: Option<
    i64,
>)
    ensures
        r == match duration_between(
            match start {
                Some(s) => Some(*s),
                None => None,
            },
            match end {
                Some(e) => Some(*e),
                None => None,
            },
        ) {
            Some(d) => Some(d as i64),
            None => None,
        },
{
    let start = match start {
        Some(s) => s,
        None => return None,
    };
    let end = match end {
        Some(e) => e,
        None => return None,
    };
    let delta = match end.seconds.checked_sub(start.seconds) {
        Some(d) => d,
        None => return None,
    };
    if delta > 0 {
        Some(delta)
    } else {
        None
    }
}

/// The formatted duration of a contact from its start and end timestamps.
pub fn format_qso_duration(record: &QsoRecord) -> (r: Option<String>)
    ensures
        match duration_between(record.utc_timestamp, record.utc_end_timestamp) {
            Some(d) => r.is_some() && r.unwrap()@ == duration_text(d as nat),
            None => r.is_none(),
        },
{
    let seconds = match qso_duration_seconds(
        record.utc_timestamp.as_ref(),
        record.utc_end_timestamp.as_ref(),
    ) {
        Some(s) => s,
        None => return None,
    };
    format_duration_seconds(seconds)
}

proof fn lemma_two_digits(n: nat)
    requires
        n < 100,
    ensures
        zero_padded(n, 2) == seq![digit_char(n / 10), digit_char(n % 10)],
{
    if n < 10 {
        assert(decimal(n) == seq![digit_char(n)]);
        assert(zero_padded(n, 2) =~= seq![digit_char(0), digit_char(n)]);
    } else {
        assert(decimal(n / 10) == seq![digit_char(n / 10)]);
        assert(decimal(n) == seq![digit_char(n / 10)].push(digit_char(n % 10)));
        assert(zero_padded(n, 2) =~= seq![digit_char(n / 10), digit_char(n % 10)]);
    }
}

/// From a minute to an hour a duration reads as the whole minutes, `m `,
/// the seconds as exactly two digits (tens of seconds, then the last digit
/// of the total), and `s`.
pub proof fn lemma_minutes_and_two_digit_seconds(total: nat)
    requires
        60 <= total < 3600,
    ensures
        ({
            let r = duration_text(total);
            let m = decimal(total / 60);
            &&& r.len() == m.len() + 5
            &&& r.take(m.len() as int) == m
            &&& r[m.len() as int] == 'm'
            &&& r[m.len() as int + 1] == ' '
            &&& r[m.len() as int + 2] == digit_char((total % 60) / 10)
            &&& r[m.len() as int + 3] == digit_char(total % 10)
            &&& r[m.len() as int + 4] == 's'
        }),
{
    let secs = total % 60;
    assert((total % 3600) / 60 == total / 60);
    assert(total / 3600 == 0);
    vstd::arithmetic::div_mod::lemma_mod_mod(total as int, 10, 6);
    assert(secs % 10 == total % 10);
    lemma_two_digits(secs);
    let r = duration_text(total);
    let m = decimal(total / 60);
    assert(r == m + seq!['m', ' '] + seq![digit_char(secs / 10), digit_char(secs % 10)] + seq!['s']);
    assert(r.take(m.len() as int) =~= m);
}

/// From an hour on a duration reads as the whole hours, `h `, the minutes
/// past the hour as exactly two digits, and `m`.
pub proof fn lemma_hours_and_two_digit_minutes(total: nat)
    requires
        3600 <= total,
    ensures
        ({
            let r = duration_text(total);
            let h = decimal(total / 3600);
            let minutes = (total % 3600) / 60;
            &&& r.len() == h.len() + 5
            &&& r.take(h.len() as int) == h
            &&& r[h.len() as int] == 'h'
            &&& r[h.len() as int + 1] == ' '
            &&& r[h.len() as int + 2] == digit_char(minutes / 10)
            &&& r[h.len() as int + 3] == digit_char(minutes % 10)
            &&& r[h.len() as int + 4] == 'm'
        }),
{
    let minutes = (total % 3600) / 60;
    assert(minutes < 60);
    lemma_two_digits(minutes);
    let r = duration_text(total);
    let h = decimal(total / 3600);
    assert(r == h + seq!['h', ' '] + seq![digit_char(minutes / 10), digit_char(minutes % 10)] + seq!['m']);
    assert(r.take(h.len() as int) =~= h);
}

} // verus!
