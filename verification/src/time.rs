//! Wall-clock arithmetic: deriving the start-of-day clock reading from a
//! Unix-epoch nanosecond timestamp, and rendering "HH:MM" axis labels from
//! relative-second offsets.

use vstd::prelude::*;

verus! {

/// Hour of day (0..24) of a Unix-epoch nanosecond timestamp, in UTC.
/// Unix time contains no leap seconds, so the hour of day is plain
/// integer arithmetic on the second count.
pub open spec fn hour_of_ns(ts: u64) -> u64 {
    ((((ts as int) / 1_000_000_000) / 3600) % 24) as u64
}

/// Minute within the hour (0..60) of a Unix-epoch nanosecond timestamp, in UTC.
pub open spec fn minute_of_ns(ts: u64) -> u64 {
    ((((ts as int) / 1_000_000_000) / 60) % 60) as u64
}

/// Derives the UTC wall-clock hour and minute of a Unix-epoch nanosecond
/// timestamp. This is total calendar arithmetic: it succeeds for every
/// timestamp value.
pub fn derive_start_clock(ts: u64) -> (r: (u64, u64))
    ensures
        r.0 == hour_of_ns(ts),
        r.1 == minute_of_ns(ts),
        r.0 < 24,
        r.1 < 60,
{
    let secs: u64 = ts / 1_000_000_000;
    let hour: u64 = (secs / 3600) % 24;
    let minute: u64 = (secs / 60) % 60;
    (hour, minute)
}

/// The character for a single decimal digit value.
pub open spec fn digit_char(d: int) -> char {
    ((48 + d) as u8) as char
}

/// Two-digit zero-padded decimal rendering of a value below one hundred.
pub open spec fn two_digits(v: int) -> Seq<char> {
    seq![digit_char(v / 10), digit_char(v % 10)]
}

/// The axis label owed for `seconds` elapsed since a series' zero reference,
/// where the reference fell at wall-clock `sh:sm`: empty below one minute,
/// otherwise the "HH:MM" clock reading, with hours wrapping modulo 24.
pub open spec fn label_spec(seconds: u64, sh: u64, sm: u64) -> Seq<char> {
    if seconds < 60 {
        Seq::<char>::empty()
    } else {
        let mp = (seconds as int) / 60;
        let (hour, minute): (int, int) = if seconds >= 3600 {
            let rem = mp % 60;
            if rem + sm >= 60 {
                ((sh + mp / 60 + 1) % 24, rem + sm - 60)
            } else {
                ((sh + mp / 60) % 24, sm + rem)
            }
        } else {
            if mp + sm >= 60 {
                ((sh + 1) % 24, sm + mp - 60)
            } else {
                (sh as int, sm + mp)
            }
        };
        two_digits(hour) + seq![':'] + two_digits(minute)
    }
}

/// Relies on `String::push`: appends one character to the string.
#[verifier::external_body]
fn push_char(s: &mut String, c: char)
    ensures
        final(s)@ == old(s)@.push(c),
{
    s.push(c)
}

/// Appends the two-digit zero-padded rendering of `v` to `s`.
fn push_two_digits(s: &mut String, v: u64)
    requires
        v < 100,
    ensures
        final(s)@ == old(s)@ + two_digits(v as int),
{
    let tens: u8 = 48 + (v / 10) as u8;
    let ones: u8 = 48 + (v % 10) as u8;
    push_char(s, tens as char);
    push_char(s, ones as char);
    proof {
        assert(s@ =~= old(s)@ + two_digits(v as int));
    }
}

/// Renders an axis tick as a 24-hour "HH:MM" clock reading, given the
/// relative seconds elapsed since a series' zero reference and the wall-clock
/// hour and minute that the reference corresponded to. Ticks below one
/// minute get an empty label.
pub fn get_time_axis_string(seconds: u64, start_hour: u64, start_minute: u64) -> (r: String)
    requires
        start_hour < 24,
        start_minute < 60,
    ensures
        r@ == label_spec(seconds, start_hour, start_minute),
        seconds < 60 <==> r@.len() == 0,
{
    if seconds < 60 {
        let r = String::new();
        proof {
            assert(r@ =~= label_spec(seconds, start_hour, start_minute));
        }
        return r;
    }
    let minutes_part: u64 = seconds / 60;
    let (hour, minute): (u64, u64) = if seconds >= 3600 {
        let remaining_minutes: u64 = minutes_part % 60;
        if remaining_minutes + start_minute >= 60 {
            (((start_hour + minutes_part / 60 + 1) % 24), remaining_minutes + start_minute - 60)
        } else {
            (((start_hour + minutes_part / 60) % 24), start_minute + remaining_minutes)
        }
    } else {
        if minutes_part + start_minute >= 60 {
            ((start_hour + 1) % 24, start_minute + minutes_part - 60)
        } else {
            (start_hour, start_minute + minutes_part)
        }
    };
    let mut r = String::new();
    push_two_digits(&mut r, hour);
    push_char(&mut r, ':');
    push_two_digits(&mut r, minute);
    proof {
        assert(r@ =~= label_spec(seconds, start_hour, start_minute));
    }
    r
}

} // verus!
