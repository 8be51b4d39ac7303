//! Instants, calendar days and durations.
use vstd::prelude::*;
use vstd::arithmetic::div_mod::{lemma_fundamental_div_mod_converse, lemma_hoist_over_denominator};
use chrono::{Datelike, TimeZone};
use crate::text::{trimmed, int_text_value, trim_bounds, parse_int_range, colon_in, find_colon};

verus! {

/// Largest distance from the Unix epoch, in seconds, of a supported instant
/// (about 253,000 years either way).
pub const MAX_SECS: i64 = 8_000_000_000_000;

/// Nanoseconds in one second.
pub const NANOS_PER_SEC: u32 = 1_000_000_000;

/// Largest distance from the epoch, in days, of a supported calendar day.
pub const MAX_DAY: i64 = 93_000_000;

/// A point in time on the UTC time line: whole seconds since the Unix
/// epoch and the nanoseconds within that second.
#[derive(Clone, Copy, Debug, PartialEq, Eq, Structural, PartialOrd, Ord, Hash)]
pub struct Instant {
    pub secs: i64,
    pub nanos: u32,
}

impl Instant {
    /// Within the supported range, with a sub-second part below one second.
    pub open spec fn wf(self) -> bool {
        -MAX_SECS <= self.secs <= MAX_SECS && self.nanos < NANOS_PER_SEC
    }

    /// Nanoseconds since the epoch.
    pub open spec fn at(self) -> int {
        self.secs * 1_000_000_000 + self.nanos
    }

    /// Builds an instant from seconds and nanoseconds since the epoch.
    pub fn new(secs: i64, nanos: u32) -> (r: Instant)
        ensures
            r.secs == secs,
            r.nanos == nanos,
    {
        Instant { secs, nanos }
    }

    /// Whether `self` lies strictly before `other`.
    pub fn is_before(&self, other: &Instant) -> (r: bool)
        requires
            self.wf(),
            other.wf(),
        ensures
            r == (self.at() < other.at()),
    {
        if self.secs < other.secs {
            assert(self.at() < other.at()) by (nonlinear_arith)
                requires
                    self.nanos < 1_000_000_000, other.nanos >= 0, self.secs + 1 <= other.secs,
                    self.at() == self.secs * 1_000_000_000 + self.nanos,
                    other.at() == other.secs * 1_000_000_000 + other.nanos;
            true
        } else if self.secs > other.secs {
            assert(self.at() > other.at()) by (nonlinear_arith)
                requires
                    other.nanos < 1_000_000_000, self.nanos >= 0, other.secs + 1 <= self.secs,
                    self.at() == self.secs * 1_000_000_000 + self.nanos,
                    other.at() == other.secs * 1_000_000_000 + other.nanos;
            false
        } else {
            self.nanos < other.nanos
        }
    }
}

/// Whole seconds elapsed from `start` to `end`; nothing when `end` comes first.
pub open spec fn span_secs(start: Instant, end: Instant) -> nat {
    if start.at() <= end.at() {
        ((end.at() - start.at()) / 1_000_000_000) as nat
    } else {
        0
    }
}

/// Whole seconds elapsed from `start` to `end`, or 0 when `end` comes first.
pub fn elapsed_secs(start: Instant, end: Instant) -> (r: u64)
    requires
        start.wf(),
        end.wf(),
    ensures
        r == span_secs(start, end),
{
    let ds: i64 = end.secs - start.secs;
    let ghost diff: int = end.at() - start.at();
    if end.nanos >= start.nanos {
        proof {
            lemma_fundamental_div_mod_converse(diff, 1_000_000_000, ds as int, end.nanos - start.nanos);
        }
        if ds < 0 {
            assert(diff < 0) by (nonlinear_arith)
                requires diff == ds * 1_000_000_000 + (end.nanos - start.nanos), ds <= -1,
                    end.nanos - start.nanos < 1_000_000_000;
            0
        } else {
            ds as u64
        }
    } else {
        proof {
            lemma_fundamental_div_mod_converse(diff, 1_000_000_000, ds - 1,
                1_000_000_000 + end.nanos - start.nanos);
        }
        if ds <= 0 {
            assert(diff < 0) by (nonlinear_arith)
                requires diff == ds * 1_000_000_000 + (end.nanos - start.nanos), ds <= 0,
                    end.nanos < start.nanos;
            0
        } else {
            (ds - 1) as u64
        }
    }
}

/// A UTC offset in seconds that a time zone can have.
pub open spec fn valid_offset(offset: i32) -> bool {
    -86_400 < offset < 86_400
}

/// The local calendar day, counted in days since 1970-01-01, of an instant
/// seen at a UTC offset.
pub open spec fn day_of(t: Instant, offset: i32) -> int {
    (t.secs + offset) / 86_400
}

/// The local calendar day of `t` at UTC offset `offset`, in days since
/// 1970-01-01.
pub fn local_day(t: Instant, offset: i32) -> (r: i64)
    requires
        t.wf(),
        valid_offset(offset),
    ensures
        r == day_of(t, offset),
        -MAX_DAY <= r <= MAX_DAY,
{
    // Shifted by a whole number of days (10^11) to be non-negative, so that
    // unsigned division rounds down.
    let shifted: u64 = (t.secs + offset as i64 + 8_640_000_000_000_000) as u64;
    let q: u64 = shifted / 86_400;
    proof {
        lemma_hoist_over_denominator(t.secs + offset, 100_000_000_000, 86_400);
        assert(-MAX_DAY <= (t.secs + offset) / 86_400 <= MAX_DAY) by (nonlinear_arith)
            requires -8_000_000_000_000 - 86_400 <= t.secs + offset <= 8_000_000_000_000 + 86_400;
    }
    (q as i64) - 100_000_000_000
}

/// Day of the week of a day counted from 1970-01-01: 0 for Monday through
/// 6 for Sunday.
pub open spec fn weekday_of(day: int) -> int {
    (day + 3) % 7
}

/// The three-letter English name of a day of the week, Monday first.
pub open spec fn weekday_name(w: int) -> Seq<char> {
    if w == 0 {
        "Mon"@
    } else if w == 1 {
        "Tue"@
    } else if w == 2 {
        "Wed"@
    } else if w == 3 {
        "Thu"@
    } else if w == 4 {
        "Fri"@
    } else if w == 5 {
        "Sat"@
    } else {
        "Sun"@
    }
}

/// The abbreviated weekday name of a day counted from 1970-01-01.
pub fn weekday_label(day: i64) -> (r: String)
    requires
        -MAX_DAY <= day <= MAX_DAY,
    ensures
        r@ == weekday_name(weekday_of(day as int)),
{
    let w: i64 = ((day + 3 + 7 * MAX_DAY) as u64 % 7) as i64;
    assert(w == weekday_of(day as int)) by {
        vstd::arithmetic::div_mod::lemma_mod_multiples_vanish(MAX_DAY as int, day + 3, 7);
    }
    if w == 0 {
        String::from_str("Mon")
    } else if w == 1 {
        String::from_str("Tue")
    } else if w == 2 {
        String::from_str("Wed")
    } else if w == 3 {
        String::from_str("Thu")
    } else if w == 4 {
        String::from_str("Fri")
    } else if w == 5 {
        String::from_str("Sat")
    } else {
        String::from_str("Sun")
    }
}

/// The longest duration, in seconds either way, that can be expressed.
pub const MAX_DURATION_SECS: i64 = 9_223_372_036_854_775;

/// Why a text is not a duration.
#[derive(Clone, Copy, Debug, PartialEq, Eq, Structural)]
pub enum DurationError {
    /// Nothing but white space.
    Empty,
    /// What precedes the unit is not a decimal integer.
    InvalidNumber,
    /// The last character is not one of the units m, h, d, w.
    UnknownUnit,
    /// The duration is longer than MAX_DURATION_SECS.
    OutOfRange,
}

/// Seconds in one unit of a duration text: minutes, hours, days or weeks,
/// in either case; 0 for any other character.
pub open spec fn unit_secs(c: char) -> int {
    if c == 'm' || c == 'M' {
        60
    } else if c == 'h' || c == 'H' {
        3600
    } else if c == 'd' || c == 'D' {
        86_400
    } else if c == 'w' || c == 'W' {
        604_800
    } else {
        0
    }
}

/// The seconds a duration text stands for: after trimming white space, a
/// decimal integer followed by one unit character (`90m`, `2h`, `-1d`, `3W`).
pub open spec fn duration_of(s: Seq<char>) -> Result<int, DurationError> {
    let t = trimmed(s);
    if t.len() == 0 {
        Err(DurationError::Empty)
    } else {
        match int_text_value(t.drop_last()) {
            None => Err(DurationError::InvalidNumber),
            Some(n) => {
                if unit_secs(t.last()) == 0 {
                    Err(DurationError::UnknownUnit)
                } else if n * unit_secs(t.last()) > MAX_DURATION_SECS || n * unit_secs(t.last())
                    < -MAX_DURATION_SECS {
                    Err(DurationError::OutOfRange)
                } else {
                    Ok(n * unit_secs(t.last()))
                }
            },
        }
    }
}

/// Reads a duration text such as `30m`, `2h`, `1d` or `1w` as seconds.
pub fn parse_duration(input: &str) -> (r: Result<i64, DurationError>)
    ensures
        duration_of(input@) == match r {
            Ok(v) => Ok(v as int),
            Err(e) => Err::<int, DurationError>(e),
        },
{
    let (lo, hi) = trim_bounds(input);
    let ghost t = trimmed(input@);
    if lo == hi {
        return Err(DurationError::Empty);
    }
    assert(t.drop_last() == input@.subrange(lo as int, hi - 1));
    assert(t.last() == input@[hi - 1]);
    let num = match parse_int_range(input, lo, hi - 1) {
        Some(n) => n,
        None => {
            return Err(DurationError::InvalidNumber);
        },
    };
    let c = input.get_char(hi - 1);
    let unit: i64 = if c == 'm' || c == 'M' {
        60
    } else if c == 'h' || c == 'H' {
        3600
    } else if c == 'd' || c == 'D' {
        86_400
    } else if c == 'w' || c == 'W' {
        604_800
    } else {
        return Err(DurationError::UnknownUnit);
    };
    assert(-9_223_372_036_854_775_808 * 604_800 <= num as int * unit <= 9_223_372_036_854_775_807
        * 604_800) by (nonlinear_arith)
        requires
            i64::MIN <= num <= i64::MAX,
            0 < unit <= 604_800,
    ;
    let total: i128 = (num as i128) * (unit as i128);
    if total > MAX_DURATION_SECS as i128 || total < -(MAX_DURATION_SECS as i128) {
        Err(DurationError::OutOfRange)
    } else {
        Ok(total as i64)
    }
}

/// Relies on chrono::Utc::now: the current UTC time as seconds since the
/// epoch and nanoseconds within that second. Nothing is promised of it.
#[verifier::external_body]
fn clock_reading() -> (r: (i64, u32)) {
    let t = chrono::Utc::now();
    (t.timestamp(), t.timestamp_subsec_nanos())
}

/// The current time, held to the supported range; a leap second reads as
/// the last nanosecond of the second before it.
pub fn now() -> (r: Instant)
    ensures
        r.wf(),
{
    let (secs, nanos) = clock_reading();
    let secs = if secs > MAX_SECS {
        MAX_SECS
    } else if secs < -MAX_SECS {
        -MAX_SECS
    } else {
        secs
    };
    let nanos = if nanos >= NANOS_PER_SEC {
        NANOS_PER_SEC - 1
    } else {
        nanos
    };
    Instant { secs, nanos }
}

/// Relies on chrono::Local (TimeZone::offset_from_utc_datetime and
/// FixedOffset::local_minus_utc): the UTC offset of the machine's time zone
/// at an instant. chrono builds every FixedOffset strictly within one day of
/// UTC, and DateTime::from_timestamp accepts every supported second.
#[verifier::external_body]
fn zone_offset_at(secs: i64) -> (r: i32)
    requires
        -MAX_SECS <= secs <= MAX_SECS,
    ensures
        valid_offset(r),
{
    let utc = chrono::DateTime::from_timestamp(secs, 0).unwrap().naive_utc();
    chrono::Local.offset_from_utc_datetime(&utc).local_minus_utc()
}

/// The UTC offset of the local time zone at `t`.
pub fn local_offset_at(t: Instant) -> (r: i32)
    requires
        t.wf(),
    ensures
        valid_offset(r),
{
    zone_offset_at(t.secs)
}

/// The ISO 8601 week-numbering year and week number of a day counted from
/// 1970-01-01.
pub uninterp spec fn iso_week_of(day: int) -> (int, int);

/// Relies on chrono's NaiveDate::from_epoch_days and Datelike::iso_week: the
/// ISO year and week of a day. Every day within MAX_DAY of the epoch lies
/// inside chrono's NaiveDate range, so the date exists.
#[verifier::external_body]
fn iso_week_raw(day: i32) -> (r: (i32, u32))
    requires
        -MAX_DAY <= day <= MAX_DAY,
    ensures
        (r.0 as int, r.1 as int) == iso_week_of(day as int),
{
    let w = chrono::NaiveDate::from_epoch_days(day).unwrap().iso_week();
    (w.year(), w.week())
}

/// The ISO 8601 (year, week) of a day counted from 1970-01-01.
pub fn iso_week(day: i64) -> (r: (i32, u32))
    requires
        -MAX_DAY <= day <= MAX_DAY,
    ensures
        (r.0 as int, r.1 as int) == iso_week_of(day as int),
{
    iso_week_raw(day as i32)
}

/// The text `YYYY-MM-DD` of a day counted from 1970-01-01.
pub uninterp spec fn date_text(day: int) -> Seq<char>;

/// Relies on chrono's NaiveDate::from_epoch_days and its "%Y-%m-%d"
/// formatting: the calendar date of a day as text.
#[verifier::external_body]
fn date_label_raw(day: i32) -> (r: String)
    requires
        -MAX_DAY <= day <= MAX_DAY,
    ensures
        r@ == date_text(day as int),
{
    chrono::NaiveDate::from_epoch_days(day).unwrap().format("%Y-%m-%d").to_string()
}

/// The calendar date of a day counted from 1970-01-01, as `YYYY-MM-DD`.
pub fn date_label(day: i64) -> (r: String)
    requires
        -MAX_DAY <= day <= MAX_DAY,
    ensures
        r@ == date_text(day as int),
{
    date_label_raw(day as i32)
}

/// A `count:weekday` token read apart: a bare word counts once; with one
/// `:`, the count before it must be a decimal integer; more colons are not
/// a token.
pub open spec fn weekday_token(s: Seq<char>) -> Option<(int, Seq<char>)> {
    match colon_in(s) {
        None => Some((1, s)),
        Some(p) => {
            let rest = s.subrange(p + 1, s.len() as int);
            if colon_in(rest) is Some {
                None
            } else {
                match int_text_value(s.subrange(0, p)) {
                    Some(n) => Some((n, rest)),
                    None => None,
                }
            }
        },
    }
}

/// Splits a weekday token such as `fri` or `2:fri` into its count and its
/// weekday word.
pub fn parse_weekday_token(input: &str) -> (r: Option<(i64, &str)>)
    ensures
        weekday_token(input@) == match r {
            Some((n, w)) => Some((n as int, w@)),
            None => None::<(int, Seq<char>)>,
        },
{
    match find_colon(input) {
        None => Some((1, input)),
        Some(p) => {
            let len = input.unicode_len();
            let rest = input.substring_char(p + 1, len);
            if find_colon(rest).is_some() {
                return None;
            }
            match parse_int_range(input, 0, p) {
                Some(n) => Some((n, rest)),
                None => None,
            }
        },
    }
}

} // verus!
