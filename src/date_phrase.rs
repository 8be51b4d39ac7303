//! Due dates written the way people say them: `today`, `tomorrow`, `eow`,
//! `eom`, `+3d`, `+2w`, `+1m`, `fri`, `2:fri`, `2024-05-01`, or
//! `2024-05-01 14:30:00`.
use vstd::prelude::*;
use chrono::{Datelike, Timelike};
use crate::text::{int_text_value, parse_int_range};
use crate::time::{Instant, MAX_DAY, MAX_SECS, valid_offset, weekday_token, parse_weekday_token, local_day, now, local_offset_at};

verus! {

/// Why a text is not a due date.
#[derive(Clone, Copy, Debug, PartialEq, Eq, Structural)]
pub enum DateError {
    /// A `+` form whose count is not a decimal integer.
    InvalidRelative,
    /// A `+` form whose unit is not d, w or m.
    UnknownUnit,
    /// The date lies outside the supported range.
    OutOfRange,
    /// No form matches.
    Unparseable,
}

/// The earliest calendar year that dates may fall in.
pub const MIN_YEAR: i32 = -262_144;

/// The latest calendar year that dates may fall in.
pub const MAX_YEAR: i32 = 262_143;

/// The (year, month, day) of a day counted from 1970-01-01.
pub uninterp spec fn civil_of(day: int) -> (int, int, int);

/// Relies on chrono's NaiveDate::from_epoch_days and Datelike's year, month
/// and day: the calendar date of a day. Every day within MAX_DAY of the
/// epoch is a date chrono represents; NaiveDate's years lie between 262145
/// BCE and 262143 CE, and months run from 1 to 12.
#[verifier::external_body]
fn civil_date(day: i32) -> (r: (i32, u32, u32))
    requires
        -MAX_DAY <= day <= MAX_DAY,
    ensures
        (r.0 as int, r.1 as int, r.2 as int) == civil_of(day as int),
        MIN_YEAR <= r.0 <= MAX_YEAR,
        1 <= r.1 <= 12,
{
    let d = chrono::NaiveDate::from_epoch_days(day).unwrap();
    (d.year(), d.month(), d.day())
}

/// The day, counted from 1970-01-01, of a calendar date, if it exists.
pub uninterp spec fn day_of_civil(year: int, month: int, day: int) -> Option<int>;

/// Relies on chrono's NaiveDate::from_ymd_opt and NaiveDate::to_epoch_days:
/// the day number of a calendar date, or nothing when the date does not exist.
#[verifier::external_body]
fn civil_day(year: i32, month: u32, day: u32) -> (r: Option<i32>)
    ensures
        match r {
            Some(d) => day_of_civil(year as int, month as int, day as int) == Some(d as int),
            None => day_of_civil(year as int, month as int, day as int) is None,
        },
{
    match chrono::NaiveDate::from_ymd_opt(year, month, day) {
        Some(d) => Some(d.to_epoch_days()),
        None => None,
    }
}

/// The day of a `YYYY-MM-DD` text, as chrono reads it.
pub uninterp spec fn date_text_day(s: Seq<char>) -> Option<int>;

/// Relies on chrono's NaiveDate::parse_from_str with "%Y-%m-%d" (and
/// NaiveDate::to_epoch_days): the day a date text names.
#[verifier::external_body]
pub(crate) fn parse_date_text(s: &str) -> (r: Option<i32>)
    ensures
        match r {
            Some(d) => date_text_day(s@) == Some(d as int),
            None => date_text_day(s@) is None,
        },
{
    match chrono::NaiveDate::parse_from_str(s, "%Y-%m-%d") {
        Ok(d) => Some(d.to_epoch_days()),
        Err(_) => None,
    }
}

/// The day and second of the day of a `YYYY-MM-DD HH:MM:SS` text, as
/// chrono reads it.
pub uninterp spec fn datetime_text_moment(s: Seq<char>) -> Option<(int, int)>;

/// Relies on chrono's NaiveDateTime::parse_from_str with "%Y-%m-%d %H:%M:%S"
/// (and to_epoch_days, Timelike::num_seconds_from_midnight, which stays
/// below 86,400): the day and second of the day that a text names.
#[verifier::external_body]
fn parse_datetime_text(s: &str) -> (r: Option<(i32, u32)>)
    ensures
        match r {
            Some((d, t)) => datetime_text_moment(s@) == Some((d as int, t as int)) && t < 86_400,
            None => datetime_text_moment(s@) is None,
        },
{
    match chrono::NaiveDateTime::parse_from_str(s, "%Y-%m-%d %H:%M:%S") {
        Ok(dt) => Some((dt.date().to_epoch_days(), dt.time().num_seconds_from_midnight())),
        Err(_) => None,
    }
}

/// The code of `c` in lower case, for ASCII letters.
pub open spec fn ascii_lower(c: char) -> u32 {
    if 65 <= c as u32 <= 90 {
        (c as u32 + 32) as u32
    } else {
        c as u32
    }
}

/// `s` spells the lower-case word `w`, in any case.
pub open spec fn is_word(s: Seq<char>, w: Seq<char>) -> bool {
    s.len() == w.len() && forall|i: int| 0 <= i < s.len() ==> ascii_lower(#[trigger] s[i]) == w[i] as u32
}

/// Whether `s` spells the lower-case word `w`, in any case.
pub fn eq_word(s: &str, w: &str) -> (r: bool)
    ensures
        r == is_word(s@, w@),
{
    let n = s.unicode_len();
    if n != w.unicode_len() {
        return false;
    }
    let mut i: usize = 0;
    while i < n
        invariant
            n == s@.len() == w@.len(),
            i <= n,
            forall|k: int| 0 <= k < i ==> ascii_lower(#[trigger] s@[k]) == w@[k] as u32,
        decreases n - i,
    {
        let c = s.get_char(i) as u32;
        let lc = if 65 <= c && c <= 90 {
            c + 32
        } else {
            c
        };
        if lc != w.get_char(i) as u32 {
            return false;
        }
        i = i + 1;
    }
    true
}

/// Day of the week, Sunday 0 to Saturday 6, of a day counted from 1970-01-01.
pub open spec fn weekday_from_sunday(day: int) -> int {
    (day + 4) % 7
}

/// The day of the week, Sunday 0 to Saturday 6, that a word names.
pub open spec fn weekday_word(w: Seq<char>) -> Option<int> {
    if is_word(w, "sun"@) || is_word(w, "sunday"@) {
        Some(0)
    } else if is_word(w, "mon"@) || is_word(w, "monday"@) {
        Some(1)
    } else if is_word(w, "tue"@) || is_word(w, "tuesday"@) {
        Some(2)
    } else if is_word(w, "wed"@) || is_word(w, "wednesday"@) {
        Some(3)
    } else if is_word(w, "thu"@) || is_word(w, "thursday"@) {
        Some(4)
    } else if is_word(w, "fri"@) || is_word(w, "friday"@) {
        Some(5)
    } else if is_word(w, "sat"@) || is_word(w, "saturday"@) {
        Some(6)
    } else {
        None
    }
}

/// The day of the week, Sunday 0 to Saturday 6, that a word names, in any
/// case, short or long.
pub fn parse_weekday_str(w: &str) -> (r: Option<u32>)
    ensures
        weekday_word(w@) == match r {
            Some(d) => Some(d as int),
            None => None::<int>,
        },
{
    if eq_word(w, "sun") || eq_word(w, "sunday") {
        Some(0)
    } else if eq_word(w, "mon") || eq_word(w, "monday") {
        Some(1)
    } else if eq_word(w, "tue") || eq_word(w, "tuesday") {
        Some(2)
    } else if eq_word(w, "wed") || eq_word(w, "wednesday") {
        Some(3)
    } else if eq_word(w, "thu") || eq_word(w, "thursday") {
        Some(4)
    } else if eq_word(w, "fri") || eq_word(w, "friday") {
        Some(5)
    } else if eq_word(w, "sat") || eq_word(w, "saturday") {
        Some(6)
    } else {
        None
    }
}

/// The last second (23:59:59) of local day `day`, in seconds since the
/// epoch, at UTC offset `offset`; out of range when not supported.
pub open spec fn end_of_day(day: int, offset: int) -> Result<int, DateError> {
    moment(day, 86_399, offset)
}

/// Second `secs` of local day `day` at UTC offset `offset`, in seconds since
/// the epoch; out of range when not supported.
pub open spec fn moment(day: int, secs: int, offset: int) -> Result<int, DateError> {
    let t = day * 86_400 + secs - offset;
    if -MAX_SECS <= t <= MAX_SECS {
        Ok(t)
    } else {
        Err(DateError::OutOfRange)
    }
}

/// The first day of the month after `year`-`month`.
pub open spec fn next_month_start(year: int, month: int) -> Option<int> {
    if month == 12 {
        day_of_civil(year + 1, 1, 1)
    } else {
        day_of_civil(year, month + 1, 1)
    }
}

/// The day `count` months after `today`, on the same day of the month, or
/// on the month's last day when the month is shorter; none past the
/// supported years.
pub open spec fn months_later(today: int, count: int) -> Option<int> {
    let (y, m, d) = civil_of(today);
    let total = y * 12 + (m - 1) + count;
    let ny = total / 12;
    let nm = total % 12 + 1;
    if ny < MIN_YEAR || ny > MAX_YEAR {
        None
    } else {
        match day_of_civil(ny, nm, d) {
            Some(x) => Some(x),
            None => match next_month_start(ny, nm) {
                Some(f) => Some(f - 1),
                None => None,
            },
        }
    }
}

/// A `+N` form: `N` days, weeks or months after `today`.
pub open spec fn relative_day(s: Seq<char>, today: int) -> Result<int, DateError> {
    if s.len() < 2 {
        Err(DateError::InvalidRelative)
    } else {
        match int_text_value(s.subrange(1, s.len() - 1)) {
            None => Err(DateError::InvalidRelative),
            Some(n) => {
                let u = s.last();
                if u == 'd' {
                    Ok(today + n)
                } else if u == 'w' {
                    Ok(today + 7 * n)
                } else if u == 'm' {
                    match months_later(today, n) {
                        Some(x) => Ok(x),
                        None => Err(DateError::OutOfRange),
                    }
                } else {
                    Err(DateError::UnknownUnit)
                }
            },
        }
    }
}

/// The `count`-th coming `weekday` (Sunday 0) after `today`; today itself
/// never counts.
pub open spec fn coming_weekday(today: int, count: int, weekday: int) -> int {
    let diff = weekday - weekday_from_sunday(today);
    let first = if diff <= 0 {
        diff + 7
    } else {
        diff
    };
    today + first + (count - 1) * 7
}

/// The day a day-based form names; `None` when no such form matches.
pub open spec fn phrase_day(s: Seq<char>, today: int) -> Option<Result<int, DateError>> {
    if is_word(s, "today"@) || is_word(s, "tod"@) {
        Some(Ok(today))
    } else if is_word(s, "tomorrow"@) || is_word(s, "tom"@) {
        Some(Ok(today + 1))
    } else if is_word(s, "eow"@) {
        Some(Ok(today + (7 - weekday_from_sunday(today)) % 7))
    } else if is_word(s, "eom"@) {
        let (y, m, d) = civil_of(today);
        match next_month_start(y, m) {
            Some(f) => Some(Ok(f - 1)),
            None => Some(Err(DateError::OutOfRange)),
        }
    } else if s.len() > 0 && s[0] == '+' {
        Some(relative_day(s, today))
    } else {
        match weekday_token(s) {
            Some((count, w)) => match weekday_word(w) {
                Some(wd) => Some(Ok(coming_weekday(today, count, wd))),
                None => None,
            },
            None => None,
        }
    }
}

/// The moment, in seconds since the epoch, that a due-date text names on
/// local day `today` at UTC offset `offset`. Named days end at 23:59:59.
pub open spec fn human_date(s: Seq<char>, today: int, offset: int) -> Result<int, DateError> {
    match phrase_day(s, today) {
        Some(Ok(day)) => end_of_day(day, offset),
        Some(Err(e)) => Err(e),
        None => match datetime_text_moment(s) {
            Some((day, secs)) => moment(day, secs, offset),
            None => match date_text_day(s) {
                Some(day) => end_of_day(day, offset),
                None => Err(DateError::Unparseable),
            },
        },
    }
}

fn end_of_day_at(day: i128, offset: i32) -> (r: Result<Instant, DateError>)
    requires
        -100_000_000_000_000 <= day <= 100_000_000_000_000,
    ensures
        match r {
            Ok(t) => end_of_day(day as int, offset as int) == Ok::<int, DateError>(t.secs as int) && t.wf() && t.nanos == 0,
            Err(e) => end_of_day(day as int, offset as int) == Err::<int, DateError>(e),
        },
{
    moment_at(day, 86_399, offset)
}

fn moment_at(day: i128, secs: i128, offset: i32) -> (r: Result<Instant, DateError>)
    requires
        -100_000_000_000_000 <= day <= 100_000_000_000_000,
        0 <= secs < 86_400,
    ensures
        match r {
            Ok(t) => moment(day as int, secs as int, offset as int) == Ok::<int, DateError>(t.secs as int) && t.wf() && t.nanos == 0,
            Err(e) => moment(day as int, secs as int, offset as int) == Err::<int, DateError>(e),
        },
{
    let t: i128 = day * 86_400 + secs - offset as i128;
    if -(MAX_SECS as i128) <= t && t <= MAX_SECS as i128 {
        Ok(Instant { secs: t as i64, nanos: 0 })
    } else {
        Err(DateError::OutOfRange)
    }
}

fn next_month_first(year: i32, month: u32) -> (r: Option<i32>)
    requires
        MIN_YEAR <= year <= MAX_YEAR,
        1 <= month <= 12,
    ensures
        match r {
            Some(d) => next_month_start(year as int, month as int) == Some(d as int),
            None => next_month_start(year as int, month as int) is None,
        },
{
    if month == 12 {
        civil_day(year + 1, 1, 1)
    } else {
        civil_day(year, month + 1, 1)
    }
}

fn months_later_at(today: i64, count: i64) -> (r: Option<i64>)
    requires
        -MAX_DAY <= today <= MAX_DAY,
    ensures
        match r {
            Some(d) => months_later(today as int, count as int) == Some(d as int),
            None => months_later(today as int, count as int) is None,
        },
{
    let (y, m, d) = civil_date(today as i32);
    let total: i128 = y as i128 * 12 + (m as i128 - 1) + count as i128;
    let k: i128 = 1_000_000_000_000_000_000;
    let shifted: i128 = total + 12 * k;
    let ny: i128 = shifted / 12 - k;
    let nm: i128 = shifted % 12 + 1;
    proof {
        vstd::arithmetic::div_mod::lemma_fundamental_div_mod_converse(
            total as int,
            12,
            ny as int,
            nm - 1,
        );
    }
    if ny < MIN_YEAR as i128 || ny > MAX_YEAR as i128 {
        return None;
    }
    match civil_day(ny as i32, nm as u32, d) {
        Some(x) => Some(x as i64),
        None => match next_month_first(ny as i32, nm as u32) {
            Some(f) => Some(f as i64 - 1),
            None => None,
        },
    }
}

/// `r` is what the text reads as on local day `today` at UTC offset
/// `offset`: the instant, on a whole second, or the error.
pub open spec fn reads_as(s: Seq<char>, today: int, offset: int, r: Result<Instant, DateError>) -> bool {
    match r {
        Ok(t) => t.wf() && t.nanos == 0 && human_date(s, today, offset) == Ok::<int, DateError>(t.secs as int),
        Err(e) => human_date(s, today, offset) == Err::<int, DateError>(e),
    }
}

/// The result of a day-based form, as machine integers.
pub open spec fn day_result_view(r: Option<Result<i128, DateError>>) -> Option<Result<int, DateError>> {
    match r {
        Some(Ok(d)) => Some(Ok(d as int)),
        Some(Err(e)) => Some(Err(e)),
        None => None,
    }
}

fn weekday_sun_at(day: i64) -> (r: i64)
    requires
        -MAX_DAY <= day <= MAX_DAY,
    ensures
        r == weekday_from_sunday(day as int),
        0 <= r < 7,
{
    let w: i64 = ((day + 4 + 7 * MAX_DAY) as u64 % 7) as i64;
    assert(w == weekday_from_sunday(day as int)) by {
        vstd::arithmetic::div_mod::lemma_mod_multiples_vanish(MAX_DAY as int, day + 4, 7);
    }
    w
}

fn relative_day_at(input: &str, today: i64) -> (r: Result<i128, DateError>)
    requires
        -MAX_DAY <= today <= MAX_DAY,
    ensures
        match r {
            Ok(d) => relative_day(input@, today as int) == Ok::<int, DateError>(d as int),
            Err(e) => relative_day(input@, today as int) == Err::<int, DateError>(e),
        },
{
    let n = input.unicode_len();
    if n < 2 {
        return Err(DateError::InvalidRelative);
    }
    let count = match parse_int_range(input, 1, n - 1) {
        Some(c) => c,
        None => {
            return Err(DateError::InvalidRelative);
        },
    };
    let u = input.get_char(n - 1);
    if u == 'd' {
        Ok(today as i128 + count as i128)
    } else if u == 'w' {
        Ok(today as i128 + 7 * count as i128)
    } else if u == 'm' {
        match months_later_at(today, count) {
            Some(x) => Ok(x as i128),
            None => Err(DateError::OutOfRange),
        }
    } else {
        Err(DateError::UnknownUnit)
    }
}

fn phrase_day_at(input: &str, today: i64) -> (r: Option<Result<i128, DateError>>)
    requires
        -MAX_DAY <= today <= MAX_DAY,
    ensures
        day_result_view(r) == phrase_day(input@, today as int),
{
    if eq_word(input, "today") || eq_word(input, "tod") {
        Some(Ok(today as i128))
    } else if eq_word(input, "tomorrow") || eq_word(input, "tom") {
        Some(Ok(today as i128 + 1))
    } else if eq_word(input, "eow") {
        let wd = weekday_sun_at(today);
        Some(Ok(today as i128 + ((7 - wd) % 7) as i128))
    } else if eq_word(input, "eom") {
        let (y, m, _) = civil_date(today as i32);
        match next_month_first(y, m) {
            Some(f) => Some(Ok(f as i128 - 1)),
            None => Some(Err(DateError::OutOfRange)),
        }
    } else if input.unicode_len() > 0 && input.get_char(0) == '+' {
        Some(relative_day_at(input, today))
    } else {
        match parse_weekday_token(input) {
            Some((count, w)) => match parse_weekday_str(w) {
                Some(wd) => {
                    let diff: i128 = wd as i128 - weekday_sun_at(today) as i128;
                    let first: i128 = if diff <= 0 {
                        diff + 7
                    } else {
                        diff
                    };
                    Some(Ok(today as i128 + first + (count as i128 - 1) * 7))
                },
                None => None,
            },
            None => None,
        }
    }
}

fn end_of_day_checked(day: i128, offset: i32) -> (r: Result<Instant, DateError>)
    ensures
        match r {
            Ok(t) => end_of_day(day as int, offset as int) == Ok::<int, DateError>(t.secs as int) && t.wf() && t.nanos == 0,
            Err(e) => end_of_day(day as int, offset as int) == Err::<int, DateError>(e),
        },
{
    if day < -100_000_000_000_000 || day > 100_000_000_000_000 {
        Err(DateError::OutOfRange)
    } else {
        end_of_day_at(day, offset)
    }
}

/// Reads a due-date text on local day `today` at UTC offset `offset`: a
/// keyword (`today`/`tod`, `tomorrow`/`tom`, `eow` for the coming Sunday,
/// `eom` for the month's last day), `+N` days (`d`), weeks (`w`) or months
/// (`m`), a weekday (`fri`, `2:fri` for the one after), then the formats
/// `YYYY-MM-DD HH:MM:SS` and `YYYY-MM-DD`. A named day ends at 23:59:59.
pub fn parse_human_date_at(input: &str, today: i64, offset: i32) -> (r: Result<Instant, DateError>)
    requires
        -MAX_DAY <= today <= MAX_DAY,
        valid_offset(offset),
    ensures
        reads_as(input@, today as int, offset as int, r),
{
    match phrase_day_at(input, today) {
        Some(Ok(day)) => end_of_day_checked(day, offset),
        Some(Err(e)) => Err(e),
        None => match parse_datetime_text(input) {
            Some((d, t)) => {
                let r = moment_at(d as i128, t as i128, offset);
                r
            },
            None => match parse_date_text(input) {
                Some(d) => end_of_day_checked(d as i128, offset),
                None => Err(DateError::Unparseable),
            },
        },
    }
}

/// Reads a due-date text relative to today, in the local time zone.
pub fn parse_human_date(input: &str) -> (r: Result<Instant, DateError>)
    ensures
        exists|today: i64, offset: i32|
            -MAX_DAY <= today <= MAX_DAY && valid_offset(offset) && #[trigger] reads_as(
                input@,
                today as int,
                offset as int,
                r,
            ),
{
    let at = now();
    let offset = local_offset_at(at);
    let today = local_day(at, offset);
    parse_human_date_at(input, today, offset)
}

} // verus!
