//! Calendar dates in the machine's time zone, from chrono.

use vstd::prelude::*;
use chrono::{Datelike, Local, NaiveDate, NaiveDateTime, NaiveTime, TimeZone, Timelike};

verus! {

/// A calendar date.
#[derive(Clone, Copy, Debug, PartialEq, Eq)]
pub struct CivilDate {
    pub year: i32,
    pub month: u32,
    pub day: u32,
}

impl CivilDate {
    pub open spec fn wf(&self) -> bool {
        1 <= self.month <= 12 && 1 <= self.day <= 31
    }
}

/// Largest epoch, either way from 1970, whose local date chrono can give in
/// any time zone: well inside its years -262143 to 262142.
pub const DATE_EPOCH_LIMIT: i64 = 8_000_000_000_000;

/// Whether chrono can give the local date of `epoch` without leaving its
/// range.
pub open spec fn datable(epoch: int) -> bool {
    -DATE_EPOCH_LIMIT <= epoch <= DATE_EPOCH_LIMIT
}

pub fn is_datable(epoch: i64) -> (r: bool)
    ensures
        r == datable(epoch as int),
{
    -DATE_EPOCH_LIMIT <= epoch && epoch <= DATE_EPOCH_LIMIT
}

/// Relies on chrono's `Local.timestamp_opt(epoch, 0).single()` and
/// `DateTime::date_naive`: the local calendar date of an instant, whose
/// month is 1 to 12 and day 1 to 31. `date_naive` adds the local offset
/// and panics outside chrono's years, hence the bound.
#[verifier::external_body]
pub(crate) fn local_date(epoch: i64) -> (r: Option<CivilDate>)
    requires
        datable(epoch as int),
    ensures
        r matches Some(d) ==> d.wf(),
{
    match Local.timestamp_opt(epoch, 0).single() {
        Some(dt) => {
            let d = dt.date_naive();
            Some(CivilDate { year: d.year(), month: d.month(), day: d.day() })
        },
        None => None,
    }
}

/// Days from 1970-01-01 to a date of the proleptic Gregorian calendar.
pub open spec fn days_from_civil(y: int, m: int, d: int) -> int {
    let yy = if m <= 2 { y - 1 } else { y };
    let era = yy / 400;
    let yoe = yy - era * 400;
    let mp = if m > 2 { m - 3 } else { m + 9 };
    let doy = (153 * mp + 2) / 5 + d - 1;
    let doe = yoe * 365 + yoe / 4 - yoe / 100 + doy;
    era * 146097 + doe - 719468
}

/// Weekday of a date, Sunday 0 to Saturday 6; 1970-01-01 was a Thursday.
pub open spec fn civil_weekday(d: CivilDate) -> int {
    (days_from_civil(d.year as int, d.month as int, d.day as int) + 4) % 7
}

/// The weekday of a date, Sunday 0 to Saturday 6.
pub fn weekday_number(d: CivilDate) -> (r: u32)
    requires
        d.wf(),
    ensures
        r < 7,
        r as int == civil_weekday(d),
{
    let y = d.year as i64;
    let m = d.month as i64;
    let yy: i64 = if m <= 2 { y - 1 } else { y };
    let shifted: i64 = yy + 400 * 8388608;
    let era: i64 = shifted / 400 - 8388608;
    assert(era == (yy as int) / 400) by (nonlinear_arith)
        requires
            shifted == yy + 400 * 8388608,
            shifted >= 0,
            era == shifted / 400 - 8388608,
    ;
    let yoe: i64 = yy - era * 400;
    assert(0 <= yoe < 400) by (nonlinear_arith)
        requires
            era == (yy as int) / 400,
            yoe == yy - era * 400,
    ;
    let mp: i64 = if m > 2 { m - 3 } else { m + 9 };
    let doy: i64 = (153 * mp + 2) / 5 + d.day as i64 - 1;
    let doe: i64 = yoe * 365 + yoe / 4 - yoe / 100 + doy;
    let days: i64 = era * 146097 + doe - 719468;
    assert(days == days_from_civil(d.year as int, d.month as int, d.day as int));
    let k: i64 = 7 * 137438953472;
    let w: i64 = (days + 4 + k) % 7;
    assert(w == (days + 4) % 7) by (nonlinear_arith)
        requires
            k == 7 * 137438953472,
            days + 4 + k >= 0,
            w == (days + 4 + k) % 7,
    ;
    w as u32
}

/// Relies on chrono's `NaiveTime::from_num_seconds_from_midnight_opt` and
/// `NaiveDateTime::and_local_timezone(Local).earliest()`: the first instant
/// at which a date and time of day occur in the machine's time zone, if they
/// occur there.
#[verifier::external_body]
pub(crate) fn local_instant(d: CivilDate, secs_of_day: u32) -> (r: Option<i64>) {
    let time = NaiveTime::from_num_seconds_from_midnight_opt(secs_of_day, 0)?;
    let at = NaiveDate::from_ymd_opt(d.year, d.month, d.day)?.and_time(time);
    let instant = at.and_local_timezone(Local).earliest()?;
    Some(instant.timestamp())
}

/// What chrono's `NaiveDateTime::parse_from_str(s, fmt)` reads: year, month,
/// day and second of the day.
pub uninterp spec fn naive_datetime_of(s: Seq<char>, fmt: Seq<char>) -> Option<(int, int, int, int)>;

/// What chrono's `NaiveTime::parse_from_str(s, fmt)` reads: the second of
/// the day.
pub uninterp spec fn naive_time_of(s: Seq<char>, fmt: Seq<char>) -> Option<int>;

/// What chrono's `NaiveDate::parse_from_str(s, fmt)` reads: year, month and
/// day.
pub uninterp spec fn naive_date_of(s: Seq<char>, fmt: Seq<char>) -> Option<(int, int, int)>;

/// Relies on chrono's `NaiveDateTime::parse_from_str`: a date and time of
/// day read from `s` by the format `fmt`.
#[verifier::external_body]
pub(crate) fn parse_datetime(s: &str, fmt: &str) -> (r: Option<(CivilDate, u32)>)
    ensures
        r matches Some(p) ==> p.0.wf() && naive_datetime_of(s@, fmt@) == Some(
            (p.0.year as int, p.0.month as int, p.0.day as int, p.1 as int),
        ),
        r is None ==> naive_datetime_of(s@, fmt@) is None,
{
    let dt = NaiveDateTime::parse_from_str(s, fmt).ok()?;
    let date = CivilDate { year: dt.year(), month: dt.month(), day: dt.day() };
    Some((date, dt.num_seconds_from_midnight()))
}

/// Relies on chrono's `NaiveTime::parse_from_str`: a time of day read from
/// `s` by the format `fmt`, as the second of the day.
#[verifier::external_body]
pub(crate) fn parse_time(s: &str, fmt: &str) -> (r: Option<u32>)
    ensures
        r matches Some(t) ==> naive_time_of(s@, fmt@) == Some(t as int),
        r is None ==> naive_time_of(s@, fmt@) is None,
{
    let time = NaiveTime::parse_from_str(s, fmt).ok()?;
    Some(time.num_seconds_from_midnight())
}

/// Relies on chrono's `NaiveDate::parse_from_str`: a date read from `s` by
/// the format `fmt`.
#[verifier::external_body]
pub(crate) fn parse_date(s: &str, fmt: &str) -> (r: Option<CivilDate>)
    ensures
        r matches Some(d) ==> d.wf() && naive_date_of(s@, fmt@) == Some(
            (d.year as int, d.month as int, d.day as int),
        ),
        r is None ==> naive_date_of(s@, fmt@) is None,
{
    let d = NaiveDate::parse_from_str(s, fmt).ok()?;
    Some(CivilDate { year: d.year(), month: d.month(), day: d.day() })
}

pub open spec fn datetime_formats() -> Seq<Seq<char>> {
    seq![
        "%Y-%m-%d %H:%M:%S"@,
        "%Y-%m-%d %H:%M"@,
        "%H:%M"@,
        "%H:%M:%S"@,
        "%m/%d/%Y %H:%M"@,
        "%m/%d %H:%M"@,
        "%I:%M %p"@,
        "%I:%M%p"@,
    ]
}

fn datetime_format(i: usize) -> (f: &'static str)
    requires
        i < 8,
    ensures
        f@ == datetime_formats()[i as int],
{
    if i == 0 {
        "%Y-%m-%d %H:%M:%S"
    } else if i == 1 {
        "%Y-%m-%d %H:%M"
    } else if i == 2 {
        "%H:%M"
    } else if i == 3 {
        "%H:%M:%S"
    } else if i == 4 {
        "%m/%d/%Y %H:%M"
    } else if i == 5 {
        "%m/%d %H:%M"
    } else if i == 6 {
        "%I:%M %p"
    } else {
        "%I:%M%p"
    }
}

/// What the first of the date-and-time formats that reads `s`, from the
/// `i`-th on, gives.
pub open spec fn first_datetime(s: Seq<char>, i: int) -> Option<(int, int, int, int)>
    decreases 8 - i,
{
    if i >= 8 || i < 0 {
        None
    } else {
        match naive_datetime_of(s, datetime_formats()[i]) {
            Some(p) => Some(p),
            None => first_datetime(s, i + 1),
        }
    }
}

/// The date and second of the day that a command-line time names: the
/// first date-and-time format that reads it; else a time of day (`%H:%M`,
/// then `%I:%M %p`) on `today`; else a date (`%Y-%m-%d`) at second 0.
pub open spec fn start_fields(s: Seq<char>, today: CivilDate) -> Option<(int, int, int, int)> {
    match first_datetime(s, 0) {
        Some(p) => Some(p),
        None => match naive_time_of(s, "%H:%M"@) {
            Some(t) => Some((today.year as int, today.month as int, today.day as int, t)),
            None => match naive_time_of(s, "%I:%M %p"@) {
                Some(t) => Some((today.year as int, today.month as int, today.day as int, t)),
                None => match naive_date_of(s, "%Y-%m-%d"@) {
                    Some((y, m, d)) => Some((y, m, d, 0)),
                    None => None,
                },
            },
        },
    }
}

/// The date and second of the day that a command-line time names.
pub fn start_time_fields(s: &str, today: CivilDate) -> (r: Option<(CivilDate, u32)>)
    ensures
        match r {
            Some((d, t)) => start_fields(s@, today) == Some(
                (d.year as int, d.month as int, d.day as int, t as int),
            ),
            None => start_fields(s@, today) is None,
        },
{
    let mut i: usize = 0;
    while i < 8
        invariant
            i <= 8,
            first_datetime(s@, 0) == first_datetime(s@, i as int),
        decreases 8 - i,
    {
        if let Some((d, secs)) = parse_datetime(s, datetime_format(i)) {
            return Some((d, secs));
        }
        i = i + 1;
    }
    if let Some(secs) = parse_time(s, "%H:%M") {
        return Some((today, secs));
    }
    if let Some(secs) = parse_time(s, "%I:%M %p") {
        return Some((today, secs));
    }
    if let Some(d) = parse_date(s, "%Y-%m-%d") {
        return Some((d, 0));
    }
    None
}

/// Reads a time given on the command line as a local epoch: the date and
/// second of the day that `start_time_fields` picks, at its first local
/// occurrence. `None` when no accepted form reads it, or the local time
/// does not occur.
pub fn parse_start_time(s: &str, today: CivilDate) -> (r: Option<i64>)
    ensures
        start_fields(s@, today) is None ==> r is None,
{
    let (d, secs) = start_time_fields(s, today)?;
    local_instant(d, secs)
}

} // verus!
