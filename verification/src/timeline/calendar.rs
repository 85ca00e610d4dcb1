//! Dates, times of day and time zones.
//!
//! A date is the number of its day, where day 1 is January 1 of the year 1. A time of day is the
//! number of its second and the nanoseconds past that second.

use chrono::{Datelike, Timelike};
use vstd::prelude::*;

use crate::cms::PlaybackDataDto;
use crate::config::{DAY_MS, DEFAULT_ZONE_ID, ONE_SECOND_MS};

verus! {

/// No instant that can be represented lies further from the epoch than this.
pub const FARTHEST_MILLIS: i64 = 8_400_000_000_000_000;

/// How the schedule writes a date.
pub const DATE_FORMAT: &'static str = "%Y-%m-%d";

/// How the schedule writes a time of day.
pub const TIME_FORMAT: &'static str = "%H:%M:%S";

/// The date that a text denotes in a format, as `chrono::NaiveDate` reads it.
pub uninterp spec fn date_of(text: Seq<char>, format: Seq<char>) -> Option<i32>;

/// The time of day that a text denotes in a format, as `chrono::NaiveTime` reads it.
pub uninterp spec fn time_of(text: Seq<char>, format: Seq<char>) -> Option<(u32, u32)>;

/// Whether `chrono_tz` knows a time zone of this name.
pub uninterp spec fn zone_known(zone: Seq<char>) -> bool;

/// The milliseconds since the epoch at which it is this date and time of day in a time zone, where
/// that happens exactly once.
pub uninterp spec fn local_epoch(zone: Seq<char>, date: i32, second: u32, nano: u32) -> Option<i64>;

/// `chrono::NaiveDate::parse_from_str`: the date, or nothing where the text does not fit the
/// format.
#[verifier::external_body]
fn parse_date(text: &str, format: &str) -> (r: Option<i32>)
    ensures
        r == date_of(text@, format@),
{
    match chrono::NaiveDate::parse_from_str(text, format) {
        Ok(date) => Some(date.num_days_from_ce()),
        Err(_) => None,
    }
}

/// `chrono::NaiveTime::parse_from_str`: the time of day, or nothing where the text does not fit
/// the format.
#[verifier::external_body]
fn parse_time(text: &str, format: &str) -> (r: Option<(u32, u32)>)
    ensures
        r == time_of(text@, format@),
{
    match chrono::NaiveTime::parse_from_str(text, format) {
        Ok(time) => Some((time.num_seconds_from_midnight(), time.nanosecond())),
        Err(_) => None,
    }
}

/// `chrono_tz::Tz::from_str`: whether the name is that of a time zone.
#[verifier::external_body]
fn is_zone(zone: &str) -> (r: bool)
    ensures
        r == zone_known(zone@),
{
    zone.parse::<chrono_tz::Tz>().is_ok()
}

/// `chrono::NaiveDateTime::and_local_timezone`, `single` and `timestamp_millis`: the instant, or
/// nothing where the zone, the date or the time of day does not exist, or where the clocks show
/// that time never or twice. What can be represented ends some 262,000 years from the epoch.
#[verifier::external_body]
fn epoch_in_zone(zone: &str, date: i32, second: u32, nano: u32) -> (r: Option<i64>)
    ensures
        r == local_epoch(zone@, date, second, nano),
        r matches Some(millis) ==> -FARTHEST_MILLIS < millis < FARTHEST_MILLIS,
{
    let zone = zone.parse::<chrono_tz::Tz>().ok()?;
    let date = chrono::NaiveDate::from_num_days_from_ce_opt(date)?;
    let time = chrono::NaiveTime::from_num_seconds_from_midnight_opt(second, nano)?;
    let instant = date.and_time(time).and_local_timezone(zone).single()?;
    Some(instant.timestamp_millis())
}

/// `chrono::Local::now`: today's date where the machine stands. Nothing is said of which day that
/// is.
#[verifier::external_body]
fn today() -> (r: i32) {
    chrono::Local::now().date_naive().num_days_from_ce()
}

/// Whether a date was today's where the machine stands, when that was asked.
pub closed spec fn is_today(date: i32) -> bool {
    call_ensures(today, (), date)
}

/// The name of the time zone that a schedule is read in.
pub open spec fn zone_of(data: PlaybackDataDto) -> Seq<char> {
    match data.timezone {
        Some(zone) => if zone_known(zone@) {
            zone@
        } else {
            DEFAULT_ZONE_ID@
        },
        None => DEFAULT_ZONE_ID@,
    }
}

/// The name of the time zone that a schedule is read in: the one it names, or the default where
/// that is not known.
pub fn resolve_timezone(data: &PlaybackDataDto) -> (r: String)
    ensures
        r@ == zone_of(*data),
{
    match &data.timezone {
        Some(zone) => if is_zone(zone.as_str()) {
            zone.clone()
        } else {
            DEFAULT_ZONE_ID.to_owned()
        },
        None => DEFAULT_ZONE_ID.to_owned(),
    }
}

/// The date of a schedule, or today's where it names none that can be read.
pub fn resolve_date(data: &PlaybackDataDto) -> (r: i32)
    ensures
        match date_of(data.date@, DATE_FORMAT@) {
            Some(date) => r == date,
            None => is_today(r),
        },
{
    match parse_date(data.date.as_str(), DATE_FORMAT) {
        Some(date) => date,
        None => today(),
    }
}

/// The instant of a time of day, on a date and in a zone.
pub open spec fn instant_of(time: Seq<char>, date: i32, zone: Seq<char>) -> Option<i64> {
    match time_of(time, TIME_FORMAT@) {
        Some(t) => local_epoch(zone, date, t.0, t.1),
        None => None,
    }
}

/// From where to where a slot runs: a start that cannot be read is the epoch, an end that cannot
/// be read is the start, and a slot that does not end after its start ends on the next day. The
/// slot lasts through the second of its end where that belongs to it.
pub open spec fn time_range_of(
    start: Option<i64>,
    end: Option<i64>,
    inclusive_last_second: bool,
) -> (int, int) {
    let from: int = match start {
        Some(millis) => millis as int,
        None => 0,
    };
    let to: int = match end {
        Some(millis) => if inclusive_last_second {
            millis + ONE_SECOND_MS
        } else {
            millis as int
        },
        None => from,
    };
    (from, if to <= from {
        to + DAY_MS
    } else {
        to
    })
}

/// Where a slot runs, from the instants of its two times of day.
pub fn time_range_between(
    start: Option<i64>,
    end: Option<i64>,
    inclusive_last_second: bool,
) -> (r: (i64, i64))
    requires
        start matches Some(millis) ==> -FARTHEST_MILLIS < millis < FARTHEST_MILLIS,
        end matches Some(millis) ==> -FARTHEST_MILLIS < millis < FARTHEST_MILLIS,
    ensures
        r.0 as int == time_range_of(start, end, inclusive_last_second).0,
        r.1 as int == time_range_of(start, end, inclusive_last_second).1,
        -FARTHEST_MILLIS < r.0 < FARTHEST_MILLIS,
        -FARTHEST_MILLIS < r.1 < FARTHEST_MILLIS + ONE_SECOND_MS + DAY_MS,
{
    let from: i64 = match start {
        Some(millis) => millis,
        None => 0,
    };
    let extra: i64 = if inclusive_last_second {
        ONE_SECOND_MS
    } else {
        0
    };
    let to: i64 = match end {
        Some(millis) => millis + extra,
        None => from,
    };
    if to <= from {
        (from, to + DAY_MS)
    } else {
        (from, to)
    }
}

fn instant(time: &str, date: i32, zone: &str) -> (r: Option<i64>)
    ensures
        r == instant_of(time@, date, zone@),
        r matches Some(millis) ==> -FARTHEST_MILLIS < millis < FARTHEST_MILLIS,
{
    match parse_time(time, TIME_FORMAT) {
        Some(t) => epoch_in_zone(zone, date, t.0, t.1),
        None => None,
    }
}

/// Where a slot runs, from the texts of its two times of day.
pub fn time_range(
    start_time: &str,
    end_time: &str,
    date: i32,
    zone: &str,
    inclusive_last_second: bool,
) -> (r: (i64, i64))
    ensures
        (r.0 as int, r.1 as int) == time_range_of(
            instant_of(start_time@, date, zone@),
            instant_of(end_time@, date, zone@),
            inclusive_last_second,
        ),
        -FARTHEST_MILLIS < r.0 < FARTHEST_MILLIS,
        -FARTHEST_MILLIS < r.1 < FARTHEST_MILLIS + ONE_SECOND_MS + DAY_MS,
{
    let start: Option<i64> = instant(start_time, date, zone);
    let end: Option<i64> = instant(end_time, date, zone);
    time_range_between(start, end, inclusive_last_second)
}

/// A slot whose times of day can be read, with the end not before the start, runs from the start
/// to the end; one that ends at its start or before runs to that time on the next day.
pub proof fn slot_may_cross_midnight(start: i64, end: i64)
    ensures
        start < end ==> time_range_of(Some(start), Some(end), false) == (start as int, end as int),
        end <= start ==> time_range_of(Some(start), Some(end), false) == (
            start as int,
            end + DAY_MS,
        ),
        start <= end ==> time_range_of(Some(start), Some(end), true) == (
            start as int,
            end + ONE_SECOND_MS,
        ),
{
}

/// Where a slot of the schedule runs: from its start through the second of its end; where that is not
/// after the start, to that time on the next day. An auctioned slot runs up to its end. A start that
/// cannot be read is the epoch, and a slot whose end cannot be read lasts for a day.
pub proof fn slots_run_from_start_to_end(start: i64, end: i64)
    ensures
        end + 1_000 > start ==> time_range_of(Some(start), Some(end), true) == (
            start as int,
            end + 1_000,
        ),
        end + 1_000 <= start ==> time_range_of(Some(start), Some(end), true) == (
            start as int,
            end + 1_000 + 86_400_000,
        ),
        end > start ==> time_range_of(Some(start), Some(end), false) == (start as int, end as int),
        end <= start ==> time_range_of(Some(start), Some(end), false) == (
            start as int,
            end + 86_400_000,
        ),
        forall|last: bool|
            #[trigger] time_range_of(Some(start), None, last) == (start as int, start + 86_400_000),
        end > 0 ==> time_range_of(None, Some(end), false) == (0int, end as int),
        end + 1_000 > 0 ==> time_range_of(None, Some(end), true) == (0int, end + 1_000),
{
}

/// A schedule is read in the time zone that it names where that is known, and in that of Seoul where
/// it is not or where it names none.
pub proof fn schedules_are_read_in_their_zone(data: PlaybackDataDto)
    ensures
        match data.timezone {
            Some(zone) => {
                &&& zone_known(zone@) ==> zone_of(data) == zone@
                &&& !zone_known(zone@) ==> zone_of(data) == "Asia/Seoul"@
            },
            None => zone_of(data) == "Asia/Seoul"@,
        },
{
}

/// The times of day of a schedule are written as hours, minutes and seconds, and are those of its
/// date in its zone.
pub proof fn times_of_day_are_those_of_the_date(time: Seq<char>, date: i32, zone: Seq<char>)
    ensures
        instant_of(time, date, zone) == match time_of(time, "%H:%M:%S"@) {
            Some((second, nano)) => local_epoch(zone, date, second, nano),
            None => None,
        },
        DATE_FORMAT@ == "%Y-%m-%d"@,
{
}

} // verus!
