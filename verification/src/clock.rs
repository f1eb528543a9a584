//! The calendar in South Africa Standard Time.
//!
//! Instants are epoch seconds. The calendar itself is chrono's: the functions
//! named `chrono_..` hand an instant and an offset from UTC to chrono and
//! state what it answers; the others ask them for South African time.

use chrono::{DateTime, Datelike, FixedOffset, Timelike, Weekday};
use vstd::prelude::*;

verus! {

/// Seconds by which South Africa Standard Time is ahead of UTC.
pub const SAST_OFFSET: i64 = 7200;

/// The largest distance from the epoch, in seconds, that this library works on.
pub const INSTANT_LIMIT: i64 = 4_000_000_000_000;

/// The largest distance from the epoch, in seconds, that is handed to the calendar.
/// It lies some thousand years inside the range of dates that chrono can hold.
pub const CALENDAR_LIMIT: i64 = 8_000_000_000_000;

/// The instants that the public functions of this library accept.
pub open spec fn valid_instant(instant: int) -> bool {
    -INSTANT_LIMIT <= instant <= INSTANT_LIMIT
}

/// The instants that may be handed to the calendar.
pub open spec fn in_calendar(instant: int) -> bool {
    -CALENDAR_LIMIT <= instant <= CALENDAR_LIMIT
}

/// Seconds since local midnight, in `0..86400`.
pub open spec fn second_of_day(instant: int) -> int {
    (instant + SAST_OFFSET) % 86400
}

/// The local hour of the day, in `0..24`.
pub open spec fn hour_of(instant: int) -> int {
    second_of_day(instant) / 3600
}

/// The local minute of the hour, in `0..60`.
pub open spec fn minute_of(instant: int) -> int {
    (second_of_day(instant) % 3600) / 60
}

/// The local day of the month.
pub open spec fn day_of_month(instant: int) -> int {
    calendar_day(instant, SAST_OFFSET as int)
}

/// The local day of the week, counted from Monday as 0.
pub open spec fn weekday_of(instant: int) -> int {
    calendar_weekday(instant, SAST_OFFSET as int)
}

/// The instant on the same local day and at the same minute and second, at `hour` o'clock.
pub open spec fn at_hour(instant: int, hour: int) -> int {
    instant - second_of_day(instant) + hour * 3600 + second_of_day(instant) % 3600
}

/// The instant in the same local hour and at the same second, at minute `minute`.
pub open spec fn at_minute(instant: int, minute: int) -> int {
    instant - second_of_day(instant) % 3600 + minute * 60 + second_of_day(instant) % 60
}

/// The instant in the same local minute, at second `second`.
pub open spec fn at_second(instant: int, second: int) -> int {
    instant - second_of_day(instant) % 60 + second
}

/// What setting the hour gives: nothing for an hour of 24 or more.
pub open spec fn hour_set(instant: int, hour: int) -> Option<i64> {
    if hour < 24 {
        Some(at_hour(instant, hour) as i64)
    } else {
        None
    }
}

/// What setting the minute gives: nothing for a minute of 60 or more.
pub open spec fn minute_set(instant: int, minute: int) -> Option<i64> {
    if minute < 60 {
        Some(at_minute(instant, minute) as i64)
    } else {
        None
    }
}

/// What setting the second gives: nothing for a second of 60 or more.
pub open spec fn second_set(instant: int, second: int) -> Option<i64> {
    if second < 60 {
        Some(at_second(instant, second) as i64)
    } else {
        None
    }
}

/// The short English name of a day of the week, counted from Monday as 0.
pub open spec fn weekday_label(weekday: int) -> Seq<char> {
    if weekday == 0 {
        "Mon"@
    } else if weekday == 1 {
        "Tue"@
    } else if weekday == 2 {
        "Wed"@
    } else if weekday == 3 {
        "Thu"@
    } else if weekday == 4 {
        "Fri"@
    } else if weekday == 5 {
        "Sat"@
    } else {
        "Sun"@
    }
}

/// Seconds since midnight at a place whose clocks are `offset` seconds ahead of UTC.
pub open spec fn local_second(instant: int, offset: int) -> int {
    (instant + offset) % 86400
}

/// The day of the month at a place whose clocks are `offset` seconds ahead of
/// UTC, as the proleptic Gregorian calendar has it.
///
/// The local days are counted from the first of March of the year 0. Every
/// 400 years hold 146097 days; within them a year is lost by each leap day
/// after four years and after 400, and won back after 100. Counted from
/// March, five months hold 153 days.
pub open spec fn calendar_day(instant: int, offset: int) -> int {
    let of_era = ((instant + offset) / 86400 + 719468) % 146097;
    let year = (of_era - of_era / 1460 + of_era / 36524 - of_era / 146096) / 365;
    let of_year = of_era - (365 * year + year / 4 - year / 100);
    let month = (5 * of_year + 2) / 153;
    of_year - (153 * month + 2) / 5 + 1
}

/// The day of the week, counted from Monday as 0, at a place whose clocks are
/// `offset` seconds ahead of UTC: the local days since the epoch, which began
/// on a Thursday, counted off in weeks of seven.
pub open spec fn calendar_weekday(instant: int, offset: int) -> int {
    ((instant + offset) / 86400 + 3) % 7
}

/// The offsets from UTC that a calendar takes: less than a day either way.
pub open spec fn is_offset(offset: int) -> bool {
    -86400 < offset < 86400
}

/// What setting the hour gives at that place: nothing for an hour of 24 or
/// more, else the instant on the same day with the same minute and second.
pub open spec fn local_hour_set(instant: int, offset: int, hour: int) -> Option<i64> {
    if hour < 24 {
        Some(
            (instant - local_second(instant, offset) + hour * 3600 + local_second(instant, offset)
                % 3600) as i64,
        )
    } else {
        None
    }
}

/// What setting the minute gives at that place: nothing for a minute of 60 or
/// more, else the instant in the same hour with the same second.
pub open spec fn local_minute_set(instant: int, offset: int, minute: int) -> Option<i64> {
    if minute < 60 {
        Some(
            (instant - local_second(instant, offset) % 3600 + minute * 60 + local_second(
                instant,
                offset,
            ) % 60) as i64,
        )
    } else {
        None
    }
}

/// What setting the second gives at that place: nothing for a second of 60 or
/// more, else the instant in the same minute.
pub open spec fn local_second_set(instant: int, offset: int, second: int) -> Option<i64> {
    if second < 60 {
        Some((instant - local_second(instant, offset) % 60 + second) as i64)
    } else {
        None
    }
}

/// `Timelike::hour` of chrono, on the instant taken as a `DateTime` at the offset.
/// Claims that chrono splits the seconds since local midnight into hours of 3600.
#[verifier::external_body]
fn chrono_hour(instant: i64, offset: i32) -> (hour: u32)
    requires
        in_calendar(instant as int),
        is_offset(offset as int),
    ensures
        hour as int == local_second(instant as int, offset as int) / 3600,
{
    let place = FixedOffset::east_opt(offset).unwrap();
    DateTime::from_timestamp(instant, 0).unwrap().with_timezone(&place).hour()
}

/// `Timelike::minute` of chrono, on the instant taken as a `DateTime` at the offset.
/// Claims that chrono splits the seconds of the local hour into minutes of 60.
#[verifier::external_body]
fn chrono_minute(instant: i64, offset: i32) -> (minute: u32)
    requires
        in_calendar(instant as int),
        is_offset(offset as int),
    ensures
        minute as int == (local_second(instant as int, offset as int) % 3600) / 60,
{
    let place = FixedOffset::east_opt(offset).unwrap();
    DateTime::from_timestamp(instant, 0).unwrap().with_timezone(&place).minute()
}

/// `Datelike::day` of chrono, on the instant taken as a `DateTime` at the offset.
/// Claims that chrono's days are those of the proleptic Gregorian calendar,
/// as `calendar_day` counts them, and lie in `1..=31`.
#[verifier::external_body]
fn chrono_day(instant: i64, offset: i32) -> (day: u32)
    requires
        in_calendar(instant as int),
        is_offset(offset as int),
    ensures
        day as int == calendar_day(instant as int, offset as int),
        1 <= day <= 31,
{
    let place = FixedOffset::east_opt(offset).unwrap();
    DateTime::from_timestamp(instant, 0).unwrap().with_timezone(&place).day()
}

/// `Datelike::weekday` of chrono, on the instant taken as a `DateTime` at the
/// offset, as its number of days from Monday.
/// Claims that chrono's weekdays follow each other day by day without a break,
/// and that the first of January 1970 was a Thursday.
#[verifier::external_body]
fn chrono_weekday(instant: i64, offset: i32) -> (weekday: u32)
    requires
        in_calendar(instant as int),
        is_offset(offset as int),
    ensures
        weekday as int == calendar_weekday(instant as int, offset as int),
        weekday < 7,
{
    let place = FixedOffset::east_opt(offset).unwrap();
    DateTime::from_timestamp(instant, 0).unwrap().with_timezone(&place).weekday().num_days_from_monday()
}

/// `Weekday::try_from` and the `Display` of chrono's `Weekday`. Claims that
/// chrono counts the days from Monday as 0 and writes each as the first three
/// letters of its English name.
#[verifier::external_body]
pub(crate) fn weekday_name(weekday: u8) -> (name: String)
    requires
        weekday < 7,
    ensures
        name@ == weekday_label(weekday as int),
{
    Weekday::try_from(weekday).unwrap().to_string()
}

/// `Timelike::with_hour` of chrono, on the instant taken as a `DateTime` at the offset.
/// Claims that chrono refuses an hour of 24 or more, and otherwise keeps the
/// local date, minute and second.
#[verifier::external_body]
fn chrono_with_hour(instant: i64, offset: i32, hour: u32) -> (moved: Option<i64>)
    requires
        in_calendar(instant as int),
        is_offset(offset as int),
    ensures
        moved == local_hour_set(instant as int, offset as int, hour as int),
{
    let place = FixedOffset::east_opt(offset).unwrap();
    let at = DateTime::from_timestamp(instant, 0).unwrap().with_timezone(&place);
    match at.with_hour(hour) {
        Some(moved) => Some(moved.timestamp()),
        None => None,
    }
}

/// `Timelike::with_minute` of chrono, on the instant taken as a `DateTime` at the offset.
/// Claims that chrono refuses a minute of 60 or more, and otherwise keeps the
/// local date, hour and second.
#[verifier::external_body]
fn chrono_with_minute(instant: i64, offset: i32, minute: u32) -> (moved: Option<i64>)
    requires
        in_calendar(instant as int),
        is_offset(offset as int),
    ensures
        moved == local_minute_set(instant as int, offset as int, minute as int),
{
    let place = FixedOffset::east_opt(offset).unwrap();
    let at = DateTime::from_timestamp(instant, 0).unwrap().with_timezone(&place);
    match at.with_minute(minute) {
        Some(moved) => Some(moved.timestamp()),
        None => None,
    }
}

/// `Timelike::with_second` of chrono, on the instant taken as a `DateTime` at the offset.
/// Claims that chrono refuses a second of 60 or more, and otherwise keeps the
/// local date, hour and minute.
#[verifier::external_body]
fn chrono_with_second(instant: i64, offset: i32, second: u32) -> (moved: Option<i64>)
    requires
        in_calendar(instant as int),
        is_offset(offset as int),
    ensures
        moved == local_second_set(instant as int, offset as int, second as int),
{
    let place = FixedOffset::east_opt(offset).unwrap();
    let at = DateTime::from_timestamp(instant, 0).unwrap().with_timezone(&place);
    match at.with_second(second) {
        Some(moved) => Some(moved.timestamp()),
        None => None,
    }
}

/// The local hour of the day.
pub fn hour(instant: i64) -> (hour: u32)
    requires
        in_calendar(instant as int),
    ensures
        hour as int == hour_of(instant as int),
{
    chrono_hour(instant, SAST_OFFSET as i32)
}

/// The local minute of the hour.
pub fn minute(instant: i64) -> (minute: u32)
    requires
        in_calendar(instant as int),
    ensures
        minute as int == minute_of(instant as int),
{
    chrono_minute(instant, SAST_OFFSET as i32)
}

/// The local day of the month.
pub fn day(instant: i64) -> (day: u32)
    requires
        in_calendar(instant as int),
    ensures
        day as int == day_of_month(instant as int),
        1 <= day <= 31,
{
    chrono_day(instant, SAST_OFFSET as i32)
}

/// The local day of the week, counted from Monday as 0.
pub fn weekday(instant: i64) -> (weekday: u32)
    requires
        in_calendar(instant as int),
    ensures
        weekday as int == weekday_of(instant as int),
        weekday as int == ((instant + SAST_OFFSET) / 86400 + 3) % 7,
        weekday < 7,
{
    chrono_weekday(instant, SAST_OFFSET as i32)
}

/// The instant on the same local day, at `hour` o'clock.
pub(crate) fn with_hour(instant: i64, hour: u32) -> (moved: Option<i64>)
    requires
        in_calendar(instant as int),
    ensures
        moved == hour_set(instant as int, hour as int),
{
    chrono_with_hour(instant, SAST_OFFSET as i32, hour)
}

/// The instant in the same local hour, at minute `minute`.
pub(crate) fn with_minute(instant: i64, minute: u32) -> (moved: Option<i64>)
    requires
        in_calendar(instant as int),
    ensures
        moved == minute_set(instant as int, minute as int),
{
    chrono_with_minute(instant, SAST_OFFSET as i32, minute)
}

/// The instant in the same local minute, at second `second`.
pub(crate) fn with_second(instant: i64, second: u32) -> (moved: Option<i64>)
    requires
        in_calendar(instant as int),
    ensures
        moved == second_set(instant as int, second as int),
{
    chrono_with_second(instant, SAST_OFFSET as i32, second)
}

/// An instant moved within its local day shows the seconds since midnight
/// that it was moved to.
pub proof fn lemma_second_of_day_moved(instant: int, second: int)
    requires
        0 <= second < 86400,
    ensures
        second_of_day(instant - second_of_day(instant) + second) == second,
{
    let local = instant + SAST_OFFSET;
    let days = local / 86400;
    vstd::arithmetic::div_mod::lemma_fundamental_div_mod(local, 86400);
    let moved = local - local % 86400 + second;
    assert(moved == days * 86400 + second);
    vstd::arithmetic::div_mod::lemma_fundamental_div_mod_converse(moved, 86400, days, second);
}

/// The second of the minute is the same, counted within the hour or within the day.
pub proof fn lemma_second_of_minute(second: int)
    ensures
        (second % 3600) % 60 == second % 60,
{
    vstd::arithmetic::div_mod::lemma_fundamental_div_mod(second, 3600);
    vstd::arithmetic::div_mod::lemma_fundamental_div_mod(second % 3600, 60);
    let left = (second / 3600) * 60 + (second % 3600) / 60;
    assert(second == left * 60 + (second % 3600) % 60);
    vstd::arithmetic::div_mod::lemma_fundamental_div_mod_converse(
        second,
        60,
        left,
        (second % 3600) % 60,
    );
}

/// The time of day lies in its ranges.
pub proof fn lemma_time_of_day(instant: int)
    ensures
        0 <= second_of_day(instant) < 86400,
        0 <= hour_of(instant) < 24,
        0 <= minute_of(instant) < 60,
{
}

/// The instant at which the local hour of `instant` began.
pub fn top_of_hour(instant: i64) -> (top: i64)
    requires
        valid_instant(instant as int),
    ensures
        top as int == instant - second_of_day(instant as int) % 3600,
        top <= instant < top + 3600,
        minute_of(top as int) == 0,
        hour_of(top as int) == hour_of(instant as int),
{
    proof {
        lemma_time_of_day(instant as int);
    }
    let ghost second = second_of_day(instant as int);
    let on_minute: i64 = with_second(instant, 0).unwrap();
    proof {
        lemma_second_of_day_moved(instant as int, second - second % 60);
        assert((second - second % 60) % 60 == 0) by {
            vstd::arithmetic::div_mod::lemma_fundamental_div_mod(second, 60);
            vstd::arithmetic::div_mod::lemma_fundamental_div_mod_converse(
                second - second % 60,
                60,
                second / 60,
                0,
            );
        }
        assert((second - second % 60) % 3600 == second % 3600 - second % 60) by {
            lemma_second_of_minute(second);
            vstd::arithmetic::div_mod::lemma_fundamental_div_mod(second, 3600);
            vstd::arithmetic::div_mod::lemma_fundamental_div_mod_converse(
                second - second % 60,
                3600,
                second / 3600,
                second % 3600 - second % 60,
            );
        }
    }
    let top: i64 = with_minute(on_minute, 0).unwrap();
    proof {
        lemma_second_of_day_moved(instant as int, second - second % 3600);
        vstd::arithmetic::div_mod::lemma_fundamental_div_mod(second, 3600);
        vstd::arithmetic::div_mod::lemma_fundamental_div_mod_converse(
            second - second % 3600,
            3600,
            second / 3600,
            0,
        );
    }
    top
}

} // verus!
