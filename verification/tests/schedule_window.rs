use loadshedding::clock::{day, hour, minute, top_of_hour, weekday};
use loadshedding::schedule::{StageTimes, TimeScheduleEntity};

fn window(start_hour: i32, start_minute: i32, stop_hour: i32, stop_minute: i32) -> TimeScheduleEntity {
    TimeScheduleEntity {
        id: 1,
        start_hour,
        start_minute,
        stop_hour,
        stop_minute,
        stages: vec![],
        municipality: 7,
    }
}

// 2023-09-14T00:00:00+02:00, a Thursday.
const MIDNIGHT: i64 = 1694642400;

fn at(hour: i64, minute: i64) -> i64 {
    MIDNIGHT + hour * 3600 + minute * 60
}

#[test]
fn window_counts_its_start_and_not_its_stop() {
    let evening = window(20, 0, 22, 30);
    assert!(evening.is_within_timeslot(at(20, 0)));
    assert!(evening.is_within_timeslot(at(22, 29)));
    assert!(!evening.is_within_timeslot(at(22, 30)));
    assert!(!evening.is_within_timeslot(at(19, 59)));
}

#[test]
fn window_past_midnight_is_evening_and_morning() {
    let night = window(22, 0, 0, 30);
    assert!(night.is_within_timeslot(at(22, 0)));
    assert!(night.is_within_timeslot(at(23, 0)));
    assert!(night.is_within_timeslot(at(23, 59)));
    assert!(night.is_within_timeslot(at(0, 0)));
    assert!(night.is_within_timeslot(at(0, 29)));
    assert!(!night.is_within_timeslot(at(0, 30)));
    assert!(!night.is_within_timeslot(at(12, 0)));
    assert!(!night.is_within_timeslot(at(21, 59)));
}

#[test]
fn window_past_midnight_holds_every_minute_from_start_or_before_stop() {
    let night = window(22, 15, 3, 45);
    for minute_of_day in 0..1440i64 {
        let hour = minute_of_day / 60;
        let minute = minute_of_day % 60;
        let from_start = hour > 22 || (hour == 22 && minute >= 15);
        let before_stop = hour < 3 || (hour == 3 && minute < 45);
        assert_eq!(
            night.is_within_timeslot(at(hour, minute)),
            from_start || before_stop,
            "at {}:{}",
            hour,
            minute
        );
    }
}

#[test]
fn window_within_one_hour() {
    let short = window(10, 15, 10, 45);
    assert!(!short.is_within_timeslot(at(10, 14)));
    assert!(short.is_within_timeslot(at(10, 15)));
    assert!(short.is_within_timeslot(at(10, 44)));
    assert!(!short.is_within_timeslot(at(10, 45)));
}

#[test]
fn window_goes_by_local_time_not_utc() {
    // 18:30 UTC is 20:30 in South Africa.
    let evening = window(20, 0, 22, 30);
    assert!(evening.is_within_timeslot(1694716200));
    // 20:30 UTC is 22:30 in South Africa.
    assert!(!evening.is_within_timeslot(1694723400));
}

#[test]
fn seconds_do_not_count_for_the_window() {
    let evening = window(20, 0, 22, 30);
    assert!(evening.is_within_timeslot(at(22, 29) + 59));
    assert!(!evening.is_within_timeslot(at(19, 59) + 59));
}

#[test]
fn next_boundary_is_on_the_same_day_when_still_ahead() {
    let morning = window(4, 0, 6, 30);
    assert_eq!(morning.timestamp_from_slot_times(at(3, 0), true), at(4, 0));
    assert_eq!(morning.timestamp_from_slot_times(at(3, 0), false), at(6, 30));
    assert_eq!(morning.timestamp_from_slot_times(at(4, 0), true), at(4, 0));
}

#[test]
fn next_boundary_rolls_to_the_next_day_when_passed() {
    let morning = window(4, 0, 6, 30);
    // At 05:00 the start has passed: the next one is tomorrow's.
    assert_eq!(morning.timestamp_from_slot_times(1694660400, true), 1694743200);
    // The stop is still ahead.
    assert_eq!(morning.timestamp_from_slot_times(1694660400, false), 1694665800);
    // At 06:30 sharp the stop is now.
    assert_eq!(morning.timestamp_from_slot_times(at(6, 30), false), at(6, 30));
    // A minute later it is tomorrow's.
    assert_eq!(morning.timestamp_from_slot_times(at(6, 31), false), at(6, 30) + 86400);
}

#[test]
fn next_boundary_keeps_the_seconds() {
    let morning = window(4, 0, 6, 30);
    assert_eq!(morning.timestamp_from_slot_times(at(5, 0) + 30, false), at(6, 30) + 30);
    assert_eq!(morning.timestamp_from_slot_times(at(6, 30) + 30, false), at(6, 30) + 30);
}

#[test]
fn next_boundary_of_a_window_past_midnight() {
    let night = window(22, 0, 0, 30);
    assert_eq!(night.timestamp_from_slot_times(at(22, 0), true), at(22, 0));
    assert_eq!(night.timestamp_from_slot_times(at(22, 0), false), at(24, 30));
    assert_eq!(night.timestamp_from_slot_times(at(0, 0), false), at(0, 30));
}

#[test]
fn top_of_hour_drops_minutes_and_seconds() {
    assert_eq!(top_of_hour(at(5, 0)), at(5, 0));
    assert_eq!(top_of_hour(at(5, 59) + 59), at(5, 0));
    assert_eq!(top_of_hour(at(23, 1)), at(23, 0));
    assert_eq!(top_of_hour(1694660400 + 1234), 1694660400);
    // Before the epoch too.
    assert_eq!(top_of_hour(-1), -3600);
}

#[test]
fn rotation_goes_by_the_day_of_the_month() {
    let month: Vec<u128> = (1..=31).collect();
    let stage = StageTimes { stage: 1, groups: month };
    assert_eq!(stage.group_on_day(1), Some(1));
    assert_eq!(stage.group_on_day(31), Some(31));
    assert_eq!(stage.group_on_day(0), None);
    assert_eq!(stage.group_on_day(32), None);
}

#[test]
fn rotation_without_a_slot_for_the_day_cuts_nothing() {
    let short = StageTimes { stage: 1, groups: vec![5, 6, 7] };
    assert_eq!(short.group_on_day(3), Some(7));
    assert_eq!(short.group_on_day(4), None);
}

#[test]
fn schedule_cuts_from_its_stage_on() {
    let mut schedule = window(20, 0, 22, 30);
    schedule.stages = vec![
        StageTimes { stage: 2, groups: vec![10; 31] },
        StageTimes { stage: 4, groups: vec![11; 31] },
    ];
    assert!(!schedule.cuts_group(1, 10, 14));
    assert!(schedule.cuts_group(2, 10, 14));
    assert!(schedule.cuts_group(3, 10, 14));
    assert!(!schedule.cuts_group(3, 11, 14));
    assert!(schedule.cuts_group(4, 11, 14));
    assert!(!schedule.cuts_group(4, 12, 14));
    assert!(!schedule.cuts_group(4, 10, 32));
}

fn second_of_day(instant: i64) -> i64 {
    (instant + 7200).rem_euclid(86400)
}

fn samples() -> Vec<i64> {
    let mut all = vec![
        0,
        -1,
        1,
        -7200,
        -7201,
        86399,
        4_000_000_000_000,
        -4_000_000_000_000,
        3_999_999_999_999,
        -3_999_999_999_999,
    ];
    let mut instant: i64 = -2_000_000_000;
    while instant < 5_000_000_000 {
        all.push(instant);
        instant += 7_654_321;
    }
    all
}

#[test]
fn time_of_day_is_the_seconds_since_local_midnight_split_up() {
    let afternoon = window(13, 37, 17, 5);
    let night = window(21, 20, 2, 40);
    for instant in samples() {
        let second = second_of_day(instant);
        let (hour, minute) = (second / 3600, second % 3600 / 60);
        let time = hour * 60 + minute;
        assert_eq!(
            afternoon.is_within_timeslot(instant),
            13 * 60 + 37 <= time && time < 17 * 60 + 5,
            "at {}",
            instant
        );
        assert_eq!(
            night.is_within_timeslot(instant),
            21 * 60 + 20 <= time || time < 2 * 60 + 40,
            "at {}",
            instant
        );
    }
}

#[test]
fn boundaries_keep_the_local_day_and_the_seconds() {
    let afternoon = window(13, 37, 17, 5);
    for instant in samples() {
        if instant > 3_999_999_000_000 {
            continue;
        }
        let second = second_of_day(instant);
        for (start, hour, minute) in [(true, 13, 37), (false, 17, 5)] {
            let on_day = instant - second + hour * 3600 + minute * 60 + second % 60;
            let next = if on_day < instant { on_day + 86400 } else { on_day };
            assert_eq!(afternoon.timestamp_from_slot_times(instant, start), next, "at {}", instant);
        }
    }
}

#[test]
fn top_of_hour_is_the_instant_less_the_seconds_of_its_hour() {
    for instant in samples() {
        assert_eq!(top_of_hour(instant), instant - second_of_day(instant) % 3600, "at {}", instant);
    }
}

#[test]
fn weekdays_are_the_days_since_a_thursday_in_weeks_of_seven() {
    for instant in samples() {
        let days = (instant + 7200).div_euclid(86400);
        assert_eq!(weekday(instant) as i64, (days + 3).rem_euclid(7), "at {}", instant);
    }
    // 2023-09-21T05:00:00+02:00 was a Thursday, the epoch too.
    assert_eq!(weekday(1695265200), 3);
    assert_eq!(weekday(0), 3);
    // Sunday turns to Monday at midnight in South Africa, 22:00 UTC.
    assert_eq!(weekday(1694987999), 6);
    assert_eq!(weekday(1694988000), 0);
}

#[test]
fn calendar_is_read_in_south_african_time() {
    // 2023-06-30T22:30:00Z is half past midnight on the first of July.
    assert_eq!((day(1688164200), hour(1688164200), minute(1688164200)), (1, 0, 30));
    // 2024-02-29T21:59:00Z is the last minute of a leap day.
    assert_eq!((day(1709243940), hour(1709243940), minute(1709243940)), (29, 23, 59));
    assert_eq!(day(1709244000), 1);
}

fn gregorian_day(instant: i64) -> i64 {
    let of_era = ((instant + 7200).div_euclid(86400) + 719468).rem_euclid(146097);
    let year = (of_era - of_era / 1460 + of_era / 36524 - of_era / 146096) / 365;
    let of_year = of_era - (365 * year + year / 4 - year / 100);
    let month = (5 * of_year + 2) / 153;
    of_year - (153 * month + 2) / 5 + 1
}

#[test]
fn days_of_the_month_are_those_of_the_gregorian_calendar() {
    for instant in samples() {
        assert_eq!(day(instant) as i64, gregorian_day(instant), "at {}", instant);
    }
    // Every day of nine hundred years, at noon and around local midnight.
    let mut noon: i64 = -11_676_000_000;
    while noon < 16_725_000_000 {
        for instant in [noon, noon - 43200 - 7200 - 1, noon - 43200 - 7200] {
            assert_eq!(day(instant) as i64, gregorian_day(instant), "at {}", instant);
        }
        noon += 86400;
    }
    // Every 997th day from the year -124780 to the year 128720.
    let mut far: i64 = -4_000_000_000_000;
    while far <= 4_000_000_000_000 {
        assert_eq!(day(far) as i64, gregorian_day(far), "at {}", far);
        far += 86400 * 997;
    }
    // The first of July 2023, a leap day, and the turns of a century.
    assert_eq!(day(1688237449), 1);
    assert_eq!(day(1709200000), 29);
    assert_eq!(day(951775200), 29);
    assert_eq!(day(-2203891200), 1);
}
