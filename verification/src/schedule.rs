//! Time schedules: a daily window of time and, for each stage, the rotation of
//! groups that are cut during it.

use crate::clock;
use crate::clock::{at_hour, at_minute, hour_of, minute_of, second_of_day, valid_instant};
use vstd::prelude::*;

verus! {

/// One stage of a schedule: from this stage on, the group at index `d - 1` of
/// `groups` is cut on day `d` of the month.
#[derive(Debug, Clone, PartialEq, Eq)]
pub struct StageTimes {
    pub stage: i32,
    pub groups: Vec<u128>,
}

/// A municipality's daily window `[start, stop)` with the stages that cut during it.
/// A window whose stop hour is smaller than its start hour runs past midnight.
#[derive(Debug, Clone, PartialEq, Eq)]
pub struct TimeScheduleEntity {
    pub id: u128,
    pub start_hour: i32,
    pub start_minute: i32,
    pub stop_hour: i32,
    pub stop_minute: i32,
    pub stages: Vec<StageTimes>,
    pub municipality: u128,
}

/// Time of day `(h1, m1)` is `(h2, m2)` or earlier.
pub open spec fn not_after(h1: int, m1: int, h2: int, m2: int) -> bool {
    h1 < h2 || (h1 == h2 && m1 <= m2)
}

/// Time of day `(h1, m1)` is earlier than `(h2, m2)`.
pub open spec fn before(h1: int, m1: int, h2: int, m2: int) -> bool {
    h1 < h2 || (h1 == h2 && m1 < m2)
}

impl StageTimes {
    /// The group that this stage cuts on the given day of the month, if the
    /// rotation has a slot for that day.
    pub open spec fn group_on(&self, day: int) -> Option<u128> {
        if 1 <= day <= self.groups@.len() {
            Some(self.groups@[day - 1])
        } else {
            None
        }
    }

    /// The group that this stage cuts on the given day of the month.
    pub fn group_on_day(&self, day: u32) -> (group: Option<u128>)
        ensures
            group == self.group_on(day as int),
    {
        if day == 0 {
            return None;
        }
        let slot: usize = (day - 1) as usize;
        if slot < self.groups.len() {
            Some(self.groups[slot])
        } else {
            None
        }
    }
}

impl TimeScheduleEntity {
    /// The window runs past midnight.
    pub open spec fn wraps(&self) -> bool {
        self.stop_hour < self.start_hour
    }

    /// The time of day lies at or after the window's start.
    pub open spec fn from_start(&self, hour: int, minute: int) -> bool {
        not_after(self.start_hour as int, self.start_minute as int, hour, minute)
    }

    /// The time of day lies before the window's stop.
    pub open spec fn before_stop(&self, hour: int, minute: int) -> bool {
        before(hour, minute, self.stop_hour as int, self.stop_minute as int)
    }

    /// The window holds the time of day: the start counts, the stop does not.
    /// A window that runs past midnight is the evening from its start on
    /// together with the morning up to its stop.
    pub open spec fn holds(&self, hour: int, minute: int) -> bool {
        if self.wraps() {
            self.from_start(hour, minute) || self.before_stop(hour, minute)
        } else {
            self.from_start(hour, minute) && self.before_stop(hour, minute)
        }
    }

    /// The window holds the instant's local time of day.
    pub open spec fn is_within(&self, instant: int) -> bool {
        self.holds(hour_of(instant), minute_of(instant))
    }

    /// The start (or the stop) is a time of day that a clock can show.
    pub open spec fn bound_on_clock(&self, start: bool) -> bool {
        if start {
            0 <= self.start_hour < 24 && 0 <= self.start_minute < 60
        } else {
            0 <= self.stop_hour < 24 && 0 <= self.stop_minute < 60
        }
    }

    /// The window's start (or stop) on the instant's local day, seconds kept.
    pub open spec fn bound_on_day(&self, instant: int, start: bool) -> int {
        if start {
            at_minute(at_hour(instant, self.start_hour as int), self.start_minute as int)
        } else {
            at_minute(at_hour(instant, self.stop_hour as int), self.stop_minute as int)
        }
    }

    /// The window's start (or stop) on the instant's local day, or a day later
    /// where that lies before the instant.
    pub open spec fn next_boundary(&self, instant: int, start: bool) -> int {
        let on_day = self.bound_on_day(instant, start);
        if on_day < instant {
            on_day + 86400
        } else {
            on_day
        }
    }

    /// The latest instant, at or before `instant`, at which a clock shows the
    /// window's start: the start of the window that holds the instant, where
    /// one does.
    pub open spec fn last_start(&self, instant: int) -> int {
        let next = self.next_boundary(instant, true);
        if next == instant {
            instant
        } else {
            next - 86400
        }
    }

    /// At or below `stage`, the schedule cuts `group` on the given day of the month.
    pub open spec fn cuts(&self, stage: int, group: u128, day: int) -> bool {
        exists|b: int|
            0 <= b < self.stages@.len() && (#[trigger] self.stages@[b]).stage <= stage
                && self.stages@[b].group_on(day) == Some(group)
    }

    /// Whether the window holds the instant's local time of day.
    pub fn is_within_timeslot(&self, time_to_search: i64) -> (within: bool)
        requires
            valid_instant(time_to_search as int),
        ensures
            within == self.is_within(time_to_search as int),
            self.stop_hour < self.start_hour ==> (within <==> (self.from_start(
                hour_of(time_to_search as int),
                minute_of(time_to_search as int),
            ) || self.before_stop(hour_of(time_to_search as int), minute_of(time_to_search as int)))),
    {
        proof {
            clock::lemma_time_of_day(time_to_search as int);
        }
        let hour: i32 = clock::hour(time_to_search) as i32;
        let minute: i32 = clock::minute(time_to_search) as i32;
        let from_start = self.start_hour < hour || (self.start_hour == hour && self.start_minute
            <= minute);
        let before_stop = hour < self.stop_hour || (hour == self.stop_hour && minute
            < self.stop_minute);
        if self.stop_hour < self.start_hour {
            from_start || before_stop
        } else {
            from_start && before_stop
        }
    }

    /// The next instant, at or after `time_to_search`, at which a clock shows
    /// the window's start (`start` set) or its stop.
    pub fn timestamp_from_slot_times(&self, time_to_search: i64, start: bool) -> (time: i64)
        requires
            valid_instant(time_to_search as int),
            self.bound_on_clock(start),
        ensures
            time as int == self.next_boundary(time_to_search as int, start),
            time_to_search <= time < time_to_search + 86400,
    {
        let hour: u32 = if start {
            self.start_hour as u32
        } else {
            self.stop_hour as u32
        };
        let minute: u32 = if start {
            self.start_minute as u32
        } else {
            self.stop_minute as u32
        };
        proof {
            clock::lemma_time_of_day(time_to_search as int);
            lemma_bound_on_day(*self, time_to_search as int, start);
        }
        let on_hour: i64 = clock::with_hour(time_to_search, hour).unwrap();
        let on_day: i64 = clock::with_minute(on_hour, minute).unwrap();
        if on_day < time_to_search {
            on_day + 86400
        } else {
            on_day
        }
    }

    /// The latest instant, at or before `time_to_search`, at which a clock shows
    /// the window's start.
    pub fn window_start(&self, time_to_search: i64) -> (time: i64)
        requires
            valid_instant(time_to_search as int),
            self.bound_on_clock(true),
        ensures
            time as int == self.last_start(time_to_search as int),
            time_to_search - 86400 < time <= time_to_search,
    {
        let next: i64 = self.timestamp_from_slot_times(time_to_search, true);
        if next == time_to_search {
            time_to_search
        } else {
            next - 86400
        }
    }

    /// Whether, at or below `stage`, the schedule cuts `group` on the given day of the month.
    pub fn cuts_group(&self, stage: i32, group: u128, day: u32) -> (cut: bool)
        ensures
            cut == self.cuts(stage as int, group, day as int),
    {
        let mut b: usize = 0;
        while b < self.stages.len()
            invariant
                b <= self.stages@.len(),
                forall|k: int|
                    0 <= k < b ==> !((#[trigger] self.stages@[k]).stage <= stage
                        && self.stages@[k].group_on(day as int) == Some(group)),
            decreases self.stages@.len() - b,
        {
            if self.stages[b].stage <= stage {
                let found = self.stages[b].group_on_day(day);
                if found == Some(group) {
                    return true;
                }
            }
            b += 1;
        }
        false
    }
}

/// The window's start or stop on the instant's local day, written out.
pub proof fn lemma_bound_on_day(schedule: TimeScheduleEntity, instant: int, start: bool)
    requires
        schedule.bound_on_clock(start),
    ensures
        schedule.bound_on_day(instant, start) == instant - second_of_day(instant) + (if start {
            schedule.start_hour * 3600 + schedule.start_minute * 60
        } else {
            schedule.stop_hour * 3600 + schedule.stop_minute * 60
        }) + second_of_day(instant) % 60,
        instant - 86400 < schedule.bound_on_day(instant, start) < instant + 86400,
{
    let hour: int = if start {
        schedule.start_hour as int
    } else {
        schedule.stop_hour as int
    };
    let minute: int = if start {
        schedule.start_minute as int
    } else {
        schedule.stop_minute as int
    };
    clock::lemma_time_of_day(instant);
    let second = second_of_day(instant);
    let within_hour = second % 3600;
    let on_hour = at_hour(instant, hour);
    assert(on_hour == instant - second + (hour * 3600 + within_hour));
    clock::lemma_second_of_day_moved(instant, hour * 3600 + within_hour);
    let moved = second_of_day(on_hour);
    assert(moved == hour * 3600 + within_hour);
    vstd::arithmetic::div_mod::lemma_fundamental_div_mod_converse(moved, 3600, hour, within_hour);
    assert(moved % 3600 == within_hour);
    clock::lemma_second_of_minute(second);
    assert(moved % 60 == within_hour % 60) by {
        vstd::arithmetic::div_mod::lemma_fundamental_div_mod(within_hour, 60);
        let left = hour * 60 + within_hour / 60;
        assert(moved == left * 60 + within_hour % 60);
        vstd::arithmetic::div_mod::lemma_fundamental_div_mod_converse(
            moved,
            60,
            left,
            within_hour % 60,
        );
    }
    assert(at_minute(on_hour, minute) == on_hour - within_hour + minute * 60 + second % 60);
}

} // verus!
