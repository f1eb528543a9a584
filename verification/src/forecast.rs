//! The forecast: when a suburb will be without power over the coming day.

use crate::api::ApiError;
use crate::clock;
use crate::clock::{day_of_month, valid_instant};
use crate::region::{GroupEntity, SuburbEntity};
use crate::schedule::TimeScheduleEntity;
use crate::stage_log::{stage_at, LoadSheddingStage};
use vstd::prelude::*;

verus! {

/// An interval `[start, end)` of instants.
#[derive(Debug, Clone, Copy, PartialEq, Eq)]
pub struct TimeSlot {
    pub start: i64,
    pub end: i64,
}

/// The outages that are expected, in the order in which they were found.
#[derive(Debug, Clone, PartialEq, Eq)]
pub struct PredictiveSuburbStatsResponse {
    pub times_off: Vec<TimeSlot>,
}

/// What the caller is told where a suburb has no group, or the stage log no
/// entry for the start of the walk.
pub const NO_GROUP: &'static str = "Group cannot be identified for specified suburb";

/// The length of the forecast, in seconds.
pub const FORECAST_SECONDS: i64 = 86400;

/// The step of the clock where no schedule applies, in seconds.
pub const STEP_SECONDS: i64 = 1800;

/// The schedule applies at `instant`: its window holds the time of day, and at
/// or below `stage` it cuts `group` on that day of the month.
pub open spec fn applies(schedule: TimeScheduleEntity, stage: int, group: u128, instant: int) -> bool {
    schedule.is_within(instant) && schedule.cuts(stage, group, day_of_month(instant))
}

/// The first schedule at or after position `from` that applies at `instant`.
pub open spec fn first_match_from(
    schedules: Seq<TimeScheduleEntity>,
    stage: int,
    group: u128,
    instant: int,
    from: int,
) -> Option<int>
    decreases schedules.len() - from,
{
    if from < 0 || from >= schedules.len() {
        None
    } else if applies(schedules[from], stage, group, instant) {
        Some(from)
    } else {
        first_match_from(schedules, stage, group, instant, from + 1)
    }
}

/// The first schedule that applies at `instant`.
pub open spec fn first_match(
    schedules: Seq<TimeScheduleEntity>,
    stage: int,
    group: u128,
    instant: int,
) -> Option<int> {
    first_match_from(schedules, stage, group, instant, 0)
}

/// The outages with `[start, end)` added: where it touches or overlaps the last
/// outage, that one ends at `end` instead.
pub open spec fn merged(found: Seq<TimeSlot>, start: int, end: int) -> Seq<TimeSlot> {
    if found.len() > 0 && found.last().end >= start {
        found.update(found.len() - 1, TimeSlot { start: found.last().start, end: end as i64 })
    } else {
        found.push(TimeSlot { start: start as i64, end: end as i64 })
    }
}

/// The outages found by walking the clock from `clock` up to `horizon`, given
/// those found so far and the entry of the stage log in force before.
///
/// At each instant the stage log moves on by at most one entry. Where a
/// schedule applies, the start of its window, at or before the clock, and its
/// next stop make an outage, and the clock jumps to that stop; where none
/// applies, the clock moves on by half an hour.
/// (The walk would end early at a stop that does not lie ahead of the clock.
/// A window that holds the clock stops later, so long as its stop is a time
/// that a clock can show.)
pub open spec fn forecast_from(
    group: u128,
    stages: Seq<LoadSheddingStage>,
    schedules: Seq<TimeScheduleEntity>,
    horizon: int,
    clock: int,
    current: int,
    found: Seq<TimeSlot>,
) -> Seq<TimeSlot>
    decreases
            (if clock < horizon {
                horizon - clock
            } else {
                0
            }),
{
    if clock >= horizon {
        found
    } else {
        let current = stage_at(stages, current, clock);
        match first_match(schedules, stages[current].stage as int, group, clock) {
            Some(slot) => {
                let start = schedules[slot].last_start(clock);
                let end = schedules[slot].next_boundary(clock, false);
                if end > clock {
                    forecast_from(
                        group,
                        stages,
                        schedules,
                        horizon,
                        end,
                        current,
                        merged(found, start, end),
                    )
                } else {
                    found
                }
            },
            None => forecast_from(
                group,
                stages,
                schedules,
                horizon,
                clock + 1800,
                current,
                found,
            ),
        }
    }
}

/// The outages of the day that begins at `start`. The stage log stands newest
/// first, and the walk begins at its oldest entry, the last one.
pub open spec fn forecast(
    group: u128,
    stages: Seq<LoadSheddingStage>,
    schedules: Seq<TimeScheduleEntity>,
    start: int,
) -> Seq<TimeSlot> {
    forecast_from(
        group,
        stages,
        schedules,
        start + FORECAST_SECONDS,
        start,
        stages.len() - 1,
        Seq::empty(),
    )
}

/// Every schedule's start and stop are times of day that a clock can show.
pub open spec fn on_clock(schedules: Seq<TimeScheduleEntity>) -> bool {
    forall|i: int|
        0 <= i < schedules.len() ==> (#[trigger] schedules[i]).bound_on_clock(true)
            && schedules[i].bound_on_clock(false)
}

/// A first match from `from` is the first position from there on that applies.
pub proof fn lemma_first_match_from(
    schedules: Seq<TimeScheduleEntity>,
    stage: int,
    group: u128,
    instant: int,
    from: int,
)
    requires
        0 <= from <= schedules.len(),
    ensures
        match first_match_from(schedules, stage, group, instant, from) {
            Some(slot) => from <= slot < schedules.len() && applies(
                schedules[slot],
                stage,
                group,
                instant,
            ) && forall|j: int| from <= j < slot ==> !applies(#[trigger] schedules[j], stage, group, instant),
            None => forall|j: int|
                from <= j < schedules.len() ==> !applies(#[trigger] schedules[j], stage, group, instant),
        },
    decreases schedules.len() - from,
{
    if from < schedules.len() && !applies(schedules[from], stage, group, instant) {
        lemma_first_match_from(schedules, stage, group, instant, from + 1);
    }
}

/// A window that holds an instant stops later than that instant.
pub proof fn lemma_stop_lies_ahead(schedule: TimeScheduleEntity, instant: int)
    requires
        schedule.bound_on_clock(false),
        schedule.is_within(instant),
    ensures
        instant < schedule.next_boundary(instant, false) <= instant + 86400,
{
    crate::schedule::lemma_bound_on_day(schedule, instant, false);
    clock::lemma_time_of_day(instant);
    let second = clock::second_of_day(instant);
    clock::lemma_second_of_minute(second);
    vstd::arithmetic::div_mod::lemma_fundamental_div_mod(second, 3600);
    vstd::arithmetic::div_mod::lemma_fundamental_div_mod(second % 3600, 60);
}

/// Each outage ends after it starts, and starts after the one before it has ended.
pub open spec fn in_order(found: Seq<TimeSlot>) -> bool {
    &&& forall|i: int| 0 <= i < found.len() ==> (#[trigger] found[i]).start < found[i].end
    &&& forall|i: int, j: int|
        0 <= i < j < found.len() ==> (#[trigger] found[i]).end < (#[trigger] found[j]).start
}

/// Each outage has a part in the day that begins at `start`: it starts before
/// the day is over and ends after the day has begun.
pub open spec fn in_day(found: Seq<TimeSlot>, start: int) -> bool {
    forall|i: int|
        0 <= i < found.len() ==> (#[trigger] found[i]).start < start + FORECAST_SECONDS
            && found[i].end > start
}

/// The stage in force at the start of the walk that begins at `start`.
pub open spec fn first_stage(stages: Seq<LoadSheddingStage>, start: int) -> int {
    stages[stage_at(stages, stages.len() - 1, start)].stage as int
}

/// The walk keeps the outages in order and in the day, and leaves the first
/// one its start.
proof fn lemma_forecast_from(
    group: u128,
    stages: Seq<LoadSheddingStage>,
    schedules: Seq<TimeScheduleEntity>,
    from: int,
    horizon: int,
    clock: int,
    current: int,
    found: Seq<TimeSlot>,
)
    requires
        on_clock(schedules),
        valid_instant(from),
        valid_instant(horizon),
        horizon == from + FORECAST_SECONDS,
        from <= clock,
        in_order(found),
        in_day(found, from),
        forall|i: int| 0 <= i < found.len() ==> (#[trigger] found[i]).end <= clock,
    ensures
        in_order(forecast_from(group, stages, schedules, horizon, clock, current, found)),
        in_day(forecast_from(group, stages, schedules, horizon, clock, current, found), from),
        found.len() > 0 ==> forecast_from(
            group,
            stages,
            schedules,
            horizon,
            clock,
            current,
            found,
        ).len() > 0 && forecast_from(group, stages, schedules, horizon, clock, current, found)[0].start
            == found[0].start && forecast_from(
            group,
            stages,
            schedules,
            horizon,
            clock,
            current,
            found,
        )[0].end >= found[0].end,
    decreases
            (if clock < horizon {
                horizon - clock
            } else {
                0
            }),
{
    if clock < horizon {
        let now = stage_at(stages, current, clock);
        match first_match(schedules, stages[now].stage as int, group, clock) {
            Some(slot) => {
                lemma_first_match_from(schedules, stages[now].stage as int, group, clock, 0);
                lemma_stop_lies_ahead(schedules[slot], clock);
                crate::schedule::lemma_bound_on_day(schedules[slot], clock, true);
                let start = schedules[slot].last_start(clock);
                let end = schedules[slot].next_boundary(clock, false);
                assert(clock - 86400 < start <= clock);
                let next = merged(found, start, end);
                assert(in_order(next));
                assert(in_day(next, from));
                assert forall|i: int| 0 <= i < next.len() implies (#[trigger] next[i]).end
                    <= end by {}
                assert(found.len() > 0 ==> next[0].start == found[0].start && next[0].end
                    >= found[0].end);
                lemma_forecast_from(group, stages, schedules, from, horizon, end, now, next);
            },
            None => {
                lemma_forecast_from(
                    group,
                    stages,
                    schedules,
                    from,
                    horizon,
                    clock + 1800,
                    now,
                    found,
                );
            },
        }
    }
}

/// Every forecast is sorted by start, its outages neither touch nor overlap,
/// each ends after it starts, and each has a part in the day of the forecast.
/// A suburb that is cut at the start has a first outage that holds the start.
pub proof fn lemma_forecast_in_order(
    group: u128,
    stages: Seq<LoadSheddingStage>,
    schedules: Seq<TimeScheduleEntity>,
    start: int,
)
    requires
        on_clock(schedules),
        valid_instant(start),
        valid_instant(start + FORECAST_SECONDS),
    ensures
        in_order(forecast(group, stages, schedules, start)),
        in_day(forecast(group, stages, schedules, start), start),
        first_match(schedules, first_stage(stages, start), group, start).is_some() ==> forecast(
            group,
            stages,
            schedules,
            start,
        ).len() > 0 && forecast(group, stages, schedules, start)[0].holds(start),
{
    let horizon = start + FORECAST_SECONDS;
    let oldest = stages.len() - 1;
    lemma_forecast_from(group, stages, schedules, start, horizon, start, oldest, Seq::empty());
    let now = stage_at(stages, oldest, start);
    match first_match(schedules, stages[now].stage as int, group, start) {
        Some(slot) => {
            lemma_first_match_from(schedules, stages[now].stage as int, group, start, 0);
            lemma_stop_lies_ahead(schedules[slot], start);
            crate::schedule::lemma_bound_on_day(schedules[slot], start, true);
            let begins = schedules[slot].last_start(start);
            let end = schedules[slot].next_boundary(start, false);
            let next = merged(Seq::empty(), begins, end);
            assert(next.len() == 1 && next[0].start == begins && next[0].end == end);
            assert(forecast(group, stages, schedules, start) == forecast_from(
                group,
                stages,
                schedules,
                horizon,
                end,
                now,
                next,
            ));
            lemma_forecast_from(group, stages, schedules, start, horizon, end, now, next);
        },
        None => {},
    }
}

impl SuburbEntity {
    /// The first schedule that applies to `group` at `time` while `stage` is in force.
    pub fn add_time_checker(
        &self,
        stage: &LoadSheddingStage,
        time_slots: &Vec<TimeScheduleEntity>,
        group: &GroupEntity,
        time: i64,
    ) -> (slot: Option<usize>)
        requires
            valid_instant(time as int),
        ensures
            slot matches Some(i) ==> i < time_slots@.len() && applies(
                time_slots@[i as int],
                stage.stage as int,
                group.id,
                time as int,
            ) && forall|j: int|
                0 <= j < i ==> !applies(
                    #[trigger] time_slots@[j],
                    stage.stage as int,
                    group.id,
                    time as int,
                ),
            slot.is_none() ==> forall|j: int|
                0 <= j < time_slots@.len() ==> !applies(
                    #[trigger] time_slots@[j],
                    stage.stage as int,
                    group.id,
                    time as int,
                ),
            (match slot {
                Some(i) => Some(i as int),
                None => None,
            }) == first_match(time_slots@, stage.stage as int, group.id, time as int),
    {
        let day: u32 = clock::day(time);
        let mut i: usize = 0;
        while i < time_slots.len()
            invariant
                i <= time_slots@.len(),
                valid_instant(time as int),
                day as int == day_of_month(time as int),
                forall|j: int|
                    0 <= j < i ==> !applies(
                        #[trigger] time_slots@[j],
                        stage.stage as int,
                        group.id,
                        time as int,
                    ),
                first_match(time_slots@, stage.stage as int, group.id, time as int)
                    == first_match_from(
                    time_slots@,
                    stage.stage as int,
                    group.id,
                    time as int,
                    i as int,
                ),
            decreases time_slots@.len() - i,
        {
            if time_slots[i].is_within_timeslot(time) && time_slots[i].cuts_group(
                stage.stage,
                group.id,
                day,
            ) {
                return Some(i);
            }
            i += 1;
        }
        None
    }

    /// The outages of the suburb's group over the day that begins at `time`,
    /// sorted by start. An outage that has begun before `time` is given from
    /// its start; one that lasts beyond the day is given to its end.
    ///
    /// `all_stages` is the stage log from the entry in force at `time` on,
    /// newest first: the entry in force at `time` is its last. The walk takes
    /// it from that end.
    pub fn build_schedule(
        &self,
        group: &GroupEntity,
        all_stages: &Vec<LoadSheddingStage>,
        schedule: &Vec<TimeScheduleEntity>,
        time: i64,
    ) -> (response: PredictiveSuburbStatsResponse)
        requires
            valid_instant(time as int),
            valid_instant(time + FORECAST_SECONDS),
            all_stages@.len() >= 1,
            on_clock(schedule@),
        ensures
            response.times_off@ == forecast(group.id, all_stages@, schedule@, time as int),
            in_order(response.times_off@),
            in_day(response.times_off@, time as int),
            first_match(schedule@, first_stage(all_stages@, time as int), group.id, time as int)
                .is_some() ==> response.times_off@.len() > 0 && response.times_off@[0].holds(
                time as int,
            ),
    {
        proof {
            lemma_forecast_in_order(group.id, all_stages@, schedule@, time as int);
        }
        let horizon: i64 = time + FORECAST_SECONDS;
        let mut found: Vec<TimeSlot> = Vec::new();
        let entries: usize = all_stages.len();
        let mut current: usize = entries - 1;
        let mut time_to_search: i64 = time;
        while time_to_search < horizon
            invariant
                time <= time_to_search,
                entries == all_stages@.len(),
                horizon == time + FORECAST_SECONDS,
                valid_instant(time as int),
                valid_instant(horizon as int),
                current < all_stages@.len(),
                on_clock(schedule@),
                forecast(group.id, all_stages@, schedule@, time as int) == forecast_from(
                    group.id,
                    all_stages@,
                    schedule@,
                    horizon as int,
                    time_to_search as int,
                    current as int,
                    found@,
                ),
            decreases
                    (if time_to_search < horizon {
                        horizon - time_to_search
                    } else {
                        0
                    }),
        {
            if current > 0 && all_stages[current - 1].start_time <= time_to_search {
                current -= 1;
            }
            match self.add_time_checker(&all_stages[current], schedule, group, time_to_search) {
                Some(slot) => {
                    proof {
                        lemma_stop_lies_ahead(schedule@[slot as int], time_to_search as int);
                    }
                    let end_time: i64 = schedule[slot].timestamp_from_slot_times(
                        time_to_search,
                        false,
                    );
                    let start_time: i64 = schedule[slot].window_start(time_to_search);
                    let count: usize = found.len();
                    if count > 0 && found[count - 1].end >= start_time {
                        let last: TimeSlot = found[count - 1];
                        found.set(count - 1, TimeSlot { start: last.start, end: end_time });
                    } else {
                        found.push(TimeSlot { start: start_time, end: end_time });
                    }
                    time_to_search = end_time;
                },
                None => {
                    time_to_search = time_to_search + STEP_SECONDS;
                },
            }
        }
        PredictiveSuburbStatsResponse { times_off: found }
    }
}

impl TimeSlot {
    /// The interval holds the instant: the start counts, the end does not.
    pub open spec fn holds(&self, instant: int) -> bool {
        self.start <= instant < self.end
    }

    /// Whether the interval holds the instant.
    pub fn time_slot_bound_validation(&self, time_to_search: i64) -> (within: bool)
        ensures
            within == self.holds(time_to_search as int),
    {
        self.start <= time_to_search && self.end > time_to_search
    }
}

impl PredictiveSuburbStatsResponse {
    /// The first outage that holds `time_now`, alone; no outage where none holds it.
    pub fn time_for_polygon(&self, time_now: i64) -> (relevant: PredictiveSuburbStatsResponse)
        ensures
            relevant.times_off@.len() <= 1,
            relevant.times_off@.len() == 1 ==> exists|i: int|
                0 <= i < self.times_off@.len() && relevant.times_off@[0] == (
                #[trigger] self.times_off@[i]) && self.times_off@[i].holds(time_now as int)
                    && forall|j: int|
                    0 <= j < i ==> !(#[trigger] self.times_off@[j]).holds(time_now as int),
            relevant.times_off@.len() == 0 ==> forall|j: int|
                0 <= j < self.times_off@.len() ==> !(#[trigger] self.times_off@[j]).holds(
                    time_now as int,
                ),
    {
        let mut times_off: Vec<TimeSlot> = Vec::new();
        let mut i: usize = 0;
        while i < self.times_off.len()
            invariant
                i <= self.times_off@.len(),
                times_off@.len() == 0,
                forall|j: int|
                    0 <= j < i ==> !(#[trigger] self.times_off@[j]).holds(time_now as int),
            decreases self.times_off@.len() - i,
        {
            if self.times_off[i].time_slot_bound_validation(time_now) {
                times_off.push(self.times_off[i]);
                return PredictiveSuburbStatsResponse { times_off };
            }
            i += 1;
        }
        PredictiveSuburbStatsResponse { times_off }
    }
}

impl SuburbEntity {
    /// Puts together what the forecast and the downtime of a suburb are
    /// computed from: its group, the stage log from the entry in force at the
    /// start of the walk on, newest first, and the schedules of its municipality.
    ///
    /// `first_stage_change` is the entry in force at the start of the walk and
    /// `stage_logs` holds the entries that start later, oldest first. They
    /// are turned round, and the entry in force at the start comes last. A
    /// suburb without a group, or a walk without an entry in force at its
    /// start, is an error.
    pub fn collect_information(
        &self,
        group: Option<GroupEntity>,
        stage_logs: Vec<LoadSheddingStage>,
        first_stage_change: Option<LoadSheddingStage>,
        schedule: Vec<TimeScheduleEntity>,
    ) -> (information: Result<
        (GroupEntity, Vec<LoadSheddingStage>, Vec<TimeScheduleEntity>),
        ApiError<'static>,
    >)
        ensures
            match information {
                Ok(found) => group == Some(found.0) && first_stage_change.is_some() && found.1@
                    == stage_logs@.reverse().push(first_stage_change.unwrap()) && found.2
                    == schedule,
                Err(error) => (group.is_none() || first_stage_change.is_none()) && error
                    == ApiError::ServerError(NO_GROUP),
            },
    {
        let group = match group {
            Some(group) => group,
            None => {
                return Err(ApiError::ServerError(NO_GROUP));
            },
        };
        let first = match first_stage_change {
            Some(first) => first,
            None => {
                return Err(ApiError::ServerError(NO_GROUP));
            },
        };
        let later: usize = stage_logs.len();
        let mut all_stages: Vec<LoadSheddingStage> = Vec::new();
        let mut left: usize = later;
        while left > 0
            invariant
                left <= later,
                later == stage_logs@.len(),
                all_stages@.len() == later - left,
                forall|k: int|
                    0 <= k < all_stages@.len() ==> all_stages@[k] == stage_logs@[later - 1 - k],
            decreases left,
        {
            left -= 1;
            all_stages.push(stage_logs[left]);
        }
        assert(all_stages@ =~= stage_logs@.reverse());
        all_stages.push(first);
        Ok((group, all_stages, schedule))
    }
}

} // verus!
