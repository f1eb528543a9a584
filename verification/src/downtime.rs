//! The downtime of the past week: how long a suburb was without power, in
//! all and on each day of the week.

use crate::clock;
use crate::clock::{valid_instant, weekday_label, weekday_of};
use crate::forecast::first_match;
use crate::region::{GroupEntity, SuburbEntity};
use crate::schedule::TimeScheduleEntity;
use crate::stage_log::{stage_at, LoadSheddingStage};
use vstd::prelude::*;

verus! {

/// Minutes with power and minutes without.
#[derive(Debug, Clone, Copy, PartialEq, Eq)]
pub struct TotalTime {
    pub on: i32,
    pub off: i32,
}

/// The downtime of one suburb over a week. `per_day_times` has an entry for
/// each day of the week, Monday first.
#[derive(Debug, Clone, PartialEq, Eq)]
pub struct SuburbStatsResponse {
    pub total_time: TotalTime,
    pub per_day_times: Vec<TotalTime>,
    pub suburb: SuburbEntity,
}

/// Minutes in a day.
pub const DAY_MINUTES: i32 = 1440;

/// Minutes in a week.
pub const WEEK_MINUTES: i32 = 10080;

/// Seconds in a week.
pub const WEEK_SECONDS: i64 = 604800;

/// Minutes that one step of the clock stands for.
pub const STEP_MINUTES: i32 = 30;

/// Steps of half an hour in a week: the walk goes from a week ago up to now,
/// and its last step begins half an hour before now.
pub const WEEK_STEPS: u32 = 336;

impl TotalTime {
    /// A day of minutes, all of them with power.
    pub fn new() -> (day: TotalTime)
        ensures
            day.on == DAY_MINUTES,
            day.off == 0,
    {
        TotalTime { on: 1440, off: 0 }
    }

    /// Moves `minutes` from the time with power to the time without.
    pub fn add_off_time(&mut self, minutes: i32)
        requires
            i32::MIN <= old(self).off + minutes <= i32::MAX,
            i32::MIN <= old(self).on - minutes <= i32::MAX,
        ensures
            final(self).off == old(self).off + minutes,
            final(self).on == old(self).on - minutes,
    {
        self.off += minutes;
        self.on -= minutes;
    }
}

/// The instant of step `step` of the walk that begins at `from`.
pub open spec fn step_instant(from: int, step: int) -> int {
    from + 1800 * step
}

/// The entry of the stage log in force at step `step`. The log stands newest
/// first and the walk begins at its oldest entry, the last one; at each step
/// the log moves on by at most one entry.
pub open spec fn stage_at_step(stages: Seq<LoadSheddingStage>, from: int, step: int) -> int
    decreases step,
{
    if step <= 0 {
        stage_at(stages, stages.len() - 1, from)
    } else {
        stage_at(stages, stage_at_step(stages, from, step - 1), step_instant(from, step))
    }
}

/// At step `step` some schedule applies to the group: the suburb is cut.
pub open spec fn cut_at_step(
    group: u128,
    stages: Seq<LoadSheddingStage>,
    schedules: Seq<TimeScheduleEntity>,
    from: int,
    step: int,
) -> bool {
    first_match(
        schedules,
        stages[stage_at_step(stages, from, step)].stage as int,
        group,
        step_instant(from, step),
    ).is_some()
}

/// How many of the first `steps` steps find the suburb cut.
pub open spec fn cut_steps(
    group: u128,
    stages: Seq<LoadSheddingStage>,
    schedules: Seq<TimeScheduleEntity>,
    from: int,
    steps: int,
) -> int
    decreases steps,
{
    if steps <= 0 {
        0
    } else {
        cut_steps(group, stages, schedules, from, steps - 1) + (if cut_at_step(
            group,
            stages,
            schedules,
            from,
            steps - 1,
        ) {
            1int
        } else {
            0int
        })
    }
}

/// How many of the first `steps` steps fall on the given day of the week.
pub open spec fn steps_on(from: int, weekday: int, steps: int) -> int
    decreases steps,
{
    if steps <= 0 {
        0
    } else {
        steps_on(from, weekday, steps - 1) + (if weekday_of(step_instant(from, steps - 1))
            == weekday {
            1int
        } else {
            0int
        })
    }
}

/// How many of the first `steps` steps fall on the given day of the week and
/// find the suburb cut.
pub open spec fn cut_steps_on(
    group: u128,
    stages: Seq<LoadSheddingStage>,
    schedules: Seq<TimeScheduleEntity>,
    from: int,
    weekday: int,
    steps: int,
) -> int
    decreases steps,
{
    if steps <= 0 {
        0
    } else {
        cut_steps_on(group, stages, schedules, from, weekday, steps - 1) + (if weekday_of(
            step_instant(from, steps - 1),
        ) == weekday && cut_at_step(group, stages, schedules, from, steps - 1) {
            1int
        } else {
            0int
        })
    }
}

/// All the minutes of the entries, with power and without.
pub open spec fn minutes_in(days: Seq<TotalTime>) -> int
    decreases days.len(),
{
    if days.len() == 0 {
        0
    } else {
        minutes_in(days.drop_last()) + days.last().on + days.last().off
    }
}

/// All the minutes without power of the entries.
pub open spec fn off_in(days: Seq<TotalTime>) -> int
    decreases days.len(),
{
    if days.len() == 0 {
        0
    } else {
        off_in(days.drop_last()) + days.last().off
    }
}

/// Changing one entry changes the sum of the minutes without power by what the entry gained.
proof fn lemma_off_in_update(days: Seq<TotalTime>, at: int, day: TotalTime)
    requires
        0 <= at < days.len(),
    ensures
        off_in(days.update(at, day)) == off_in(days) - days[at].off + day.off,
    decreases days.len(),
{
    let changed = days.update(at, day);
    if at == days.len() - 1 {
        assert(changed.drop_last() =~= days.drop_last());
    } else {
        assert(changed.drop_last() =~= days.drop_last().update(at, day));
        lemma_off_in_update(days.drop_last(), at, day);
    }
}

/// Changing one entry changes the sum of all minutes by what the entry gained.
proof fn lemma_minutes_in_update(days: Seq<TotalTime>, at: int, day: TotalTime)
    requires
        0 <= at < days.len(),
    ensures
        minutes_in(days.update(at, day)) == minutes_in(days) - days[at].on - days[at].off + day.on
            + day.off,
    decreases days.len(),
{
    let changed = days.update(at, day);
    if at == days.len() - 1 {
        assert(changed.drop_last() =~= days.drop_last());
    } else {
        assert(changed.drop_last() =~= days.drop_last().update(at, day));
        lemma_minutes_in_update(days.drop_last(), at, day);
    }
}

/// Seven empty entries hold no minutes.
proof fn lemma_minutes_in_empty_week(days: Seq<TotalTime>)
    requires
        days.len() <= 7,
        forall|d: int| 0 <= d < days.len() ==> (#[trigger] days[d]).on == 0 && days[d].off == 0,
    ensures
        minutes_in(days) == 0,
        off_in(days) == 0,
    decreases days.len(),
{
    if days.len() > 0 {
        lemma_minutes_in_empty_week(days.drop_last());
    }
}

/// How many of the half hours from `lo` up to `hi`, counted from a midnight,
/// lie in a day whose number, counted on from `base`, leaves `weekday` when
/// divided by 7.
spec fn half_hours_on(base: int, weekday: int, lo: int, hi: int) -> int
    decreases hi - lo,
{
    if hi <= lo {
        0
    } else {
        half_hours_on(base, weekday, lo, hi - 1) + (if (base + (hi - 1) / 48) % 7 == weekday {
            1int
        } else {
            0int
        })
    }
}

/// The local day of a step is the day of the first step and the days that
/// the half hours since its midnight have filled.
proof fn lemma_day_of_step(local: int, step: int)
    requires
        0 <= step,
    ensures
        (local + 1800 * step) / 86400 == local / 86400 + ((local % 86400) / 1800 + step) / 48,
{
    let second = local % 86400;
    let half_hour = second / 1800 + step;
    vstd::arithmetic::div_mod::lemma_fundamental_div_mod(local, 86400);
    vstd::arithmetic::div_mod::lemma_fundamental_div_mod(second, 1800);
    vstd::arithmetic::div_mod::lemma_fundamental_div_mod(half_hour, 48);
    let days = local / 86400 + half_hour / 48;
    let rest = 1800 * (half_hour % 48) + second % 1800;
    assert(local + 1800 * step == days * 86400 + rest);
    vstd::arithmetic::div_mod::lemma_fundamental_div_mod_converse(
        local + 1800 * step,
        86400,
        days,
        rest,
    );
}

/// The steps of the walk are half hours counted from the midnight before it.
proof fn lemma_steps_are_half_hours(from: int, weekday: int, steps: int)
    requires
        0 <= steps,
    ensures
        steps_on(from, weekday, steps) == half_hours_on(
            (from + 7200) / 86400 + 3,
            weekday,
            ((from + 7200) % 86400) / 1800,
            ((from + 7200) % 86400) / 1800 + steps,
        ),
    decreases steps,
{
    if steps > 0 {
        lemma_steps_are_half_hours(from, weekday, steps - 1);
        lemma_day_of_step(from + 7200, steps - 1);
        assert(step_instant(from, steps - 1) + 7200 == from + 7200 + 1800 * (steps - 1));
    }
}

/// Half hours are counted stretch by stretch.
proof fn lemma_half_hours_split(base: int, weekday: int, lo: int, mid: int, hi: int)
    requires
        lo <= mid <= hi,
    ensures
        half_hours_on(base, weekday, lo, hi) == half_hours_on(base, weekday, lo, mid)
            + half_hours_on(base, weekday, mid, hi),
    decreases hi - mid,
{
    if mid < hi {
        lemma_half_hours_split(base, weekday, lo, mid, hi - 1);
    }
}

/// The half hours of one day all count, or none of them does.
proof fn lemma_half_hours_of_a_day(base: int, weekday: int, day: int, lo: int, hi: int)
    requires
        48 * day <= lo <= hi <= 48 * day + 48,
    ensures
        half_hours_on(base, weekday, lo, hi) == (if (base + day) % 7 == weekday {
            hi - lo
        } else {
            0
        }),
    decreases hi - lo,
{
    if lo < hi {
        lemma_half_hours_of_a_day(base, weekday, day, lo, hi - 1);
        vstd::arithmetic::div_mod::lemma_fundamental_div_mod_converse(
            hi - 1,
            48,
            day,
            hi - 1 - 48 * day,
        );
    }
}

/// Whether the day `day`, counted on from `base`, falls on the weekday: 1 or 0.
spec fn falls_on(base: int, weekday: int, day: int) -> int {
    if (base + day) % 7 == weekday {
        1
    } else {
        0
    }
}

/// Of seven days in a row one falls on each weekday, and the eighth falls
/// where the first did.
proof fn lemma_one_day_in_seven(base: int, weekday: int)
    requires
        0 <= weekday < 7,
    ensures
        falls_on(base, weekday, 0) + falls_on(base, weekday, 1) + falls_on(base, weekday, 2)
            + falls_on(base, weekday, 3) + falls_on(base, weekday, 4) + falls_on(base, weekday, 5)
            + falls_on(base, weekday, 6) == 1,
        falls_on(base, weekday, 7) == falls_on(base, weekday, 0),
{
    let rest = base % 7;
    assert(0 <= rest < 7);
    lemma_day_in_week(base, 0);
    lemma_day_in_week(base, 1);
    lemma_day_in_week(base, 2);
    lemma_day_in_week(base, 3);
    lemma_day_in_week(base, 4);
    lemma_day_in_week(base, 5);
    lemma_day_in_week(base, 6);
    lemma_day_in_week(base, 7);
}

/// Whole weeks do not change the day of the week.
proof fn lemma_day_in_week(base: int, day: int)
    ensures
        (base + day) % 7 == (base % 7 + day) % 7,
{
    let rest = base % 7;
    vstd::arithmetic::div_mod::lemma_fundamental_div_mod(base, 7);
    vstd::arithmetic::div_mod::lemma_fundamental_div_mod(rest + day, 7);
    vstd::arithmetic::div_mod::lemma_fundamental_div_mod_converse(
        base + day,
        7,
        base / 7 + (rest + day) / 7,
        (rest + day) % 7,
    );
}

/// The half hours from `first` on the first day to `first` on the eighth,
/// counted day by day.
proof fn lemma_half_hours_of_a_week(base: int, weekday: int, first: int)
    requires
        0 <= first < 48,
    ensures
        half_hours_on(base, weekday, first, first + 336) == falls_on(base, weekday, 0) * (48
            - first) + 48 * (falls_on(base, weekday, 1) + falls_on(base, weekday, 2) + falls_on(
            base,
            weekday,
            3,
        ) + falls_on(base, weekday, 4) + falls_on(base, weekday, 5) + falls_on(base, weekday, 6))
            + falls_on(base, weekday, 7) * first,
{
    lemma_half_hours_split(base, weekday, first, 48, first + 336);
    lemma_half_hours_split(base, weekday, 48, 96, first + 336);
    lemma_half_hours_split(base, weekday, 96, 144, first + 336);
    lemma_half_hours_split(base, weekday, 144, 192, first + 336);
    lemma_half_hours_split(base, weekday, 192, 240, first + 336);
    lemma_half_hours_split(base, weekday, 240, 288, first + 336);
    lemma_half_hours_split(base, weekday, 288, 336, first + 336);
    lemma_half_hours_of_a_day(base, weekday, 0, first, 48);
    lemma_half_hours_of_a_day(base, weekday, 1, 48, 96);
    lemma_half_hours_of_a_day(base, weekday, 2, 96, 144);
    lemma_half_hours_of_a_day(base, weekday, 3, 144, 192);
    lemma_half_hours_of_a_day(base, weekday, 4, 192, 240);
    lemma_half_hours_of_a_day(base, weekday, 5, 240, 288);
    lemma_half_hours_of_a_day(base, weekday, 6, 288, 336);
    lemma_half_hours_of_a_day(base, weekday, 7, 336, first + 336);
}

/// A week of steps has 48 on each day of the week: a day of half hours.
pub proof fn lemma_week_of_steps(from: int, weekday: int)
    requires
        0 <= weekday < 7,
    ensures
        steps_on(from, weekday, WEEK_STEPS as int) == 48,
{
    let base = (from + 7200) / 86400 + 3;
    let first = ((from + 7200) % 86400) / 1800;
    lemma_steps_are_half_hours(from, weekday, 336);
    lemma_half_hours_of_a_week(base, weekday, first);
    lemma_one_day_in_seven(base, weekday);
    let on_first = falls_on(base, weekday, 0);
    let on_others = falls_on(base, weekday, 1) + falls_on(base, weekday, 2) + falls_on(
        base,
        weekday,
        3,
    ) + falls_on(base, weekday, 4) + falls_on(base, weekday, 5) + falls_on(base, weekday, 6);
    assert(on_first == 0 || on_first == 1);
    assert(on_first + on_others == 1);
    assert(on_first * (48 - first) + 48 * on_others + on_first * first == 48) by {
        if on_first == 1 {
            assert(on_others == 0);
        } else {
            assert(on_others == 1);
        }
    }
}

/// None of the first `steps` steps finds the suburb cut.
pub open spec fn never_cut(
    group: u128,
    stages: Seq<LoadSheddingStage>,
    schedules: Seq<TimeScheduleEntity>,
    from: int,
    steps: int,
) -> bool {
    forall|step: int|
        0 <= step < steps ==> !#[trigger] cut_at_step(group, stages, schedules, from, step)
}

/// No step is counted as cut exactly where no step finds the suburb cut.
pub proof fn lemma_never_cut(
    group: u128,
    stages: Seq<LoadSheddingStage>,
    schedules: Seq<TimeScheduleEntity>,
    from: int,
    steps: int,
)
    ensures
        0 <= cut_steps(group, stages, schedules, from, steps),
        cut_steps(group, stages, schedules, from, steps) == 0 <==> never_cut(
            group,
            stages,
            schedules,
            from,
            steps,
        ),
    decreases steps,
{
    if steps > 0 {
        lemma_never_cut(group, stages, schedules, from, steps - 1);
        if never_cut(group, stages, schedules, from, steps) {
            assert(!cut_at_step(group, stages, schedules, from, steps - 1));
        }
    }
}

impl SuburbStatsResponse {
    /// The name of the day of the week that entry `weekday` of `per_day_times` stands for.
    pub fn day_name(weekday: usize) -> (name: String)
        requires
            weekday < 7,
        ensures
            name@ == weekday_label(weekday as int),
    {
        clock::weekday_name(weekday as u8)
    }
}

impl SuburbEntity {
    /// The downtime of the suburb's group over the week that ends at `time`.
    ///
    /// The clock walks from a week before `time` up to `time` in steps of half
    /// an hour; no step begins at `time` itself. Each step counts half an hour
    /// for its day of the week: without power where a schedule applies, with
    /// power where none does.
    /// `all_stages` is the stage log from the entry in force a week before
    /// `time` on, newest first: the entry in force a week before `time` is
    /// its last. The walk takes it from that end.
    ///
    /// The total without power is what the steps count, and the total with
    /// power is the rest of a week of 10080 minutes. The days together hold
    /// exactly that week.
    pub fn get_total_time_down_stats(
        self,
        group: &GroupEntity,
        all_stages: &Vec<LoadSheddingStage>,
        schedule: &Vec<TimeScheduleEntity>,
        time: i64,
    ) -> (response: SuburbStatsResponse)
        requires
            valid_instant(time as int),
            valid_instant(time - WEEK_SECONDS),
            all_stages@.len() >= 1,
        ensures
            response.suburb == self,
            response.total_time.off == STEP_MINUTES * cut_steps(
                group.id,
                all_stages@,
                schedule@,
                time - WEEK_SECONDS,
                WEEK_STEPS as int,
            ),
            response.total_time.on == WEEK_MINUTES - response.total_time.off,
            response.total_time.on + response.total_time.off == WEEK_MINUTES,
            response.per_day_times@.len() == 7,
            forall|d: int|
                0 <= d < 7 ==> (#[trigger] response.per_day_times@[d]).off == STEP_MINUTES
                    * cut_steps_on(
                    group.id,
                    all_stages@,
                    schedule@,
                    time - WEEK_SECONDS,
                    d,
                    WEEK_STEPS as int,
                ),
            forall|d: int|
                0 <= d < 7 ==> (#[trigger] response.per_day_times@[d]).on == STEP_MINUTES * (
                steps_on(time - WEEK_SECONDS, d, WEEK_STEPS as int) - cut_steps_on(
                    group.id,
                    all_stages@,
                    schedule@,
                    time - WEEK_SECONDS,
                    d,
                    WEEK_STEPS as int,
                )),
            minutes_in(response.per_day_times@) == WEEK_MINUTES,
            forall|d: int|
                0 <= d < 7 ==> (#[trigger] response.per_day_times@[d]).on
                    + response.per_day_times@[d].off == DAY_MINUTES,
            0 <= response.total_time.off <= WEEK_MINUTES,
            0 <= response.total_time.on <= WEEK_MINUTES,
            forall|d: int|
                0 <= d < 7 ==> 0 <= (#[trigger] response.per_day_times@[d]).off && 0
                    <= response.per_day_times@[d].on,
            off_in(response.per_day_times@) == response.total_time.off,
            response.total_time.off == 0 <==> never_cut(
                group.id,
                all_stages@,
                schedule@,
                time - WEEK_SECONDS,
                WEEK_STEPS as int,
            ),
    {
        proof {
            assert forall|d: int| 0 <= d < 7 implies #[trigger] steps_on(
                time - WEEK_SECONDS,
                d,
                WEEK_STEPS as int,
            ) == 48 by {
                lemma_week_of_steps(time - WEEK_SECONDS, d);
            }
            lemma_never_cut(
                group.id,
                all_stages@,
                schedule@,
                time - WEEK_SECONDS,
                WEEK_STEPS as int,
            );
        }
        let one_week_ago: i64 = time - WEEK_SECONDS;
        let ghost from: int = one_week_ago as int;
        let entries: usize = all_stages.len();
        let mut daily_stats: Vec<TotalTime> = Vec::new();
        let mut weekday: usize = 0;
        while weekday < 7
            invariant
                weekday <= 7,
                daily_stats@.len() == weekday,
                forall|d: int|
                    0 <= d < weekday ==> (#[trigger] daily_stats@[d]).on == 0 && daily_stats@[d].off
                        == 0,
            decreases 7 - weekday,
        {
            daily_stats.push(TotalTime { on: 0, off: 0 });
            weekday += 1;
        }
        proof {
            lemma_minutes_in_empty_week(daily_stats@);
        }
        let mut down_time: i32 = 0;
        let mut current: usize = entries - 1;
        let mut step: u32 = 0;
        let mut time_to_search: i64 = one_week_ago;
        while step < WEEK_STEPS
            invariant
                step <= WEEK_STEPS,
                from == time - WEEK_SECONDS,
                time_to_search as int == step_instant(from, step as int),
                valid_instant(time as int),
                valid_instant(from),
                entries == all_stages@.len(),
                current < entries,
                step > 0 ==> current as int == stage_at_step(all_stages@, from, step - 1),
                step == 0 ==> current == entries - 1,
                down_time == STEP_MINUTES * cut_steps(
                    group.id,
                    all_stages@,
                    schedule@,
                    from,
                    step as int,
                ),
                0 <= down_time <= STEP_MINUTES * step,
                daily_stats@.len() == 7,
                forall|d: int|
                    0 <= d < 7 ==> (#[trigger] daily_stats@[d]).off == STEP_MINUTES * cut_steps_on(
                        group.id,
                        all_stages@,
                        schedule@,
                        from,
                        d,
                        step as int,
                    ),
                forall|d: int|
                    0 <= d < 7 ==> (#[trigger] daily_stats@[d]).on == STEP_MINUTES * (steps_on(
                        from,
                        d,
                        step as int,
                    ) - cut_steps_on(group.id, all_stages@, schedule@, from, d, step as int)),
                forall|d: int|
                    0 <= d < 7 ==> 0 <= (#[trigger] daily_stats@[d]).off <= STEP_MINUTES * step
                        && 0 <= daily_stats@[d].on <= STEP_MINUTES * step,
                minutes_in(daily_stats@) == STEP_MINUTES * step,
                off_in(daily_stats@) == down_time,
            decreases WEEK_STEPS - step,
        {
            if current > 0 && all_stages[current - 1].start_time <= time_to_search {
                current -= 1;
            }
            let add_time = self.add_time_checker(
                &all_stages[current],
                schedule,
                group,
                time_to_search,
            );
            let day: usize = clock::weekday(time_to_search) as usize;
            let mut bucket: TotalTime = daily_stats[day];
            bucket.on += STEP_MINUTES;
            if add_time.is_some() {
                down_time += STEP_MINUTES;
                bucket.add_off_time(STEP_MINUTES);
            }
            proof {
                lemma_minutes_in_update(daily_stats@, day as int, bucket);
                lemma_off_in_update(daily_stats@, day as int, bucket);
            }
            daily_stats.set(day, bucket);
            step += 1;
            time_to_search = time_to_search + 1800;
        }
        SuburbStatsResponse {
            total_time: TotalTime { on: WEEK_MINUTES - down_time, off: down_time },
            per_day_times: daily_stats,
            suburb: self,
        }
    }
}

} // verus!
