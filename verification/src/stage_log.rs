//! The stage log: which stage was in force during which interval of time, how
//! a feed of intervals is taken into it, and which stage is in force now.

use crate::text::{characters, integer, parse_integer};
use chrono::NaiveDateTime;
use vstd::prelude::*;

verus! {

/// One entry of the stage log: `stage` was in force during `[start_time, end_time)`.
/// An entry that has not been stored yet has no `id`.
#[derive(Debug, Clone, Copy, PartialEq, Eq)]
pub struct LoadSheddingStage {
    pub id: Option<u128>,
    pub start_time: i64,
    pub end_time: i64,
    pub stage: i32,
}

/// An instant as the feed gives it.
#[derive(Debug, Clone, Copy, PartialEq, Eq)]
pub struct SASTDateTime(pub i64);

/// One interval of the feed: `stage` is in force during `[start, end)`.
#[derive(Debug, Clone, Copy, PartialEq, Eq)]
pub struct LoadsheddingData {
    pub start: SASTDateTime,
    pub end: SASTDateTime,
    pub stage: i32,
}

/// What taking one interval of the feed into the log did to the log.
#[derive(Debug, PartialEq, Eq)]
pub enum StageLogChange {
    /// The log held the interval already, with the same stage.
    Unchanged,
    /// The log held the interval with another stage: this entry, which now has the stage of the feed.
    Restaged { entry: LoadSheddingStage },
    /// The log did not hold the interval: these entries overlapped it and
    /// left the log, and the interval was added as a new entry.
    Replaced { removed: Vec<LoadSheddingStage> },
}

/// One interval as the feed writes it: three texts.
#[derive(Debug, Clone, PartialEq, Eq)]
pub struct FeedEntry {
    pub start: String,
    pub end: String,
    pub stage: String,
}

/// Keeps the stage log up to date from the feed, and with it the stage that
/// is in force now, for others to read.
#[derive(Debug, Clone, Copy)]
pub struct StageUpdater;

/// How an attempt to fetch the feed ended.
#[derive(Debug, Clone, Copy, PartialEq, Eq, Structural)]
pub enum FeedOutcome {
    /// The source of the feed could not be reached.
    Unreachable,
    /// The source answered, but not with the feed.
    Refused,
    /// The source sent a feed that cannot be read.
    Unreadable,
    /// The source sent a feed that can be read.
    Read,
}

/// What the updater does after an attempt to fetch the feed.
#[derive(Debug, Clone, Copy, PartialEq, Eq, Structural)]
pub enum UpdaterStep {
    /// Take the feed into the log, then wait this many seconds for the next fetch.
    TakeIn { wait: u64 },
    /// Fetch again after this many seconds.
    Retry { wait: u64 },
    /// Leave the log as it is and wait this many seconds for the next fetch.
    Skip { wait: u64 },
}

/// Seconds between two fetches of the feed.
pub const FEED_PERIOD: u64 = 18000;

/// Seconds between two readings of the stage in force from the log.
pub const STAGE_PERIOD: u64 = 1600;

/// Seconds before the feed is fetched again after its source refused.
pub const RETRY_PERIOD: u64 = 10;

/// The entry that is in force at `clock`, given the one in force before.
///
/// The entries stand newest first, so the one that follows in time stands one
/// position lower: it takes over once its start has been reached.
pub open spec fn stage_at(stages: Seq<LoadSheddingStage>, current: int, clock: int) -> int {
    if 0 < current && stages[current - 1].start_time <= clock {
        current - 1
    } else {
        current
    }
}

impl LoadSheddingStage {
    /// The entry lasts exactly from `start` to `end`.
    pub open spec fn spans(&self, start: int, end: int) -> bool {
        self.start_time == start && self.end_time == end
    }

    /// The entry and `[start, end)` have an instant in common.
    pub open spec fn overlaps(&self, start: int, end: int) -> bool {
        self.start_time < end && self.end_time > start
    }

    /// The entry and `[start, end)` have an instant in common, or the entry
    /// lasts exactly from `start` to `end`.
    pub open spec fn meets(&self, start: int, end: int) -> bool {
        self.overlaps(start, end) || self.spans(start, end)
    }

    /// This entry, given the interval and the stage of another and keeping its own `id`.
    pub open spec fn following(&self, entry: LoadSheddingStage) -> LoadSheddingStage {
        LoadSheddingStage {
            id: self.id,
            start_time: entry.start_time,
            end_time: entry.end_time,
            stage: entry.stage,
        }
    }

    /// The entry with another stage.
    pub open spec fn restaged(&self, stage: i32) -> LoadSheddingStage {
        LoadSheddingStage {
            id: self.id,
            start_time: self.start_time,
            end_time: self.end_time,
            stage,
        }
    }
}

impl LoadsheddingData {
    /// The interval as an entry that has not been stored yet.
    pub open spec fn as_entry(&self) -> LoadSheddingStage {
        LoadSheddingStage {
            id: None,
            start_time: self.start.0,
            end_time: self.end.0,
            stage: self.stage,
        }
    }

    /// The interval as an entry that has not been stored yet.
    pub fn convert_to_loadsheddingstage(&self) -> (entry: LoadSheddingStage)
        ensures
            entry == self.as_entry(),
    {
        LoadSheddingStage {
            id: None,
            start_time: self.start.0,
            end_time: self.end.0,
            stage: self.stage,
        }
    }
}

/// The first entry at or after position `from` that lasts exactly from `start` to `end`.
pub open spec fn first_spanning_from(
    log: Seq<LoadSheddingStage>,
    start: int,
    end: int,
    from: int,
) -> Option<int>
    decreases log.len() - from,
{
    if from < 0 || from >= log.len() {
        None
    } else if log[from].spans(start, end) {
        Some(from)
    } else {
        first_spanning_from(log, start, end, from + 1)
    }
}

/// The first entry that lasts exactly from `start` to `end`.
pub open spec fn first_spanning(log: Seq<LoadSheddingStage>, start: int, end: int) -> Option<int> {
    first_spanning_from(log, start, end, 0)
}

/// The entries that have no instant in common with `[start, end)`, in their order.
pub open spec fn clear_of(log: Seq<LoadSheddingStage>, start: int, end: int) -> Seq<
    LoadSheddingStage,
>
    decreases log.len(),
{
    if log.len() == 0 {
        Seq::empty()
    } else if log.last().overlaps(start, end) {
        clear_of(log.drop_last(), start, end)
    } else {
        clear_of(log.drop_last(), start, end).push(log.last())
    }
}

/// The entries that have an instant in common with `[start, end)`, in their order.
pub open spec fn overlapping(log: Seq<LoadSheddingStage>, start: int, end: int) -> Seq<
    LoadSheddingStage,
>
    decreases log.len(),
{
    if log.len() == 0 {
        Seq::empty()
    } else if log.last().overlaps(start, end) {
        overlapping(log.drop_last(), start, end).push(log.last())
    } else {
        overlapping(log.drop_last(), start, end)
    }
}

/// The log after one interval of the feed has been taken in.
///
/// Where an entry lasts exactly as long as the interval, the first such entry
/// gets the stage of the feed and nothing else changes. Otherwise every entry
/// that overlaps the interval leaves, and the interval joins at the end.
pub open spec fn reconciled(log: Seq<LoadSheddingStage>, data: LoadsheddingData) -> Seq<
    LoadSheddingStage,
> {
    match first_spanning(log, data.start.0 as int, data.end.0 as int) {
        Some(at) => log.update(at, log[at].restaged(data.stage)),
        None => clear_of(log, data.start.0 as int, data.end.0 as int).push(data.as_entry()),
    }
}

/// The log after the intervals of the feed have been taken in, first to last.
pub open spec fn reconciled_all(log: Seq<LoadSheddingStage>, feed: Seq<LoadsheddingData>) -> Seq<
    LoadSheddingStage,
>
    decreases feed.len(),
{
    if feed.len() == 0 {
        log
    } else {
        reconciled(reconciled_all(log, feed.drop_last()), feed.last())
    }
}

/// What the change says is what taking `data` into `log` did.
pub open spec fn records(change: StageLogChange, log: Seq<LoadSheddingStage>, data: LoadsheddingData) -> bool {
    match first_spanning(log, data.start.0 as int, data.end.0 as int) {
        Some(at) => if log[at].stage == data.stage {
            change is Unchanged
        } else {
            change == (StageLogChange::Restaged { entry: log[at].restaged(data.stage) })
        },
        None => change matches StageLogChange::Replaced { removed } && removed@ == overlapping(
            log,
            data.start.0 as int,
            data.end.0 as int,
        ),
    }
}

/// The position of the entry in force at `now`: the first among those that
/// start latest without starting after `now`.
pub open spec fn in_force(log: Seq<LoadSheddingStage>, now: int, at: int) -> bool {
    &&& 0 <= at < log.len()
    &&& log[at].start_time <= now
    &&& forall|j: int|
        0 <= j < log.len() && (#[trigger] log[j]).start_time <= now ==> log[j].start_time
            <= log[at].start_time
    &&& forall|j: int| 0 <= j < at ==> (#[trigger] log[j]).start_time != log[at].start_time
}

/// No entry has started by `now`.
pub open spec fn none_in_force(log: Seq<LoadSheddingStage>, now: int) -> bool {
    forall|j: int| 0 <= j < log.len() ==> (#[trigger] log[j]).start_time > now
}

/// A first spanning entry from `from` is the first position from there on that spans.
pub proof fn lemma_first_spanning_from(log: Seq<LoadSheddingStage>, start: int, end: int, from: int)
    requires
        0 <= from <= log.len(),
    ensures
        match first_spanning_from(log, start, end, from) {
            Some(at) => from <= at < log.len() && log[at].spans(start, end) && forall|j: int|
                from <= j < at ==> !(#[trigger] log[j]).spans(start, end),
            None => forall|j: int| from <= j < log.len() ==> !(#[trigger] log[j]).spans(start, end),
        },
    decreases log.len() - from,
{
    if from < log.len() && !log[from].spans(start, end) {
        lemma_first_spanning_from(log, start, end, from + 1);
    }
}

/// The position of the entry in force at `now`, if any entry has started by then.
pub fn current_entry(log: &Vec<LoadSheddingStage>, now: i64) -> (found: Option<usize>)
    ensures
        match found {
            Some(at) => in_force(log@, now as int, at as int),
            None => none_in_force(log@, now as int),
        },
{
    let mut found: Option<usize> = None;
    let mut i: usize = 0;
    while i < log.len()
        invariant
            i <= log@.len(),
            match found {
                Some(at) => in_force(log@.take(i as int), now as int, at as int),
                None => none_in_force(log@.take(i as int), now as int),
            },
        decreases log@.len() - i,
    {
        let ghost seen = log@.take(i as int);
        let ghost next = log@.take(i + 1);
        assert(forall|j: int| 0 <= j < i ==> seen[j] == next[j]);
        if log[i].start_time <= now {
            let later = match found {
                Some(at) => log[at].start_time < log[i].start_time,
                None => true,
            };
            if later {
                found = Some(i);
            }
        }
        i += 1;
    }
    assert(log@.take(log@.len() as int) =~= log@);
    found
}

impl LoadSheddingStage {
    /// Takes one interval of the feed into the log and says what that did.
    pub fn update_db_with_changes(log: &mut Vec<LoadSheddingStage>, new_data: &LoadsheddingData) -> (change:
        StageLogChange)
        ensures
            final(log)@ == reconciled(old(log)@, *new_data),
            records(change, old(log)@, *new_data),
    {
        let start: i64 = new_data.start.0;
        let end: i64 = new_data.end.0;
        let mut i: usize = 0;
        while i < log.len()
            invariant
                i <= log@.len(),
                log@ == old(log)@,
                start == new_data.start.0,
                end == new_data.end.0,
                first_spanning(log@, start as int, end as int) == first_spanning_from(
                    log@,
                    start as int,
                    end as int,
                    i as int,
                ),
            decreases log@.len() - i,
        {
            if log[i].start_time == start && log[i].end_time == end {
                let stored: LoadSheddingStage = log[i];
                assert(log@[i as int].spans(start as int, end as int));
                assert(first_spanning(log@, start as int, end as int) == Some(i as int));
                if stored.stage == new_data.stage {
                    assert(log@[i as int].restaged(new_data.stage) == log@[i as int]);
                    assert(log@ =~= log@.update(i as int, log@[i as int].restaged(new_data.stage)));
                    return StageLogChange::Unchanged;
                }
                let entry = LoadSheddingStage {
                    id: stored.id,
                    start_time: stored.start_time,
                    end_time: stored.end_time,
                    stage: new_data.stage,
                };
                log.set(i, entry);
                return StageLogChange::Restaged { entry };
            }
            i += 1;
        }
        let mut kept: Vec<LoadSheddingStage> = Vec::new();
        let mut removed: Vec<LoadSheddingStage> = Vec::new();
        let mut k: usize = 0;
        while k < log.len()
            invariant
                k <= log@.len(),
                log@ == old(log)@,
                kept@ == clear_of(log@.take(k as int), start as int, end as int),
                removed@ == overlapping(log@.take(k as int), start as int, end as int),
            decreases log@.len() - k,
        {
            assert(log@.take(k + 1).drop_last() =~= log@.take(k as int));
            if log[k].start_time < end && log[k].end_time > start {
                removed.push(log[k]);
            } else {
                kept.push(log[k]);
            }
            k += 1;
        }
        assert(log@.take(log@.len() as int) =~= log@);
        kept.push(new_data.convert_to_loadsheddingstage());
        *log = kept;
        StageLogChange::Replaced { removed }
    }
}

impl LoadSheddingStage {
    /// Makes this the entry that is in force at `now`, keeping its own `id`.
    /// Where no entry of the log has started by `now`, nothing changes.
    pub fn set_stage(&mut self, log: &Vec<LoadSheddingStage>, now: i64) -> (found: bool)
        ensures
            found ==> exists|at: int|
                in_force(log@, now as int, at) && *final(self) == old(self).following(
                    #[trigger] log@[at],
                ),
            !found ==> none_in_force(log@, now as int) && *final(self) == *old(self),
    {
        match current_entry(log, now) {
            Some(at) => {
                let new_status: LoadSheddingStage = log[at];
                self.end_time = new_status.end_time;
                self.start_time = new_status.start_time;
                self.stage = new_status.stage;
                assert(*self == old(self).following(log@[at as int]));
                true
            },
            None => false,
        }
    }

    /// Takes the intervals of a feed into the log, first to last, then makes
    /// this the entry that is in force at `now`. Says what each interval did.
    pub fn log_stage_data(
        &mut self,
        log: &mut Vec<LoadSheddingStage>,
        times: &Vec<LoadsheddingData>,
        now: i64,
    ) -> (changes: Vec<StageLogChange>)
        ensures
            final(log)@ == reconciled_all(old(log)@, times@),
            changes@.len() == times@.len(),
            forall|i: int|
                0 <= i < times@.len() ==> records(
                    #[trigger] changes@[i],
                    reconciled_all(old(log)@, times@.take(i)),
                    times@[i],
                ),
            none_in_force(final(log)@, now as int) ==> *final(self) == *old(self),
            !none_in_force(final(log)@, now as int) ==> exists|at: int|
                in_force(final(log)@, now as int, at) && *final(self) == old(self).following(
                    #[trigger] final(log)@[at],
                ),
    {
        let mut changes: Vec<StageLogChange> = Vec::new();
        let mut i: usize = 0;
        while i < times.len()
            invariant
                i <= times@.len(),
                log@ == reconciled_all(old(log)@, times@.take(i as int)),
                changes@.len() == i,
                forall|k: int|
                    0 <= k < i ==> records(
                        #[trigger] changes@[k],
                        reconciled_all(old(log)@, times@.take(k)),
                        times@[k],
                    ),
            decreases times@.len() - i,
        {
            assert(times@.take(i + 1).drop_last() =~= times@.take(i as int));
            let change = LoadSheddingStage::update_db_with_changes(log, &times[i]);
            changes.push(change);
            i += 1;
        }
        assert(times@.take(times@.len() as int) =~= times@);
        let found = self.set_stage(log, now);
        proof {
            if found {
                let at = choose|at: int|
                    in_force(log@, now as int, at) && *self == old(self).following(
                        #[trigger] log@[at],
                    );
                assert(!none_in_force(log@, now as int));
            }
        }
        changes
    }
}

impl StageUpdater {
    /// The stage that is published before the log has been read: stage 0,
    /// in force during no time at all.
    pub fn initial_stage() -> (stage: LoadSheddingStage)
        ensures
            stage == (LoadSheddingStage { id: None, start_time: 0, end_time: 0, stage: 0 }),
    {
        LoadSheddingStage { id: None, start_time: 0, end_time: 0, stage: 0 }
    }
}

/// What an entry says, whatever its `id`: its start, its end and its stage.
pub open spec fn content(entry: LoadSheddingStage) -> (int, int, int) {
    (entry.start_time as int, entry.end_time as int, entry.stage as int)
}

/// All that the entries of the log say.
pub open spec fn contents(log: Seq<LoadSheddingStage>) -> Set<(int, int, int)> {
    Set::new(|said: (int, int, int)| exists|i: int| 0 <= i < log.len() && content(#[trigger] log[i]) == said)
}

/// No two entries of the log have an instant in common, and no two last from
/// the same start to the same end.
pub open spec fn disjoint(log: Seq<LoadSheddingStage>) -> bool {
    forall|i: int, j: int|
        0 <= i < log.len() && 0 <= j < log.len() && i != j ==> !(#[trigger] log[i]).meets(
            (#[trigger] log[j]).start_time as int,
            log[j].end_time as int,
        )
}

/// What is said has an instant in common with the interval, or is said of
/// exactly that interval.
spec fn touches(one: (int, int, int), data: LoadsheddingData) -> bool {
    (one.0 < data.end.0 && one.1 > data.start.0) || (one.0 == data.start.0 && one.1
        == data.end.0)
}

/// What a log says after one interval has been taken in, given what it said
/// before: all that the interval did not touch, and the interval.
spec fn taken(said: Set<(int, int, int)>, data: LoadsheddingData) -> Set<(int, int, int)> {
    Set::new(
        |one: (int, int, int)|
            (said.contains(one) && !touches(one, data)) || one == content(data.as_entry()),
    )
}

spec fn taken_all(said: Set<(int, int, int)>, feed: Seq<LoadsheddingData>) -> Set<(int, int, int)>
    decreases feed.len(),
{
    if feed.len() == 0 {
        said
    } else {
        taken(taken_all(said, feed.drop_last()), feed.last())
    }
}

/// No interval of the feed touches what is said.
spec fn untouched(one: (int, int, int), feed: Seq<LoadsheddingData>) -> bool {
    forall|k: int| 0 <= k < feed.len() ==> !touches(one, #[trigger] feed[k])
}

proof fn lemma_clear_of(log: Seq<LoadSheddingStage>, start: int, end: int)
    ensures
        forall|p: int|
            0 <= p < clear_of(log, start, end).len() ==> !(#[trigger] clear_of(
                log,
                start,
                end,
            )[p]).overlaps(start, end) && exists|j: int|
                0 <= j < log.len() && #[trigger] log[j] == clear_of(log, start, end)[p],
        forall|j: int|
            0 <= j < log.len() && !(#[trigger] log[j]).overlaps(start, end) ==> exists|p: int|
                0 <= p < clear_of(log, start, end).len() && #[trigger] clear_of(log, start, end)[p]
                    == log[j],
        disjoint(log) ==> disjoint(clear_of(log, start, end)),
    decreases log.len(),
{
    if log.len() > 0 {
        let front = log.drop_last();
        lemma_clear_of(front, start, end);
        let before = clear_of(front, start, end);
        let now = clear_of(log, start, end);
        assert forall|p: int| 0 <= p < now.len() implies !(#[trigger] now[p]).overlaps(start, end)
            && exists|j: int| 0 <= j < log.len() && #[trigger] log[j] == now[p] by {
            if p < before.len() {
                assert(now[p] == before[p]);
                let j = choose|j: int| 0 <= j < front.len() && #[trigger] front[j] == before[p];
                assert(log[j] == now[p]);
            } else {
                assert(log[log.len() - 1] == now[p]);
            }
        }
        assert forall|j: int|
            0 <= j < log.len() && !(#[trigger] log[j]).overlaps(start, end) implies exists|p: int|
            0 <= p < now.len() && #[trigger] now[p] == log[j] by {
            if j < front.len() {
                assert(front[j] == log[j]);
                let p = choose|p: int| 0 <= p < before.len() && #[trigger] before[p] == front[j];
                assert(now[p] == log[j]);
            } else {
                assert(now[now.len() - 1] == log[j]);
            }
        }
        if disjoint(log) {
            assert(disjoint(front)) by {
                assert forall|i: int, j: int|
                    0 <= i < front.len() && 0 <= j < front.len() && i != j implies !(
                #[trigger] front[i]).meets(
                    (#[trigger] front[j]).start_time as int,
                    front[j].end_time as int,
                ) by {
                    assert(front[i] == log[i] && front[j] == log[j]);
                }
            }
            assert forall|i: int, j: int|
                0 <= i < now.len() && 0 <= j < now.len() && i != j implies !(
            #[trigger] now[i]).meets((#[trigger] now[j]).start_time as int, now[j].end_time as int) by {
                if i < before.len() && j < before.len() {
                    assert(now[i] == before[i] && now[j] == before[j]);
                } else if i < before.len() {
                    assert(now[i] == before[i]);
                    let a = choose|a: int| 0 <= a < front.len() && #[trigger] front[a] == before[i];
                    assert(log[a] == now[i]);
                    assert(log[log.len() - 1] == now[j]);
                } else {
                    assert(now[j] == before[j]);
                    let a = choose|a: int| 0 <= a < front.len() && #[trigger] front[a] == before[j];
                    assert(log[a] == now[j]);
                    assert(log[log.len() - 1] == now[i]);
                }
            }
        }
    }
}

/// Taking one interval into a log whose entries are disjoint leaves such a
/// log, and what it says is what `taken` gives.
proof fn lemma_reconciled(log: Seq<LoadSheddingStage>, data: LoadsheddingData)
    requires
        disjoint(log),
    ensures
        disjoint(reconciled(log, data)),
        contents(reconciled(log, data)) =~= taken(contents(log), data),
{
    let start = data.start.0 as int;
    let end = data.end.0 as int;
    let after = reconciled(log, data);
    let said = content(data.as_entry());
    lemma_first_spanning_from(log, start, end, 0);
    match first_spanning(log, start, end) {
        Some(at) => {
            assert(content(after[at]) == said);
            assert forall|one: (int, int, int)| contents(after).contains(one) implies taken(
                contents(log),
                data,
            ).contains(one) by {
                let i = choose|i: int| 0 <= i < after.len() && content(#[trigger] after[i]) == one;
                if i != at {
                    assert(after[i] == log[i]);
                    assert(!log[i].meets(log[at].start_time as int, log[at].end_time as int));
                }
            }
            assert forall|one: (int, int, int)| taken(contents(log), data).contains(
                one,
            ) implies contents(after).contains(one) by {
                if one != said {
                    let i = choose|i: int| 0 <= i < log.len() && content(#[trigger] log[i]) == one;
                    assert(i != at);
                    assert(content(after[i]) == one);
                }
            }
            assert forall|i: int, j: int|
                0 <= i < after.len() && 0 <= j < after.len() && i != j implies !(
            #[trigger] after[i]).meets(
                (#[trigger] after[j]).start_time as int,
                after[j].end_time as int,
            ) by {
                assert(!log[i].meets(log[j].start_time as int, log[j].end_time as int));
            }
        },
        None => {
            lemma_clear_of(log, start, end);
            let kept = clear_of(log, start, end);
            assert(after[after.len() - 1] == data.as_entry());
            assert forall|one: (int, int, int)| contents(after).contains(one) implies taken(
                contents(log),
                data,
            ).contains(one) by {
                let i = choose|i: int| 0 <= i < after.len() && content(#[trigger] after[i]) == one;
                if i < kept.len() {
                    assert(after[i] == kept[i]);
                    let j = choose|j: int| 0 <= j < log.len() && #[trigger] log[j] == kept[i];
                    assert(content(log[j]) == one);
                }
            }
            assert forall|one: (int, int, int)| taken(contents(log), data).contains(
                one,
            ) implies contents(after).contains(one) by {
                if one != said {
                    let j = choose|j: int| 0 <= j < log.len() && content(#[trigger] log[j]) == one;
                    assert(!log[j].overlaps(start, end));
                    let p = choose|p: int| 0 <= p < kept.len() && #[trigger] kept[p] == log[j];
                    assert(content(after[p]) == one);
                } else {
                    assert(content(after[after.len() - 1]) == one);
                }
            }
            assert forall|i: int, j: int|
                0 <= i < after.len() && 0 <= j < after.len() && i != j implies !(
            #[trigger] after[i]).meets(
                (#[trigger] after[j]).start_time as int,
                after[j].end_time as int,
            ) by {
                if i < kept.len() && j < kept.len() {
                    assert(after[i] == kept[i] && after[j] == kept[j]);
                } else if i < kept.len() {
                    assert(after[i] == kept[i]);
                } else {
                    assert(after[j] == kept[j]);
                }
            }
        },
    }
}

proof fn lemma_reconciled_all(log: Seq<LoadSheddingStage>, feed: Seq<LoadsheddingData>)
    requires
        disjoint(log),
    ensures
        disjoint(reconciled_all(log, feed)),
        contents(reconciled_all(log, feed)) =~= taken_all(contents(log), feed),
    decreases feed.len(),
{
    if feed.len() > 0 {
        let front = feed.drop_last();
        lemma_reconciled_all(log, front);
        lemma_reconciled(reconciled_all(log, front), feed.last());
    }
}

/// What a log says after a feed is what it said before and no interval of the
/// feed touched, together with what the feed alone leaves.
proof fn lemma_taken_all(said: Set<(int, int, int)>, feed: Seq<LoadsheddingData>)
    ensures
        forall|one: (int, int, int)|
            #![trigger taken_all(said, feed).contains(one)]
            taken_all(said, feed).contains(one) <==> (said.contains(one) && untouched(one, feed))
                || taken_all(Set::empty(), feed).contains(one),
    decreases feed.len(),
{
    if feed.len() > 0 {
        let front = feed.drop_last();
        lemma_taken_all(said, front);
        assert forall|one: (int, int, int)|
            #![trigger taken_all(said, feed).contains(one)]
            taken_all(said, feed).contains(one) <==> (said.contains(one) && untouched(one, feed))
                || taken_all(Set::empty(), feed).contains(one) by {
            assert(taken_all(said, front).contains(one) <==> (said.contains(one) && untouched(
                one,
                front,
            )) || taken_all(Set::empty(), front).contains(one));
            let clear = !touches(one, feed.last());
            assert(untouched(one, feed) <==> untouched(one, front) && clear) by {
                if untouched(one, feed) {
                    assert forall|k: int| 0 <= k < front.len() implies !touches(
                        one,
                        #[trigger] front[k],
                    ) by {
                        assert(front[k] == feed[k]);
                    }
                    assert(feed[feed.len() - 1] == feed.last());
                }
                if untouched(one, front) && clear {
                    assert forall|k: int| 0 <= k < feed.len() implies !touches(
                        one,
                        #[trigger] feed[k],
                    ) by {
                        if k < front.len() {
                            assert(front[k] == feed[k]);
                        }
                    }
                }
            }
        }
    }
}

/// Taking a feed in twice leaves the log saying what it said after the first
/// time: the same intervals with the same stages. This holds of every feed,
/// and of a log in which no two entries overlap or last from the same start
/// to the same end; taking a feed in leaves the log so.
pub proof fn lemma_reconcile_twice(log: Seq<LoadSheddingStage>, feed: Seq<LoadsheddingData>)
    requires
        disjoint(log),
    ensures
        contents(reconciled_all(reconciled_all(log, feed), feed)) == contents(
            reconciled_all(log, feed),
        ),
        disjoint(reconciled_all(log, feed)),
{
    let once = reconciled_all(log, feed);
    lemma_reconciled_all(log, feed);
    lemma_reconciled_all(once, feed);
    lemma_taken_all(contents(log), feed);
    lemma_taken_all(contents(once), feed);
    let before = contents(log);
    let said = contents(once);
    let alone = taken_all(Set::empty(), feed);
    assert(said == taken_all(before, feed));
    assert forall|one: (int, int, int)| taken_all(said, feed).contains(one) <==> said.contains(
        one,
    ) by {
        assert(taken_all(said, feed).contains(one) <==> (said.contains(one) && untouched(one, feed))
            || alone.contains(one));
        assert(taken_all(before, feed).contains(one) <==> (before.contains(one) && untouched(
            one,
            feed,
        )) || alone.contains(one));
    }
    assert(contents(reconciled_all(once, feed)) =~= said);
}

/// How the feed writes an instant: local date and time of day, to the minute.
pub const FEED_FORMAT: &'static str = "%Y-%m-%dT%H:%M";

/// The seconds from the epoch to the date and time that a text writes in a
/// format of chrono's, read as if it were UTC; nothing where the text is not
/// in the format.
pub uninterp spec fn written_seconds(text: Seq<char>, format: Seq<char>) -> Option<i64>;

/// The seconds from the epoch to the date and time that a text of the feed
/// writes, read as if it were UTC.
pub open spec fn feed_seconds(text: Seq<char>) -> Option<i64> {
    written_seconds(text, FEED_FORMAT@)
}

/// `NaiveDateTime::parse_from_str` of chrono, and the `timestamp` of what it
/// returns, taken as UTC. Claims only that the answer depends on text and
/// format alone.
#[verifier::external_body]
fn naive_seconds(text: &str, format: &str) -> (seconds: Option<i64>)
    ensures
        seconds == written_seconds(text@, format@),
{
    match NaiveDateTime::parse_from_str(text, format) {
        Ok(written) => Some(written.and_utc().timestamp()),
        Err(_) => None,
    }
}

impl SASTDateTime {
    /// The instant that a text of the feed writes. The feed writes South
    /// African time, which is two hours ahead of UTC.
    pub open spec fn written(text: Seq<char>) -> Option<SASTDateTime> {
        match feed_seconds(text) {
            Some(seconds) => if seconds - 7200 >= i64::MIN {
                Some(SASTDateTime((seconds - 7200) as i64))
            } else {
                None
            },
            None => None,
        }
    }

    /// Reads an instant of the feed, such as `2023-09-14T05:00`.
    pub fn parse(text: &str) -> (instant: Option<SASTDateTime>)
        ensures
            instant == SASTDateTime::written(text@),
    {
        match naive_seconds(text, FEED_FORMAT) {
            Some(seconds) => match seconds.checked_sub(7200) {
                Some(instant) => Some(SASTDateTime(instant)),
                None => None,
            },
            None => None,
        }
    }
}

impl LoadsheddingData {
    /// The interval that three texts of the feed write: its start, its end
    /// and its stage, the stage as an integer in decimal digits.
    pub open spec fn written(start: Seq<char>, end: Seq<char>, stage: Seq<char>) -> Option<
        LoadsheddingData,
    > {
        match (SASTDateTime::written(start), SASTDateTime::written(end), integer(stage)) {
            (Some(start), Some(end), Some(stage)) => Some(LoadsheddingData { start, end, stage }),
            _ => None,
        }
    }

    /// Reads one interval of the feed.
    pub fn from_feed(start: &str, end: &str, stage: &str) -> (data: Option<LoadsheddingData>)
        ensures
            data == LoadsheddingData::written(start@, end@, stage@),
    {
        let start = SASTDateTime::parse(start);
        let end = SASTDateTime::parse(end);
        let digits = characters(stage);
        let stage = parse_integer(&digits);
        match (start, end, stage) {
            (Some(start), Some(end), Some(stage)) => Some(LoadsheddingData { start, end, stage }),
            _ => None,
        }
    }
}

impl FeedEntry {
    /// The interval that the entry writes.
    pub open spec fn written(&self) -> Option<LoadsheddingData> {
        LoadsheddingData::written(self.start@, self.end@, self.stage@)
    }
}

impl LoadsheddingData {
    /// Reads a whole feed: every interval of it, or nothing where one of its
    /// entries cannot be read.
    pub fn read_feed(entries: &Vec<FeedEntry>) -> (feed: Option<Vec<LoadsheddingData>>)
        ensures
            match feed {
                Some(times) => times@.len() == entries@.len() && forall|i: int|
                    0 <= i < entries@.len() ==> (#[trigger] entries@[i]).written() == Some(times@[i]),
                None => exists|i: int|
                    0 <= i < entries@.len() && (#[trigger] entries@[i]).written().is_none(),
            },
    {
        let mut times: Vec<LoadsheddingData> = Vec::new();
        let mut i: usize = 0;
        while i < entries.len()
            invariant
                i <= entries@.len(),
                times@.len() == i,
                forall|k: int|
                    0 <= k < i ==> (#[trigger] entries@[k]).written() == Some(times@[k]),
            decreases entries@.len() - i,
        {
            let entry = &entries[i];
            match LoadsheddingData::from_feed(
                entry.start.as_str(),
                entry.end.as_str(),
                entry.stage.as_str(),
            ) {
                Some(data) => {
                    times.push(data);
                },
                None => {
                    assert(entries@[i as int].written().is_none());
                    return None;
                },
            }
            i += 1;
        }
        Some(times)
    }
}

impl StageUpdater {
    /// What to do after an attempt to fetch the feed. A feed that was read is
    /// taken in; a source that refused is asked again shortly; a source that
    /// could not be reached, or a feed that cannot be read, waits for the next
    /// fetch with the log left as it is.
    pub fn after_fetch(outcome: FeedOutcome) -> (step: UpdaterStep)
        ensures
            outcome == FeedOutcome::Read ==> step == (UpdaterStep::TakeIn { wait: FEED_PERIOD }),
            outcome == FeedOutcome::Refused ==> step == (UpdaterStep::Retry { wait: RETRY_PERIOD }),
            outcome == FeedOutcome::Unreachable || outcome == FeedOutcome::Unreadable ==> step == (
            UpdaterStep::Skip { wait: FEED_PERIOD }),
    {
        match outcome {
            FeedOutcome::Read => UpdaterStep::TakeIn { wait: FEED_PERIOD },
            FeedOutcome::Refused => UpdaterStep::Retry { wait: RETRY_PERIOD },
            FeedOutcome::Unreachable => UpdaterStep::Skip { wait: FEED_PERIOD },
            FeedOutcome::Unreadable => UpdaterStep::Skip { wait: FEED_PERIOD },
        }
    }
}

} // verus!
