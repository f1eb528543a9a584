use loadshedding::stage_log::{
    current_entry, FeedEntry, FeedOutcome, LoadSheddingStage, LoadsheddingData, SASTDateTime,
    StageLogChange, StageUpdater, UpdaterStep, FEED_PERIOD, RETRY_PERIOD, STAGE_PERIOD,
};

fn stored(id: u128, start_time: i64, end_time: i64, stage: i32) -> LoadSheddingStage {
    LoadSheddingStage { id: Some(id), start_time, end_time, stage }
}

fn fresh(start_time: i64, end_time: i64, stage: i32) -> LoadSheddingStage {
    LoadSheddingStage { id: None, start_time, end_time, stage }
}

fn data(start: i64, end: i64, stage: i32) -> LoadsheddingData {
    LoadsheddingData { start: SASTDateTime(start), end: SASTDateTime(end), stage }
}

fn said(log: &Vec<LoadSheddingStage>) -> Vec<(i64, i64, i32)> {
    let mut all: Vec<(i64, i64, i32)> =
        log.iter().map(|one| (one.start_time, one.end_time, one.stage)).collect();
    all.sort();
    all.dedup();
    all
}

#[test]
fn test_loadshedding_helpers() {
    let conversion = data(1694660400, 1694746800, 0).convert_to_loadsheddingstage();
    assert_eq!(conversion.start_time, 1694660400);
    assert_eq!(conversion.end_time, 1694746800);
    assert_eq!(conversion, fresh(1694660400, 1694746800, 0));
}

#[test]
fn same_interval_same_stage_changes_nothing() {
    let mut log = vec![stored(1, 0, 10, 3), stored(2, 10, 20, 4)];
    let change = LoadSheddingStage::update_db_with_changes(&mut log, &data(10, 20, 4));
    assert_eq!(change, StageLogChange::Unchanged);
    assert_eq!(log, vec![stored(1, 0, 10, 3), stored(2, 10, 20, 4)]);
}

#[test]
fn same_interval_other_stage_corrects_the_stage_in_place() {
    let mut log = vec![stored(1, 0, 10, 3), stored(2, 10, 20, 4), stored(3, 20, 30, 5)];
    let change = LoadSheddingStage::update_db_with_changes(&mut log, &data(10, 20, 1));
    assert_eq!(change, StageLogChange::Restaged { entry: stored(2, 10, 20, 1) });
    assert_eq!(log, vec![stored(1, 0, 10, 3), stored(2, 10, 20, 1), stored(3, 20, 30, 5)]);
}

#[test]
fn interval_clear_of_the_log_is_added() {
    let mut log = vec![stored(1, 0, 10, 3), stored(2, 20, 30, 4)];
    let change = LoadSheddingStage::update_db_with_changes(&mut log, &data(10, 20, 1));
    assert_eq!(change, StageLogChange::Replaced { removed: vec![] });
    assert_eq!(log, vec![stored(1, 0, 10, 3), stored(2, 20, 30, 4), fresh(10, 20, 1)]);
}

#[test]
fn interval_replaces_what_it_overlaps() {
    let mut log = vec![stored(1, 0, 10, 3), stored(2, 10, 20, 4), stored(3, 20, 30, 5), stored(4, 30, 40, 6)];
    let change = LoadSheddingStage::update_db_with_changes(&mut log, &data(9, 21, 1));
    assert_eq!(
        change,
        StageLogChange::Replaced {
            removed: vec![stored(1, 0, 10, 3), stored(2, 10, 20, 4), stored(3, 20, 30, 5)]
        }
    );
    assert_eq!(log, vec![stored(4, 30, 40, 6), fresh(9, 21, 1)]);
}

#[test]
fn intervals_that_only_touch_do_not_overlap() {
    let mut log = vec![stored(1, 0, 10, 3), stored(2, 20, 30, 4)];
    let change = LoadSheddingStage::update_db_with_changes(&mut log, &data(10, 20, 1));
    assert_eq!(change, StageLogChange::Replaced { removed: vec![] });
    let change = LoadSheddingStage::update_db_with_changes(&mut log, &data(10, 21, 2));
    assert_eq!(
        change,
        StageLogChange::Replaced { removed: vec![stored(2, 20, 30, 4), fresh(10, 20, 1)] }
    );
    assert_eq!(log, vec![stored(1, 0, 10, 3), fresh(10, 21, 2)]);
}

#[test]
fn first_of_two_entries_with_the_interval_is_corrected() {
    let mut log = vec![stored(1, 0, 10, 3), stored(2, 0, 10, 4)];
    let change = LoadSheddingStage::update_db_with_changes(&mut log, &data(0, 10, 4));
    assert_eq!(change, StageLogChange::Restaged { entry: stored(1, 0, 10, 4) });
    assert_eq!(log, vec![stored(1, 0, 10, 4), stored(2, 0, 10, 4)]);
}

#[test]
fn feed_is_taken_in_first_to_last() {
    let mut log = vec![stored(1, 0, 10, 3)];
    let mut published = StageUpdater::initial_stage();
    let feed = vec![data(0, 10, 2), data(10, 20, 4), data(5, 15, 1), data(15, 25, 6)];
    let changes = published.log_stage_data(&mut log, &feed, 16);
    assert_eq!(
        changes,
        vec![
            StageLogChange::Restaged { entry: stored(1, 0, 10, 2) },
            StageLogChange::Replaced { removed: vec![] },
            StageLogChange::Replaced { removed: vec![stored(1, 0, 10, 2), fresh(10, 20, 4)] },
            StageLogChange::Replaced { removed: vec![] },
        ]
    );
    assert_eq!(log, vec![fresh(5, 15, 1), fresh(15, 25, 6)]);
    assert_eq!(published, fresh(15, 25, 6));
}

#[test]
fn taking_a_feed_in_twice_is_taking_it_in_once() {
    let feeds = vec![
        vec![data(0, 10, 2), data(10, 20, 4), data(5, 15, 1), data(15, 25, 6)],
        vec![data(0, 10, 1), data(20, 30, 2), data(5, 25, 3), data(0, 10, 4)],
        vec![data(0, 10, 1), data(-5, 2, 2), data(0, 5, 3)],
        vec![data(0, 10, 1), data(0, 10, 2)],
        // Intervals that end where they start, or before.
        vec![data(5, 5, 1), data(0, 10, 2), data(5, 5, 3)],
        vec![data(10, 0, 1), data(-5, 20, 2), data(10, 0, 3), data(3, 4, 4)],
        vec![data(25, 25, 1), data(4, 3, 2)],
        vec![],
    ];
    let logs = vec![
        vec![],
        vec![stored(1, 0, 10, 9)],
        vec![stored(1, -100, -50, 9), stored(2, 3, 4, 8), stored(3, 24, 26, 7), stored(4, 90, 99, 1)],
    ];
    for feed in &feeds {
        for log in &logs {
            let mut once = log.clone();
            StageUpdater::initial_stage().log_stage_data(&mut once, feed, 0);
            let mut twice = once.clone();
            StageUpdater::initial_stage().log_stage_data(&mut twice, feed, 0);
            assert_eq!(said(&twice), said(&once), "feed {:?} on log {:?}", feed, log);
        }
    }
}

#[test]
fn log_with_overlapping_entries_may_change_on_the_second_time() {
    // The entry from 5 to 15 overlaps the one from 0 to 10. The first time
    // the feed finds its own interval in the log and leaves the other entry
    // alone; the second time it does not, and clears its way.
    let feed = vec![data(0, 10, 1), data(-5, 2, 2)];
    let mut once = vec![stored(1, 0, 10, 9), stored(2, 5, 15, 8)];
    StageUpdater::initial_stage().log_stage_data(&mut once, &feed, 0);
    assert_eq!(once, vec![stored(2, 5, 15, 8), fresh(-5, 2, 2)]);
    let mut twice = once.clone();
    StageUpdater::initial_stage().log_stage_data(&mut twice, &feed, 0);
    assert_eq!(twice, vec![fresh(-5, 2, 2)]);
}

#[test]
fn entry_in_force_starts_latest_without_starting_after_now() {
    let log = vec![stored(1, 30, 40, 3), stored(2, 10, 20, 1), stored(3, 20, 30, 2), stored(4, 20, 25, 9)];
    assert_eq!(current_entry(&log, 9), None);
    assert_eq!(current_entry(&log, 10), Some(1));
    assert_eq!(current_entry(&log, 19), Some(1));
    assert_eq!(current_entry(&log, 20), Some(2));
    assert_eq!(current_entry(&log, 29), Some(2));
    assert_eq!(current_entry(&log, 30), Some(0));
    assert_eq!(current_entry(&log, 1000), Some(0));
    assert_eq!(current_entry(&vec![], 1000), None);
}

#[test]
fn published_stage_follows_the_log() {
    let log = vec![stored(1, 10, 20, 1), stored(2, 20, 30, 2)];
    let mut published = StageUpdater::initial_stage();
    assert_eq!(published, fresh(0, 0, 0));
    assert!(!published.set_stage(&log, 5));
    assert_eq!(published, fresh(0, 0, 0));
    assert!(published.set_stage(&log, 25));
    assert_eq!(published, fresh(20, 30, 2));
    let mut known = stored(77, 0, 0, 0);
    assert!(known.set_stage(&log, 10));
    assert_eq!(known, stored(77, 10, 20, 1));
}

#[test]
fn feed_writes_south_african_time() {
    assert_eq!(SASTDateTime::parse("2023-09-14T05:00"), Some(SASTDateTime(1694660400)));
    assert_eq!(SASTDateTime::parse("1970-01-01T02:00"), Some(SASTDateTime(0)));
    assert_eq!(SASTDateTime::parse("1970-01-01T00:00"), Some(SASTDateTime(-7200)));
    assert_eq!(SASTDateTime::parse("2023-09-14 05:00"), None);
    assert_eq!(SASTDateTime::parse("2023-13-14T05:00"), None);
    assert_eq!(SASTDateTime::parse("2023-09-14T05:00:00"), None);
    assert_eq!(SASTDateTime::parse(""), None);
}

#[test]
fn feed_entry_is_read_from_three_texts() {
    assert_eq!(
        LoadsheddingData::from_feed("2023-09-14T05:00", "2023-09-15T05:00", "6"),
        Some(data(1694660400, 1694746800, 6))
    );
    assert_eq!(LoadsheddingData::from_feed("2023-09-14T05:00", "2023-09-15T05:00", "six"), None);
    assert_eq!(LoadsheddingData::from_feed("2023-09-14T05:00", "soon", "6"), None);
    assert_eq!(LoadsheddingData::from_feed("once", "2023-09-15T05:00", "6"), None);
}

fn written(start: &str, end: &str, stage: &str) -> FeedEntry {
    FeedEntry { start: start.to_string(), end: end.to_string(), stage: stage.to_string() }
}

#[test]
fn feed_is_read_whole_or_not_at_all() {
    let good = vec![
        written("2023-09-14T05:00", "2023-09-15T05:00", "6"),
        written("2023-09-15T05:00", "2023-09-15T14:00", "5"),
    ];
    assert_eq!(
        LoadsheddingData::read_feed(&good),
        Some(vec![data(1694660400, 1694746800, 6), data(1694746800, 1694779200, 5)])
    );
    let mut bad = good.clone();
    bad.push(written("2023-09-15T14:00", "2023-09-16T02:00", ""));
    assert_eq!(LoadsheddingData::read_feed(&bad), None);
    assert_eq!(LoadsheddingData::read_feed(&vec![]), Some(vec![]));
}

#[test]
fn updater_takes_in_retries_or_skips() {
    assert_eq!(StageUpdater::after_fetch(FeedOutcome::Read), UpdaterStep::TakeIn { wait: 18000 });
    assert_eq!(StageUpdater::after_fetch(FeedOutcome::Refused), UpdaterStep::Retry { wait: 10 });
    assert_eq!(StageUpdater::after_fetch(FeedOutcome::Unreachable), UpdaterStep::Skip { wait: 18000 });
    assert_eq!(StageUpdater::after_fetch(FeedOutcome::Unreadable), UpdaterStep::Skip { wait: 18000 });
    assert_eq!((FEED_PERIOD, STAGE_PERIOD, RETRY_PERIOD), (18000, 1600, 10));
}
