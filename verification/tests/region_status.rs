use loadshedding::region::{
    affected_groups, contains_id, GroupEntity, MunicipalityEntity, PowerStatus, SuburbEntity,
    SuburbStatsRequest,
};
use loadshedding::schedule::{StageTimes, TimeScheduleEntity};

const GROUP_1: u128 = 0x64b6b9b30d09aa7756061b9d;
const GROUP_2: u128 = 0x64b6b9b30d09aa7756061a79;
const GROUP_3: u128 = 0x64b6b9b30d09aa7756061a94;
const GROUP_4: u128 = 0x64b6b9b30d09aa7756061ab6;
const TSHWANE: u128 = 0x64b6b9b30d09aa7756061a47;
const MUCKLENEUK: u128 = 0x64b6b9b30d09aa7756061b30;
const NEWLANDS: u128 = 0x64b6b9b30d09aa7756061b7d;
const SOSHANGUVE: u128 = 0x64b6b9b30d09aa7756061a63;
const MAGALIESKRUIN: u128 = 0x64b6b9b30d09aa7756061a7b;

/// Twelve windows of two and a half hours, one every two hours from 20:00 on.
/// In each the four groups are cut at four different stages, and the stage of
/// each group moves on by one from window to window.
fn schedules() -> Vec<TimeScheduleEntity> {
    let starts = [20, 22, 0, 2, 4, 6, 8, 10, 12, 14, 16, 18];
    let groups = [GROUP_1, GROUP_2, GROUP_3, GROUP_4];
    let mut all = Vec::new();
    for (k, start) in starts.iter().enumerate() {
        let mut stages = Vec::new();
        for (o, group) in groups.iter().enumerate() {
            stages.push(StageTimes { stage: ((k + o) % 4) as i32 + 1, groups: vec![*group; 31] });
        }
        all.push(TimeScheduleEntity {
            id: 0x100 + k as u128,
            start_hour: *start,
            start_minute: 0,
            stop_hour: (*start + 2) % 24,
            stop_minute: 30,
            stages,
            municipality: TSHWANE,
        });
    }
    all
}

fn groups() -> Vec<GroupEntity> {
    vec![
        GroupEntity { id: GROUP_1, number: 1, suburbs: vec![MUCKLENEUK] },
        GroupEntity { id: GROUP_2, number: 2, suburbs: vec![NEWLANDS] },
        GroupEntity { id: GROUP_3, number: 3, suburbs: vec![SOSHANGUVE] },
    ]
}

fn suburb(id: u128, name: &str, geometry: Vec<i32>) -> SuburbEntity {
    SuburbEntity { id, municipality: TSHWANE, name: name.to_string(), geometry }
}

fn suburbs() -> Vec<SuburbEntity> {
    vec![
        suburb(MUCKLENEUK, "MUCKLENEUK", vec![1]),
        suburb(NEWLANDS, "NEWLANDS", vec![2]),
        suburb(SOSHANGUVE, "SOSHANGUVE EAST", vec![]),
        suburb(MAGALIESKRUIN, "MAGALIESKRUIN", vec![4]),
    ]
}

fn tshwane() -> MunicipalityEntity {
    MunicipalityEntity { id: TSHWANE, name: "tshwane".to_string(), geometry: vec![1, 2, 3, 4] }
}

fn names(list: &Vec<&SuburbEntity>) -> Vec<String> {
    list.iter().map(|one| one.name.clone()).collect()
}

// 2023-07-01T20:50:49+02:00: the first day of a month, in the window from 20:00.
const FIRST_OF_JULY: i64 = 1688237449;

#[test]
fn polygon_request_test() {
    let schedules = schedules();
    let suburbs = suburbs();
    let groups = groups();
    let status = tshwane().get_regions_at_time(2, FIRST_OF_JULY, &schedules, &suburbs, &groups);
    assert_eq!(
        status.power_status,
        vec![PowerStatus::Off, PowerStatus::Off, PowerStatus::Undefined, PowerStatus::On]
    );
    assert_eq!(names(&status.off), vec!["MUCKLENEUK", "NEWLANDS"]);
    assert_eq!(names(&status.on), vec!["SOSHANGUVE EAST", "MAGALIESKRUIN"]);
}

#[test]
fn stage_decides_which_groups_are_cut() {
    let schedules = schedules();
    assert_eq!(affected_groups(&schedules, 0, FIRST_OF_JULY), Vec::<u128>::new());
    assert_eq!(affected_groups(&schedules, 1, FIRST_OF_JULY), vec![GROUP_1]);
    assert_eq!(affected_groups(&schedules, 2, FIRST_OF_JULY), vec![GROUP_1, GROUP_2]);
    assert_eq!(affected_groups(&schedules, 3, FIRST_OF_JULY), vec![GROUP_1, GROUP_2, GROUP_3]);
    assert_eq!(
        affected_groups(&schedules, 9, FIRST_OF_JULY),
        vec![GROUP_1, GROUP_2, GROUP_3, GROUP_4]
    );
}

#[test]
fn overlapping_windows_both_cut() {
    // 2023-07-01T22:10:00+02:00 lies in the window from 20:00 and in the one from 22:00.
    let schedules = schedules();
    let time = 1688242200;
    assert_eq!(affected_groups(&schedules, 1, time), vec![GROUP_1, GROUP_4]);
    assert_eq!(affected_groups(&schedules, 2, time), vec![GROUP_1, GROUP_2, GROUP_1, GROUP_4]);
}

#[test]
fn window_past_midnight_cuts_in_the_small_hours() {
    // 2023-07-02T00:10:00+02:00 lies in the window from 22:00 and in the one from 00:00.
    let schedules = schedules();
    assert_eq!(affected_groups(&schedules, 1, 1688249400), vec![GROUP_4, GROUP_3]);
}

#[test]
fn status_words() {
    assert_eq!(PowerStatus::Off.as_str(), "off");
    assert_eq!(PowerStatus::On.as_str(), "on");
    assert_eq!(PowerStatus::Undefined.as_str(), "undefined");
}

#[test]
fn no_schedule_means_nothing_is_cut() {
    let suburbs = suburbs();
    let groups = groups();
    let status = tshwane().get_regions_at_time(8, FIRST_OF_JULY, &vec![], &suburbs, &groups);
    assert!(status.off.is_empty());
    assert_eq!(status.on.len(), 4);
    assert_eq!(
        status.power_status,
        vec![PowerStatus::On, PowerStatus::On, PowerStatus::Undefined, PowerStatus::On]
    );
}

#[test]
fn off_and_on_part_the_suburbs() {
    let schedules = schedules();
    let suburbs = suburbs();
    let groups = groups();
    for stage in 0..6 {
        for half_hour in 0..48 {
            let time = 1688162400 + half_hour * 1800;
            let status = tshwane().get_regions_at_time(stage, time, &schedules, &suburbs, &groups);
            let mut seen: Vec<u128> = Vec::new();
            for one in status.off.iter().chain(status.on.iter()) {
                assert!(!seen.contains(&one.id), "a suburb is listed twice");
                seen.push(one.id);
            }
            assert_eq!(seen.len(), suburbs.len());
            for one in &suburbs {
                assert!(seen.contains(&one.id));
            }
        }
    }
}

#[test]
fn group_claims_each_suburb_once_and_in_its_order() {
    let schedules = schedules();
    let suburbs = suburbs();
    let groups = vec![
        GroupEntity { id: GROUP_2, number: 2, suburbs: vec![NEWLANDS, 0xdead, MAGALIESKRUIN] },
        GroupEntity { id: GROUP_4, number: 4, suburbs: vec![SOSHANGUVE] },
        GroupEntity { id: GROUP_1, number: 1, suburbs: vec![MUCKLENEUK, NEWLANDS, MUCKLENEUK] },
    ];
    let status = tshwane().get_regions_at_time(2, FIRST_OF_JULY, &schedules, &suburbs, &groups);
    assert_eq!(names(&status.off), vec!["NEWLANDS", "MAGALIESKRUIN", "MUCKLENEUK"]);
    assert_eq!(names(&status.on), vec!["SOSHANGUVE EAST"]);
    assert_eq!(
        status.power_status,
        vec![PowerStatus::Off, PowerStatus::Off, PowerStatus::Undefined, PowerStatus::Off]
    );
}

#[test]
fn identifier_carried_twice_stands_for_the_later_suburb() {
    let schedules = schedules();
    let suburbs = vec![
        suburb(MUCKLENEUK, "first", vec![1]),
        suburb(NEWLANDS, "other", vec![2]),
        suburb(MUCKLENEUK, "second", vec![3]),
    ];
    let groups = groups();
    let cut = tshwane().get_regions_at_time(1, FIRST_OF_JULY, &schedules, &suburbs, &groups);
    assert_eq!(names(&cut.off), vec!["second"]);
    assert_eq!(names(&cut.on), vec!["other"]);
    assert_eq!(
        cut.power_status,
        vec![PowerStatus::Undefined, PowerStatus::On, PowerStatus::Off, PowerStatus::Undefined]
    );
    let spared = tshwane().get_regions_at_time(0, FIRST_OF_JULY, &schedules, &suburbs, &groups);
    assert!(spared.off.is_empty());
    assert_eq!(names(&spared.on), vec!["other", "second"]);
}

#[test]
fn rotation_picks_the_group_of_the_day() {
    let month: Vec<u128> = (1..=31).collect();
    let all_day = vec![TimeScheduleEntity {
        id: 1,
        start_hour: 0,
        start_minute: 0,
        stop_hour: 23,
        stop_minute: 59,
        stages: vec![StageTimes { stage: 1, groups: month }],
        municipality: TSHWANE,
    }];
    // 2023-06-30T23:58:59+02:00, 2023-07-01T00:00:00+02:00, 2023-07-31T23:00:00+02:00
    assert_eq!(affected_groups(&all_day, 1, 1688162339), vec![30]);
    assert_eq!(affected_groups(&all_day, 1, 1688162400), vec![1]);
    assert_eq!(affected_groups(&all_day, 1, 1690837200), vec![31]);
}

#[test]
fn rotation_without_a_slot_for_the_day_is_passed_over() {
    let short = vec![TimeScheduleEntity {
        id: 1,
        start_hour: 0,
        start_minute: 0,
        stop_hour: 23,
        stop_minute: 59,
        stages: vec![
            StageTimes { stage: 1, groups: vec![5; 28] },
            StageTimes { stage: 1, groups: vec![6; 31] },
        ],
        municipality: TSHWANE,
    }];
    // The 31st of July 2023.
    assert_eq!(affected_groups(&short, 1, 1690837200), vec![6]);
}

#[test]
fn identifiers_are_found_in_a_list() {
    assert!(contains_id(&vec![GROUP_1, GROUP_2], GROUP_2));
    assert!(!contains_id(&vec![GROUP_1, GROUP_2], GROUP_3));
    assert!(!contains_id(&vec![], GROUP_3));
}

#[test]
fn request_finds_the_suburb_that_shows_the_feature() {
    let suburbs = suburbs();
    assert_eq!(SuburbStatsRequest { suburb_id: 1 }.find_suburb(&suburbs), Some(0));
    assert_eq!(SuburbStatsRequest { suburb_id: 4 }.find_suburb(&suburbs), Some(3));
    assert_eq!(SuburbStatsRequest { suburb_id: 3 }.find_suburb(&suburbs), None);
    assert_eq!(SuburbStatsRequest { suburb_id: u32::MAX }.find_suburb(&suburbs), None);
}
