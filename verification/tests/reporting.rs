use loadshedding::reporting::{
    get_reports, NewUserReport, ReportType, UserReport, UserReportResponse, REPORT_MILLIS,
};

fn report(email: &str, expires: u64) -> UserReport {
    UserReport {
        id: Some(3),
        report_type: ReportType::PowerOutage,
        email: email.to_string(),
        expires,
    }
}

#[test]
fn report_lapses_after_its_last_millisecond() {
    let stored = report("joe@average.net", 1000);
    assert!(!stored.is_expired(999));
    assert!(!stored.is_expired(1000));
    assert!(stored.is_expired(1001));
}

#[test]
fn new_report_stays_open_for_half_an_hour() {
    let filed = NewUserReport { report_type: ReportType::StolenCables, timestamp: 1_694_660_400_000 };
    let stored = filed.into_entity("joe@average.net".to_string());
    assert_eq!(REPORT_MILLIS, 1000 * 60 * 30);
    assert_eq!(
        stored,
        UserReport {
            id: None,
            report_type: ReportType::StolenCables,
            email: "joe@average.net".to_string(),
            expires: 1_694_662_200_000,
        }
    );
}

#[test]
fn report_is_shown_with_its_state() {
    let stored = report("joe@average.net", 1000);
    assert_eq!(
        UserReportResponse::from_report(&stored, 1001),
        UserReportResponse {
            report_type: ReportType::PowerOutage,
            email: "joe@average.net".to_string(),
            expired: true,
        }
    );
    assert!(!UserReportResponse::from_report(&stored, 1000).expired);
}

#[test]
fn only_open_reports_are_listed() {
    let stored = vec![report("a@x.net", 10), report("b@x.net", 30), report("c@x.net", 20), report("d@x.net", 40)];
    let shown = get_reports(&stored, 20);
    let emails: Vec<&str> = shown.iter().map(|one| one.email.as_str()).collect();
    assert_eq!(emails, vec!["b@x.net", "c@x.net", "d@x.net"]);
    assert!(shown.iter().all(|one| !one.expired));
    assert_eq!(get_reports(&stored, 40).len(), 1);
    assert!(get_reports(&stored, 41).is_empty());
    assert_eq!(get_reports(&stored, 0).len(), 4);
}
