//! Reports that users file about the power network, and when they lapse.

use vstd::prelude::*;

verus! {

/// What a report is about.
#[derive(Debug, Clone, Copy, PartialEq, Eq, Structural)]
#[non_exhaustive]
pub enum ReportType {
    StolenCables,
    BlownSubstation,
    PowerOutage,
    DamagedCables,
}

/// A report as a user files it. `timestamp` is in milliseconds since the epoch.
#[derive(Debug, Clone, PartialEq, Eq)]
pub struct NewUserReport {
    pub report_type: ReportType,
    pub timestamp: u128,
}

/// A report as it is stored. `expires` is in milliseconds since the epoch.
#[derive(Debug, Clone, PartialEq, Eq)]
pub struct UserReport {
    pub id: Option<u128>,
    pub report_type: ReportType,
    pub email: String,
    pub expires: u64,
}

/// A report as it is shown.
#[derive(Debug, Clone, PartialEq, Eq)]
pub struct UserReportResponse {
    pub report_type: ReportType,
    pub email: String,
    pub expired: bool,
}

/// How long a report stays open, in milliseconds: half an hour.
pub const REPORT_MILLIS: u64 = 1_800_000;

impl UserReport {
    /// The report has lapsed at `now`: its time is over, the last millisecond excluded.
    pub open spec fn lapsed(&self, now: u64) -> bool {
        now > self.expires
    }

    /// Whether the report has lapsed at `now`, in milliseconds since the epoch.
    pub fn is_expired(&self, now: u64) -> (expired: bool)
        ensures
            expired == self.lapsed(now),
    {
        now > self.expires
    }
}

impl NewUserReport {
    /// The report as it is stored for the user with this `email`: not stored
    /// yet, and open for half an hour from its timestamp.
    pub fn into_entity(self, email: String) -> (report: UserReport)
        requires
            self.timestamp + REPORT_MILLIS <= u64::MAX,
        ensures
            report.id.is_none(),
            report.report_type == self.report_type,
            report.email == email,
            report.expires == self.timestamp + REPORT_MILLIS,
    {
        UserReport {
            id: None,
            report_type: self.report_type,
            expires: self.timestamp as u64 + REPORT_MILLIS,
            email,
        }
    }
}

impl UserReportResponse {
    /// The report as it is shown at `now`, in milliseconds since the epoch.
    pub fn from_report(value: &UserReport, now: u64) -> (shown: UserReportResponse)
        ensures
            shown.expired == value.lapsed(now),
            shown.report_type == value.report_type,
            shown.email == value.email,
    {
        UserReportResponse {
            expired: value.is_expired(now),
            report_type: value.report_type,
            email: value.email.clone(),
        }
    }
}

/// The positions of the reports that have not lapsed at `now`, below `upto`, in order.
pub open spec fn open_below(reports: Seq<UserReport>, now: u64, upto: int) -> Seq<int>
    decreases upto,
{
    if upto <= 0 {
        Seq::empty()
    } else if reports[upto - 1].lapsed(now) {
        open_below(reports, now, upto - 1)
    } else {
        open_below(reports, now, upto - 1).push(upto - 1)
    }
}

/// The reports that have not lapsed at `now`, as they are shown, in their order.
pub fn get_reports(reports: &Vec<UserReport>, now: u64) -> (shown: Vec<UserReportResponse>)
    ensures
        shown@.len() == open_below(reports@, now, reports@.len() as int).len(),
        forall|p: int|
            0 <= p < shown@.len() ==> {
                let at = open_below(reports@, now, reports@.len() as int)[p];
                &&& 0 <= at < reports@.len()
                &&& !(#[trigger] shown@[p]).expired
                &&& shown@[p].report_type == reports@[at].report_type
                &&& shown@[p].email == reports@[at].email
            },
{
    let mut shown: Vec<UserReportResponse> = Vec::new();
    let mut i: usize = 0;
    while i < reports.len()
        invariant
            i <= reports@.len(),
            shown@.len() == open_below(reports@, now, i as int).len(),
            forall|p: int|
                0 <= p < shown@.len() ==> {
                    let at = open_below(reports@, now, i as int)[p];
                    &&& 0 <= at < i
                    &&& !(#[trigger] shown@[p]).expired
                    &&& shown@[p].report_type == reports@[at].report_type
                    &&& shown@[p].email == reports@[at].email
                },
        decreases reports@.len() - i,
    {
        let response = UserReportResponse::from_report(&reports[i], now);
        if !response.expired {
            shown.push(response);
        }
        i += 1;
    }
    shown
}

} // verus!
