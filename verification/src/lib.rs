//! Load-shedding schedule engine: which suburbs are cut right now, when a suburb
//! will next be cut, and how long it was cut over the past week.
//!
//! Every instant is a count of seconds since the Unix epoch. Times of day,
//! days of the month and weekdays are always those of South Africa Standard
//! Time (UTC+2).
//!
//! The engine works on records that its caller has fetched: schedules,
//! groups, suburbs and the entries of the stage log. It reads no database and
//! no clock of its own.

pub mod api;
pub mod clock;
pub mod downtime;
pub mod forecast;
pub mod region;
pub mod reporting;
pub mod schedule;
pub mod scraper;
pub mod stage_log;
pub mod text;
