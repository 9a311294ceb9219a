use chrono::{Datelike, NaiveDate};
use gantt_planner::app::SAMPLE_PROJECT_START;
use gantt_planner::date::{add_days, MAX_DAY, MIN_DAY};

#[test]
fn calendar_bounds_match_chrono() {
    assert_eq!(NaiveDate::MIN.num_days_from_ce(), MIN_DAY);
    assert_eq!(NaiveDate::MAX.num_days_from_ce(), MAX_DAY);
}

#[test]
fn sample_project_starts_on_august_first_2024() {
    assert_eq!(
        NaiveDate::from_ymd_opt(2024, 8, 1).unwrap().num_days_from_ce(),
        SAMPLE_PROJECT_START
    );
}

#[test]
fn adding_days_stays_on_the_calendar() {
    assert_eq!(add_days(10, 5), Some(15));
    assert_eq!(add_days(10, -15), Some(-5));
    assert_eq!(add_days(MAX_DAY, 0), Some(MAX_DAY));
    assert_eq!(add_days(MAX_DAY, 1), None);
    assert_eq!(add_days(MIN_DAY, -1), None);
    assert_eq!(add_days(0, i64::MAX), None);
}
