use budget_tracker::calendar::CalDate;
use budget_tracker::occurrences::generate_occurrences;
use budget_tracker::recurrence::{add_months_clamped, cycle_containing, last_day_of_month, next_date};

fn ymd(y: i32, m: u32, d: u32) -> CalDate {
    CalDate::from_ymd_opt(y, m, d).unwrap()
}

#[test]
fn recurrence_month_step_clamps_short_months() {
    let jan31 = ymd(2026, 1, 31);
    assert_eq!(next_date(jan31, "month", 1), ymd(2026, 2, 28));
}

#[test]
fn recurrence_month_step_preserves_day_when_valid() {
    let jan15 = ymd(2026, 1, 15);
    assert_eq!(next_date(jan15, "month", 3), ymd(2026, 4, 15));
}

#[test]
fn recurrence_year_step_clamps_leap_day() {
    let leap_day = ymd(2024, 2, 29);
    assert_eq!(next_date(leap_day, "year", 1), ymd(2025, 2, 28));
}

#[test]
fn recurrence_week_and_day_steps() {
    let d = ymd(2026, 3, 1);
    assert_eq!(next_date(d, "day", 10), ymd(2026, 3, 11));
    assert_eq!(next_date(d, "week", 2), ymd(2026, 3, 15));
}

#[test]
fn recurrence_month_step_across_year_boundary() {
    let nov30 = ymd(2026, 11, 30);
    assert_eq!(next_date(nov30, "month", 3), ymd(2027, 2, 28));
}

#[test]
fn occurrences_month_step_clamps_short_months() {
    let jan31 = ymd(2026, 1, 31);
    assert_eq!(next_date(jan31, "month", 1), ymd(2026, 2, 28));
}

#[test]
fn occurrences_month_step_preserves_day_when_valid() {
    let jan15 = ymd(2026, 1, 15);
    assert_eq!(next_date(jan15, "month", 3), ymd(2026, 4, 15));
}

#[test]
fn occurrences_year_step_clamps_leap_day() {
    let leap_day = ymd(2024, 2, 29);
    assert_eq!(next_date(leap_day, "year", 1), ymd(2025, 2, 28));
}

#[test]
fn occurrences_week_and_day_steps() {
    let d = ymd(2026, 3, 1);
    assert_eq!(next_date(d, "day", 10), ymd(2026, 3, 11));
    assert_eq!(next_date(d, "week", 2), ymd(2026, 3, 15));
}

#[test]
fn occurrences_month_step_across_year_boundary() {
    let nov30 = ymd(2026, 11, 30);
    assert_eq!(next_date(nov30, "month", 3), ymd(2027, 2, 28));
}

#[test]
fn cycle_containing_finds_current_cycle() {
    let anchor = ymd(2026, 1, 15);
    let today = ymd(2026, 4, 20);
    let (start, end) = cycle_containing(anchor, "month", 1, today);
    assert_eq!(start, ymd(2026, 4, 15));
    assert_eq!(end, ymd(2026, 5, 15));
}

#[test]
fn cycle_containing_before_anchor_returns_first_cycle() {
    let anchor = ymd(2026, 6, 1);
    let today = ymd(2026, 1, 1);
    let (start, end) = cycle_containing(anchor, "month", 3, today);
    assert_eq!(start, anchor);
    assert_eq!(end, ymd(2026, 9, 1));
}

#[test]
fn cycle_containing_on_boundary_belongs_to_new_cycle() {
    let anchor = ymd(2026, 1, 1);
    let boundary = ymd(2026, 2, 1);
    let (start, end) = cycle_containing(anchor, "month", 1, boundary);
    assert_eq!(start, boundary);
    assert_eq!(end, ymd(2026, 3, 1));
}

#[test]
fn cycle_containing_in_weeks_and_years() {
    let anchor = ymd(2024, 1, 1);
    let (start, end) = cycle_containing(anchor, "week", 2, ymd(2024, 1, 20));
    assert_eq!(start, ymd(2024, 1, 15));
    assert_eq!(end, ymd(2024, 1, 29));
    let (start, end) = cycle_containing(ymd(2020, 2, 29), "year", 1, ymd(2023, 6, 1));
    assert_eq!(start, ymd(2023, 2, 28));
    assert_eq!(end, ymd(2024, 2, 28));
}

#[test]
fn last_day_of_month_follows_leap_years() {
    assert_eq!(last_day_of_month(2024, 2), 29);
    assert_eq!(last_day_of_month(2023, 2), 28);
    assert_eq!(last_day_of_month(1900, 2), 28);
    assert_eq!(last_day_of_month(2000, 2), 29);
    assert_eq!(last_day_of_month(2026, 4), 30);
    assert_eq!(last_day_of_month(2026, 12), 31);
    assert_eq!(last_day_of_month(-4, 2), 29);
}

#[test]
fn month_shift_goes_backward_and_across_years() {
    assert_eq!(add_months_clamped(ymd(2026, 3, 31), -1), ymd(2026, 2, 28));
    assert_eq!(add_months_clamped(ymd(2026, 1, 10), -13), ymd(2024, 12, 10));
    assert_eq!(add_months_clamped(ymd(2026, 5, 31), 0), ymd(2026, 5, 31));
}

#[test]
fn negative_day_steps_move_back() {
    assert_eq!(next_date(ymd(2024, 3, 1), "day", -1), ymd(2024, 2, 29));
    assert_eq!(next_date(ymd(2025, 1, 3), "week", -1), ymd(2024, 12, 27));
}

#[test]
fn iso_text_round_trips_through_chrono() {
    let d = ymd(2026, 3, 7);
    assert_eq!(d.to_iso_string(), "2026-03-07");
    assert_eq!(CalDate::parse_iso("2026-03-07"), Ok(d));
    assert!(CalDate::parse_iso("2026-02-30").is_err());
    assert_eq!(ymd(-1, 1, 1).to_iso_string(), "-0001-01-01");
    assert_eq!(ymd(10000, 12, 31).to_iso_string(), "+10000-12-31");
}

#[test]
fn from_ymd_refuses_missing_days() {
    assert!(CalDate::from_ymd_opt(2023, 2, 29).is_none());
    assert!(CalDate::from_ymd_opt(2026, 13, 1).is_none());
    assert!(CalDate::from_ymd_opt(2026, 4, 31).is_none());
    assert!(CalDate::from_ymd_opt(300000, 1, 1).is_none());
    assert!(CalDate::from_ymd_opt(2024, 2, 29).is_some());
}

#[test]
fn generate_occurrences_stops_at_horizon_and_end_date() {
    let (dates, next) = generate_occurrences(ymd(2026, 1, 31), "month", 1, None, ymd(2026, 4, 30));
    assert_eq!(dates, vec![ymd(2026, 1, 31), ymd(2026, 2, 28), ymd(2026, 3, 28), ymd(2026, 4, 28)]);
    assert_eq!(next, ymd(2026, 5, 28));
    let (dates, next) = generate_occurrences(ymd(2026, 1, 1), "week", 1, Some(ymd(2026, 1, 15)), ymd(2026, 12, 31));
    assert_eq!(dates, vec![ymd(2026, 1, 1), ymd(2026, 1, 8), ymd(2026, 1, 15)]);
    assert_eq!(next, ymd(2026, 1, 22));
    let (dates, next) = generate_occurrences(ymd(2027, 1, 1), "day", 0, None, ymd(2026, 12, 31));
    assert!(dates.is_empty());
    assert_eq!(next, ymd(2027, 1, 1));
}
