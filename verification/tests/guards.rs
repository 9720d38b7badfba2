use budget_tracker::budgets::{try_spend_for_tag, try_tag_breakdown, TagSpend};
use budget_tracker::calendar::CalDate;
use budget_tracker::dashboard::{month_total_fits, summary_fits, trend_fits};
use budget_tracker::debt_math::{payoff_step_is_ok, PayoffState};
use budget_tracker::models::{Recurring, Tag, Transaction};
use budget_tracker::recurrence::{cycle_containing, cycle_walk_is_ok, month_shift_is_ok, step_is_advancing, step_is_ok};
use budget_tracker::recurring::{cycle_inputs_are_ok, progress_fits, try_cycle_on};

fn ymd(y: i32, m: u32, d: u32) -> CalDate {
    CalDate::from_ymd_opt(y, m, d).unwrap()
}

fn node(id: i64, parent_id: Option<i64>, direct_spend_cents: i64) -> TagSpend {
    TagSpend { tag: Tag { id, name: format!("tag {id}"), color: None, parent_id }, direct_spend_cents }
}

fn txn(amount_cents: i64, kind: &str) -> Transaction {
    Transaction {
        id: 1,
        account_id: 1,
        date: "2024-01-05".to_string(),
        amount_cents,
        kind: kind.to_string(),
        description: String::new(),
        notes: None,
        linked_group_id: None,
        tags: vec![],
        created_at: String::new(),
        updated_at: String::new(),
    }
}

fn recurring(anchor_date: &str, interval_unit: &str, interval_count: i64, kind: &str, projected: i64) -> Recurring {
    Recurring {
        id: 1,
        tag_id: 1,
        account_id: None,
        kind: kind.to_string(),
        interval_unit: interval_unit.to_string(),
        interval_count,
        anchor_date: anchor_date.to_string(),
        projected_amount_cents: projected,
        notes: None,
        active: true,
        created_at: String::new(),
        updated_at: String::new(),
    }
}

#[test]
fn steps_are_checked_against_unit_and_range() {
    let d = ymd(2026, 1, 31);
    assert!(step_is_ok(d, "month", 1));
    assert!(step_is_ok(d, "day", -10));
    assert!(!step_is_ok(d, "fortnight", 1));
    assert!(!step_is_ok(d, "day", i64::MAX));
    assert!(!step_is_ok(d, "week", i64::MAX / 4));
    let late = ymd(262142, 10, 15);
    assert!(step_is_ok(late, "month", 1));
    assert!(!step_is_ok(late, "month", 2));
    assert!(!step_is_ok(late, "year", 1));
    // A year step of a count whose twelvefold overflows an i32 would panic.
    assert!(!step_is_ok(d, "year", 200_000_000));
}

#[test]
fn only_positive_counts_advance() {
    assert!(step_is_advancing("week", 1));
    assert!(step_is_advancing("month", 3));
    assert!(!step_is_advancing("day", 0));
    assert!(!step_is_advancing("day", -1));
    assert!(!step_is_advancing("decade", 1));
    // Month counts are taken as an i32: 2^32 becomes 0.
    assert!(!step_is_advancing("month", 1i64 << 32));
}

#[test]
fn month_shift_range_ends_a_month_before_the_last_december() {
    assert!(month_shift_is_ok(ymd(2024, 1, 1), 12));
    assert!(month_shift_is_ok(ymd(262142, 11, 1), 0));
    assert!(!month_shift_is_ok(ymd(262142, 12, 1), 0));
    assert!(!month_shift_is_ok(ymd(-262143, 1, 1), -1));
}

#[test]
fn rollup_refuses_cycles_and_overflow() {
    let nodes = vec![node(1, None, 100), node(2, Some(1), 20), node(3, Some(2), 3)];
    assert_eq!(try_spend_for_tag(&nodes, 0), Some(123));
    assert_eq!(try_spend_for_tag(&nodes, 1), Some(23));
    assert_eq!(try_spend_for_tag(&nodes, 3), None);

    let cyclic = vec![node(1, Some(2), 5), node(2, Some(1), 7)];
    assert_eq!(try_spend_for_tag(&cyclic, 0), None);

    let huge = vec![node(1, None, i64::MAX), node(2, Some(1), 1)];
    assert_eq!(try_spend_for_tag(&huge, 0), None);
    assert_eq!(try_spend_for_tag(&huge, 1), Some(1));
}

#[test]
fn breakdown_is_refused_where_a_child_cannot_roll_up() {
    let nodes = vec![node(1, None, 0), node(2, Some(1), 20), node(3, Some(1), 30), node(4, Some(3), 4)];
    let b = try_tag_breakdown(&nodes, 0).unwrap();
    assert_eq!(b.len(), 2);
    assert_eq!(b[0].spent_cents, 20);
    assert_eq!(b[1].spent_cents, 34);
    assert!(try_tag_breakdown(&nodes, 9).is_none());

    // Tags 3 and 4 are each other's parent, but neither is below tag 1.
    let cyclic = vec![node(1, None, 0), node(2, Some(1), 1), node(3, Some(4), 1), node(4, Some(3), 1)];
    assert!(try_tag_breakdown(&cyclic, 0).is_some());
    // Below tag 1, tag 2 has a child 3 whose child is (a second row of) tag 2.
    let cyclic_child = vec![node(1, None, 0), node(2, Some(1), 1), node(3, Some(2), 1), node(2, Some(3), 1)];
    assert!(try_tag_breakdown(&cyclic_child, 0).is_none());
}

#[test]
fn month_summary_guard_catches_overflow() {
    assert!(summary_fits(&vec![txn(500, "income"), txn(-200, "expense"), txn(-50, "transfer")]));
    assert!(summary_fits(&vec![]));
    assert!(!summary_fits(&vec![txn(i64::MAX, "income"), txn(1, "income")]));
    assert!(!summary_fits(&vec![txn(i64::MIN, "expense")]));
    // Income at the top and an expense: the net goes below the range.
    assert!(!summary_fits(&vec![txn(i64::MIN, "income"), txn(-1, "expense")]));
    // A transfer of any size counts toward nothing.
    assert!(summary_fits(&vec![txn(i64::MIN, "transfer")]));
}

#[test]
fn trend_guard_catches_month_zero_and_year_underflow() {
    assert!(trend_fits(2024, 3, 12));
    assert!(trend_fits(2024, 0, 0));
    assert!(!trend_fits(2024, 0, 1));
    assert!(!trend_fits(i32::MIN, 1, 1));
    assert!(trend_fits(i32::MIN, 2, 1));
    assert!(!trend_fits(i32::MIN, 2, 2));
}

#[test]
fn month_total_guard() {
    assert!(month_total_fits(1_000, -400));
    assert!(!month_total_fits(0, i64::MIN));
    assert!(!month_total_fits(i64::MAX, 1));
}

#[test]
fn payoff_step_guard() {
    let start = ymd(2026, 1, 1);
    let state = PayoffState {
        principal_cents: 10_000,
        months: 0,
        balance_cents: 10_000,
        total_paid_cents: 0,
        total_interest_cents: 0,
    };
    assert!(payoff_step_is_ok(start, 6_000, state, 100));
    // A payment that does not exceed the interest ends the schedule without any sum.
    assert!(payoff_step_is_ok(start, 100, state, i64::MAX));
    let big = PayoffState {
        principal_cents: i64::MAX,
        months: 0,
        balance_cents: i64::MAX,
        total_paid_cents: 0,
        total_interest_cents: 0,
    };
    assert!(!payoff_step_is_ok(start, 200, big, 100));
    // Paying off in a month whose date chrono cannot hold.
    let late = ymd(262142, 11, 1);
    assert!(!payoff_step_is_ok(late, 20_000, state, 0));
    assert!(payoff_step_is_ok(late, 5_000, state, 0));
}

#[test]
fn cycle_inputs_guard() {
    let on = ymd(2024, 3, 20);
    assert!(cycle_inputs_are_ok(&recurring("2024-01-15", "month", 1, "expense", 10), on));
    assert!(!cycle_inputs_are_ok(&recurring("2024/01/15", "month", 1, "expense", 10), on));
    assert!(!cycle_inputs_are_ok(&recurring("2024-01-15", "fortnight", 1, "expense", 10), on));
    // A zero count would never leave the anchor once the date is past it...
    assert!(!cycle_inputs_are_ok(&recurring("2024-01-15", "month", 0, "expense", 10), on));
    // ...but before the anchor only the first cycle is taken.
    assert!(cycle_inputs_are_ok(&recurring("2024-06-15", "month", 0, "expense", 10), on));
    assert!(!cycle_inputs_are_ok(&recurring("2024-01-15", "month", 1, "expense", 10), CalDate { year: 2024, month: 2, day: 30 }));
}

#[test]
fn progress_guard() {
    assert!(progress_fits(&recurring("2024-01-15", "month", 1, "expense", 1_500), -1_600));
    assert!(!progress_fits(&recurring("2024-01-15", "month", 1, "expense", 0), i64::MIN));
    assert!(progress_fits(&recurring("2024-01-15", "month", 1, "income", 0), i64::MIN));
    assert!(!progress_fits(&recurring("2024-01-15", "month", 1, "income", 1), i64::MIN));
}

#[test]
fn date_validity_check() {
    assert!(ymd(2024, 2, 29).is_wf());
    assert!(!CalDate { year: 2023, month: 2, day: 29 }.is_wf());
    assert!(!CalDate { year: 262143, month: 1, day: 1 }.is_wf());
    assert!(!CalDate { year: 2024, month: 13, day: 1 }.is_wf());
}

#[test]
fn cycle_walk_near_the_last_dates_chrono_holds() {
    // Only the steps the walk actually takes have to stay in range.
    let anchor = ymd(262142, 10, 15);
    let on = ymd(262142, 11, 10);
    assert!(cycle_walk_is_ok(anchor, "month", 1, on));
    assert_eq!(cycle_containing(anchor, "month", 1, on), (anchor, ymd(262142, 11, 15)));
    // Walking past November 15 would need a step into December of the last year, whose
    // month end chrono cannot compute.
    assert!(!cycle_walk_is_ok(anchor, "month", 1, ymd(262142, 11, 20)));
    let day_anchor = ymd(262142, 12, 20);
    assert!(cycle_walk_is_ok(day_anchor, "day", 10, ymd(262142, 12, 29)));
    assert!(!cycle_walk_is_ok(day_anchor, "day", 10, ymd(262142, 12, 30)));
    // Before the anchor only the first step is taken.
    assert!(cycle_walk_is_ok(day_anchor, "day", 0, ymd(262142, 12, 1)));
    assert!(!cycle_walk_is_ok(day_anchor, "day", 0, day_anchor));
}

#[test]
fn cycle_is_found_only_for_a_readable_item() {
    let on = ymd(2024, 3, 20);
    assert_eq!(
        try_cycle_on(&recurring("2024-01-15", "month", 1, "expense", 10), on),
        Some((ymd(2024, 3, 15), ymd(2024, 4, 15)))
    );
    assert_eq!(try_cycle_on(&recurring("15/01/2024", "month", 1, "expense", 10), on), None);
    assert_eq!(try_cycle_on(&recurring("2024-01-15", "month", -1, "expense", 10), on), None);
}
