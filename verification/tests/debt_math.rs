use budget_tracker::calendar::CalDate;
use budget_tracker::debt_math::{calculate_payoff, payoff_start, payoff_step, DebtPayoffResult, PayoffStep, MAX_MONTHS};

/// The schedule with the interest of each month rounded from `balance * rate / 12`.
fn payoff(start: CalDate, principal_cents: i64, monthly_payment_cents: i64, interest_rate_bps: i64) -> DebtPayoffResult {
    let monthly_rate = (interest_rate_bps as f64 / 10_000.0) / 12.0;
    calculate_payoff(start, principal_cents, monthly_payment_cents, |balance: i64| {
        (balance as f64 * monthly_rate).round() as i64
    })
    .unwrap()
}

fn ymd(y: i32, m: u32, d: u32) -> CalDate {
    CalDate::from_ymd_opt(y, m, d).unwrap()
}

#[test]
fn zero_interest_pays_off_in_exact_installments() {
    let start = ymd(2026, 1, 1);
    let result = payoff(start, 120_000, 10_000, 0);
    assert!(!result.never_pays_off);
    assert_eq!(result.months, 12);
    assert_eq!(result.total_paid_cents, 120_000);
    assert_eq!(result.total_interest_cents, 0);
    assert_eq!(result.payoff_date.as_deref(), Some("2027-01-01"));
}

#[test]
fn interest_bearing_debt_matches_hand_computed_schedule() {
    // $100 at 12%/yr (1% monthly): month 1 accrues $1.00 interest, $60 payment leaves $41.00
    // owed; month 2 accrues $0.41, and $60 more than covers the remaining $41.41.
    let start = ymd(2026, 1, 1);
    let result = payoff(start, 10_000, 6_000, 1_200);
    assert!(!result.never_pays_off);
    assert_eq!(result.months, 2);
    assert_eq!(result.total_interest_cents, 141);
    assert_eq!(result.total_paid_cents, 10_141);
    assert_eq!(result.payoff_date.as_deref(), Some("2026-03-01"));
}

#[test]
fn payment_below_interest_never_pays_off() {
    let start = ymd(2026, 1, 1);
    // $1000 at 24%/yr (2% monthly) accrues $20/month in interest - a $1 payment never dents it.
    let result = payoff(start, 100_000, 100, 2_400);
    assert!(result.never_pays_off);
    assert_eq!(result.payoff_date, None);
    assert_eq!(result.months, 0);
}

#[test]
fn zero_principal_pays_off_immediately() {
    let start = ymd(2026, 1, 1);
    let result = payoff(start, 0, 5_000, 1_000);
    assert!(!result.never_pays_off);
    assert_eq!(result.months, 0);
    assert_eq!(result.total_paid_cents, 0);
    assert_eq!(result.payoff_date.as_deref(), Some("2026-01-01"));
}

#[test]
fn payoff_date_clamps_to_month_end() {
    let start = ymd(2026, 1, 31);
    let result = payoff(start, 20_000, 10_000, 0);
    assert_eq!(result.months, 2);
    assert_eq!(result.payoff_date.as_deref(), Some("2026-03-31"));
    let result = payoff(start, 10_000, 10_000, 0);
    assert_eq!(result.payoff_date.as_deref(), Some("2026-02-28"));
}

#[test]
fn cap_ends_a_schedule_that_barely_moves() {
    // One cent of principal a month: the cap is hit long before the balance is gone.
    let start = ymd(2026, 1, 1);
    let result = payoff(start, 100_000, 1, 0);
    assert!(result.never_pays_off);
    assert_eq!(result.payoff_date, None);
    assert_eq!(result.months, MAX_MONTHS);
    assert_eq!(result.total_paid_cents, MAX_MONTHS);
    assert_eq!(result.total_interest_cents, 0);
}

#[test]
fn paid_off_total_is_principal_plus_interest() {
    let start = ymd(2026, 1, 1);
    let result = payoff(start, 500_000, 20_000, 1_999);
    assert!(!result.never_pays_off);
    assert_eq!(result.total_paid_cents, 500_000 + result.total_interest_cents);
    assert!(result.total_interest_cents > 0);
}

#[test]
fn negative_principal_pays_off_on_start_date() {
    let result = payoff(ymd(2026, 5, 9), -50, 100, 500);
    assert_eq!(result.months, 0);
    assert_eq!(result.payoff_date.as_deref(), Some("2026-05-09"));
}

#[test]
fn a_month_that_would_overflow_gives_no_schedule() {
    let start = ymd(2026, 1, 1);
    // An interest figure that pushes the balance past the i64 range.
    assert!(calculate_payoff(start, i64::MAX - 10, i64::MAX, |_: i64| 100).is_none());
    // A payoff date past December of the last year chrono holds.
    assert!(calculate_payoff(ymd(262142, 11, 15), 100, 1_000, |_: i64| 0).is_none());
}

#[test]
fn single_steps_follow_the_schedule() {
    let start = ymd(2026, 1, 1);
    let first = match payoff_start(start, 10_000) {
        PayoffStep::Continue(s) => s,
        PayoffStep::Finished(_) => panic!("a positive principal starts a schedule"),
    };
    assert_eq!(first.balance_cents, 10_000);
    let second = match payoff_step(start, 6_000, first, 100) {
        PayoffStep::Continue(s) => s,
        PayoffStep::Finished(_) => panic!("the balance is not covered yet"),
    };
    assert_eq!(second.months, 1);
    assert_eq!(second.balance_cents, 4_100);
    assert_eq!(second.total_paid_cents, 6_000);
    assert_eq!(second.total_interest_cents, 100);
    match payoff_step(start, 6_000, second, 41) {
        PayoffStep::Finished(r) => {
            assert_eq!(r.months, 2);
            assert_eq!(r.total_paid_cents, 10_141);
            assert_eq!(r.payoff_date.as_deref(), Some("2026-03-01"));
        }
        PayoffStep::Continue(_) => panic!("the payment covers the rest"),
    }
}

#[test]
fn payment_equal_to_the_first_interest_never_pays_off() {
    // 12%/yr on 1000.00 is 10.00 a month, exactly the payment.
    let result = payoff(ymd(2026, 1, 1), 100_000, 1_000, 1_200);
    assert!(result.never_pays_off);
    assert_eq!(result.payoff_date, None);
    assert_eq!(result.months, 0);
    assert_eq!(result.total_paid_cents, 0);
    assert_eq!(result.total_interest_cents, 0);
}
