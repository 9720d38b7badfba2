use budget_tracker::subscriptions::{occurrence_amount, plan_subscription_edit, resume_hint, subscription_rate};

#[test]
fn subscription_rate_takes_its_sign_from_the_kind() {
    assert_eq!(subscription_rate("expense", 1_599), -1_599);
    assert_eq!(subscription_rate("expense", -1_599), -1_599);
    assert_eq!(subscription_rate("income", -250_000), 250_000);
    assert_eq!(subscription_rate("income", 0), 0);
}

#[test]
fn cadence_change_regenerates_projected_occurrences() {
    let same = plan_subscription_edit("expense", 1_799, "month", 1, "month", 1);
    assert_eq!(same.signed_amount_cents, -1_799);
    assert!(!same.regenerate_occurrences);

    let new_unit = plan_subscription_edit("expense", 1_799, "month", 1, "year", 1);
    assert!(new_unit.regenerate_occurrences);

    let new_count = plan_subscription_edit("income", -500, "week", 2, "week", 4);
    assert!(new_count.regenerate_occurrences);
    assert_eq!(new_count.signed_amount_cents, 500);
}

#[test]
fn hand_edited_occurrence_keeps_its_sign() {
    assert_eq!(occurrence_amount(-1_500, 1_650), -1_650);
    assert_eq!(occurrence_amount(-1_500, -1_650), -1_650);
    assert_eq!(occurrence_amount(2_000, -1_650), 1_650);
    assert_eq!(occurrence_amount(0, -7), 7);
}

#[test]
fn pause_runs_until_the_given_date_or_the_next_charge() {
    assert_eq!(resume_hint(Some("2026-05-01".to_string()), "2026-04-15".to_string()), "2026-05-01");
    assert_eq!(resume_hint(None, "2026-04-15".to_string()), "2026-04-15");
}
