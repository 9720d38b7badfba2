use budget_tracker::legacy_import::{
    budget_account_choice, dropped_fields_note, legacy_import_summary, migrated_notes, plan_legacy_import,
    resolve_subscription_tag, BudgetChoice, LegacyAccount, LegacyBudget, LegacySubscription, LegacyTag,
    SubscriptionChoice, TagChoiceAction,
};

fn account(id: i64, name: &str, ledger: &str) -> LegacyAccount {
    LegacyAccount {
        id,
        name: name.to_string(),
        ledger: ledger.to_string(),
        starting_balance_cents: 0,
        active: true,
        is_default: id == 1,
        created_at: "2024-01-01T00:00:00".to_string(),
        updated_at: "2024-01-01T00:00:00".to_string(),
    }
}

fn tag(id: i64, name: &str) -> LegacyTag {
    LegacyTag { id, name: name.to_string(), color: Some("#3987e5".to_string()) }
}

fn sub(id: i64, name: &str, tag_ids: &str, end_date: Option<&str>, active: bool) -> LegacySubscription {
    LegacySubscription {
        id,
        account_id: 1,
        name: name.to_string(),
        amount_cents: 999,
        kind: "expense".to_string(),
        interval_unit: "month".to_string(),
        interval_count: 1,
        start_date: "2024-01-01".to_string(),
        next_charge_date: "2024-02-01".to_string(),
        end_date: end_date.map(|d| d.to_string()),
        active,
        paused_until: None,
        notes: None,
        tag_ids: tag_ids.to_string(),
        created_at: "2024-01-01T00:00:00".to_string(),
        updated_at: "2024-01-01T00:00:00".to_string(),
    }
}

fn budget(id: i64, ledger: Option<&str>, tag_id: Option<i64>) -> LegacyBudget {
    LegacyBudget {
        id,
        ledger: ledger.map(|l| l.to_string()),
        tag_id,
        amount_cents: 10_000,
        show_on_dashboard: true,
        created_at: "2024-01-01T00:00:00".to_string(),
        updated_at: "2024-01-01T00:00:00".to_string(),
    }
}

/// The synthetic pre-Recurring backup: a subscription with one tag (no review), one with two
/// tags of which one is already claimed (review), two untagged ones (one inactive with an end
/// date), a budget whose ledger matches two accounts (review), one matching exactly one account,
/// and one with no ledger at all.
fn fixture() -> (Vec<LegacyAccount>, Vec<LegacyTag>, Vec<LegacySubscription>, Vec<LegacyBudget>) {
    (
        vec![account(1, "Checking", "personal"), account(2, "Savings", "personal"), account(3, "Business Checking", "business")],
        vec![tag(1, "Groceries"), tag(2, "Rent"), tag(3, "Netflix"), tag(4, "Streaming")],
        vec![
            sub(1, "Netflix", "3", None, true),
            sub(2, "Spotify", "3|4", None, true),
            sub(3, "Gym Membership", "", None, true),
            sub(4, "Old Unused Sub", "", Some("2023-06-01"), false),
        ],
        vec![budget(1, Some("personal"), Some(1)), budget(2, Some("business"), Some(2)), budget(3, None, None)],
    )
}

#[test]
fn preview_then_apply_resolves_and_imports_correctly() {
    let (accounts, tags, subscriptions, budgets) = fixture();
    let plan = plan_legacy_import(&accounts, &tags, 2, &subscriptions, 2, &budgets);

    assert_eq!(plan.accounts, 3);
    assert_eq!(plan.tags, 4);
    assert_eq!(plan.transactions, 2);
    assert_eq!(plan.occurrences_dropped, 2);
    assert_eq!(plan.subscription_resolutions.len(), 4);
    assert_eq!(plan.budget_resolutions.len(), 3);

    let sub = |id: i64| plan.subscription_resolutions.iter().find(|r| r.subscription_id == id).unwrap();
    let netflix = sub(1);
    assert!(!netflix.needs_review);
    assert_eq!(netflix.suggested_tag_id, Some(3));

    let spotify = sub(2);
    assert!(spotify.needs_review, "two original tags should always force a review");
    assert_eq!(spotify.suggested_tag_id, Some(4), "tag 3 was already claimed by Netflix");

    let gym = sub(3);
    assert!(!gym.needs_review);
    assert_eq!(gym.suggested_tag_id, None);
    assert_eq!(gym.suggested_new_tag_name, "Gym Membership");
    assert!(gym.dropped_fields_note.is_none());

    let old_unused = sub(4);
    assert!(!old_unused.needs_review);
    assert_eq!(old_unused.suggested_tag_id, None);
    let note = old_unused.dropped_fields_note.as_deref().unwrap();
    assert!(note.contains("had an end date"), "an end date has no Recurring equivalent, so it's still noted");
    assert!(!note.contains("was paused"));

    let budget = |id: i64| plan.budget_resolutions.iter().find(|r| r.budget_id == id).unwrap();
    let personal_budget = budget(1);
    assert!(personal_budget.needs_review, "ledger shared by two accounts should force a review");
    assert_eq!(personal_budget.matching_accounts.len(), 2);
    let business_budget = budget(2);
    assert!(!business_budget.needs_review);
    assert_eq!(business_budget.suggested_account_id, Some(3));
    let overall_budget = budget(3);
    assert!(!overall_budget.needs_review);
    assert_eq!(overall_budget.suggested_account_id, None);

    // Carry every suggestion forward as-is, except two deliberate overrides (Spotify's tag, and
    // the personal budget's account), to prove a reviewed choice wins over the suggestion.
    let subscription_choices: Vec<SubscriptionChoice> = plan
        .subscription_resolutions
        .iter()
        .map(|r| {
            if r.subscription_id == 2 {
                SubscriptionChoice { subscription_id: 2, tag_id: Some(2), new_tag_name: None }
            } else {
                SubscriptionChoice {
                    subscription_id: r.subscription_id,
                    tag_id: r.suggested_tag_id,
                    new_tag_name: if r.suggested_tag_id.is_none() { Some(r.suggested_new_tag_name.clone()) } else { None },
                }
            }
        })
        .collect();
    let budget_choices: Vec<BudgetChoice> = plan
        .budget_resolutions
        .iter()
        .map(|r| {
            if r.budget_id == 1 {
                BudgetChoice { budget_id: 1, account_id: Some(2) }
            } else {
                BudgetChoice { budget_id: r.budget_id, account_id: r.suggested_account_id }
            }
        })
        .collect();

    let mut tags_created = 0usize;
    let mut recurring_tags = Vec::new();
    for s in &subscriptions {
        match resolve_subscription_tag(s.id, &s.name, &subscription_choices).expect("apply should succeed") {
            TagChoiceAction::Existing(id) => recurring_tags.push(id),
            TagChoiceAction::CreateTag(name) => {
                tags_created += 1;
                recurring_tags.push(100 + tags_created as i64);
                assert!(name == "Gym Membership" || name == "Old Unused Sub");
            }
        }
    }
    assert_eq!(recurring_tags[0], 3);
    assert_eq!(recurring_tags[1], 2, "override should have won over the auto-suggested tag 4");
    assert_ne!(recurring_tags[2], recurring_tags[3], "each new tag must be distinct");

    let old_notes = migrated_notes(&subscriptions[3].notes, &dropped_fields_note(&subscriptions[3]));
    assert!(old_notes.unwrap().contains("had an end date"));

    assert_eq!(budget_account_choice(1, &budget_choices), Some(2), "override should have won over the auto-suggested account 1");
    assert_eq!(budget_account_choice(2, &budget_choices), Some(3));
    assert_eq!(budget_account_choice(3, &budget_choices), None);

    let summary = legacy_import_summary(accounts.len(), tags.len(), tags_created, 2, subscriptions.len(), budgets.len(), 2);
    assert_eq!(summary.accounts, 3);
    assert_eq!(summary.tags, 6, "4 original tags + Gym Membership + Old Unused Sub");
    assert_eq!(summary.transactions, 2);
    assert_eq!(summary.recurring, 4);
    assert_eq!(summary.budgets, 3);
    assert_eq!(summary.occurrences_dropped, 2);
}

#[test]
fn missing_or_empty_choices_are_refused() {
    let choices = vec![SubscriptionChoice { subscription_id: 5, tag_id: None, new_tag_name: None }];
    match resolve_subscription_tag(9, "Gym", &choices) {
        Err(m) => assert_eq!(m, "Missing a resolution for subscription #9 (Gym)"),
        Ok(_) => panic!("expected a refusal"),
    }
    match resolve_subscription_tag(5, "Gym", &choices) {
        Err(m) => assert_eq!(m, "Subscription #5 (Gym) needs either an existing tag or a new tag name"),
        Ok(_) => panic!("expected a refusal"),
    }
}

#[test]
fn migrated_notes_keep_existing_notes() {
    assert_eq!(migrated_notes(&Some("card 1234".to_string()), &Some("was paused".to_string())), Some("card 1234 [migrated: was paused]".to_string()));
    assert_eq!(migrated_notes(&None, &Some("had an end date".to_string())), Some("[migrated: had an end date]".to_string()));
    assert_eq!(migrated_notes(&Some("x".to_string()), &None), Some("x".to_string()));
    assert_eq!(migrated_notes(&None, &None), None);
}

#[test]
fn paused_and_ended_subscription_notes_both() {
    let mut s = sub(1, "A", "", Some("2023-01-01"), false);
    s.paused_until = Some("2023-02-01".to_string());
    assert_eq!(dropped_fields_note(&s).as_deref(), Some("was paused, had an end date"));
}
