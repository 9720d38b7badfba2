use budget_tracker::accounts::{account_balance, account_delete_blocker};
use budget_tracker::db::{fresh_import_tables, refuse_if_populated, seed_tag_names};
use budget_tracker::tags::{tag_delete_blocker, validate_parent};
use budget_tracker::transactions::{
    check_entry_kind, check_stored_kind, plan_account_transfer, search_pattern, signed_entry_amount,
    signed_update_amount, transfer_rows,
};

#[test]
fn validate_parent_rejects_self_parenting_but_allows_others() {
    assert!(validate_parent(1, Some(1)).is_err());
    assert!(validate_parent(1, Some(2)).is_ok());
    assert!(validate_parent(1, None).is_ok());
}

#[test]
fn self_parent_refusal_message() {
    assert_eq!(validate_parent(7, Some(7)).unwrap_err(), "a tag can't be its own parent");
}

#[test]
fn balance_is_starting_balance_plus_transaction_sum() {
    // Starting balance 10_000; transactions of -2_000 and +5_000.
    assert_eq!(account_balance(10_000, -2_000 + 5_000), 13_000);
}

#[test]
fn delete_refuses_when_transactions_recurring_or_budgets_still_reference_it() {
    // One budget still points at the account.
    let err = account_delete_blocker(0, 0, 1).unwrap();
    assert!(err.contains("budget"), "expected the budget to be mentioned, got: {err}");
    // With the blocking budget gone, the delete goes ahead.
    assert!(account_delete_blocker(0, 0, 0).is_none());
}

#[test]
fn account_blocker_counts_and_pluralizes_every_kind() {
    assert_eq!(
        account_delete_blocker(1, 2, 3).unwrap(),
        "Can't delete - 1 transaction and 2 recurring items and 3 budgets still linked to this account. Move or delete those first."
    );
    assert_eq!(
        account_delete_blocker(12, 0, 0).unwrap(),
        "Can't delete - 12 transactions still linked to this account. Move or delete those first."
    );
}

#[test]
fn delete_allows_plain_transaction_tagging_but_blocks_recurring_and_budgets() {
    // A tag used only by transactions: nothing blocks the delete.
    assert!(tag_delete_blocker(0, 0).is_none());
    // A tag with a live recurring definition is blocked.
    let err = tag_delete_blocker(1, 0).unwrap();
    assert!(err.contains("recurring"), "expected the recurring item to be mentioned, got: {err}");
}

#[test]
fn tag_blocker_message_names_both_kinds() {
    assert_eq!(
        tag_delete_blocker(1, 2).unwrap(),
        "Can't delete - 1 recurring item and 2 budgets still use this category. Remove those first."
    );
}

#[test]
fn same_ledger_transfer_is_excluded_from_income_expense_totals() {
    let plan = plan_account_transfer("personal", "personal", 5000);
    assert_eq!(plan.from_kind, "transfer");
    assert_eq!(plan.to_kind, "transfer");
    assert_eq!(plan.from_amount_cents, -5000);
    assert_eq!(plan.to_amount_cents, 5000);
    assert_eq!(plan.linked_group_id.len(), 36);
}

#[test]
fn cross_ledger_transfer_becomes_an_expense_income_pair() {
    let plan = plan_account_transfer("business", "personal", 5000);
    assert_eq!(plan.from_kind, "expense", "money leaving the business ledger counts as an expense there");
    assert_eq!(plan.to_kind, "income", "money entering the personal ledger counts as income there");
    assert_eq!(plan.from_amount_cents, -5000);
    assert_eq!(plan.to_amount_cents, 5000);
}

#[test]
fn transfer_amount_is_always_normalized_to_a_positive_magnitude() {
    let plan = plan_account_transfer("personal", "personal", -5000);
    assert_eq!(plan.from_amount_cents, -5000);
    assert_eq!(plan.to_amount_cents, 5000);
}

#[test]
fn transfers_get_distinct_group_ids() {
    let a = plan_account_transfer("personal", "personal", 1);
    let b = plan_account_transfer("personal", "personal", 1);
    assert_ne!(a.linked_group_id, b.linked_group_id);
    assert_eq!(a.linked_group_id.chars().filter(|c| *c == '-').count(), 4);
}

#[test]
fn entry_amounts_take_the_sign_of_their_kind() {
    assert_eq!(signed_entry_amount("expense", 1250), Ok(-1250));
    assert_eq!(signed_entry_amount("expense", -1250), Ok(-1250));
    assert_eq!(signed_entry_amount("income", -800), Ok(800));
    assert_eq!(
        signed_entry_amount("transfer", 5).unwrap_err(),
        "type must be 'expense' or 'income'"
    );
    assert!(check_entry_kind("income").is_ok());
    assert!(check_entry_kind("Income").is_err());
}

#[test]
fn edited_transfer_keeps_its_side() {
    assert_eq!(signed_update_amount("transfer", 700, Some(-100)), -700);
    assert_eq!(signed_update_amount("transfer", -700, Some(100)), 700);
    assert_eq!(signed_update_amount("expense", 700, None), -700);
    assert_eq!(signed_update_amount("income", -700, None), 700);
    assert_eq!(
        check_stored_kind("refund").unwrap_err(),
        "type must be 'expense', 'income', or 'transfer'"
    );
    assert!(check_stored_kind("transfer").is_ok());
}

#[test]
fn search_pattern_trims_and_skips_blank_queries() {
    assert_eq!(search_pattern(Some("  coffee \t")), Some("%coffee%".to_string()));
    assert_eq!(search_pattern(Some("   ")), None);
    assert_eq!(search_pattern(Some("")), None);
    assert_eq!(search_pattern(None), None);
    assert_eq!(search_pattern(Some("\u{3000}rent\u{a0}")), Some("%rent%".to_string()));
}

#[test]
fn restore_refuses_a_populated_database() {
    assert!(refuse_if_populated("accounts", 0).is_ok());
    assert_eq!(
        refuse_if_populated("recurring items", 2).unwrap_err(),
        "This database already has recurring items in it - restoring a backup is only supported into a fresh install."
    );
    let tables = fresh_import_tables();
    assert_eq!(tables.len(), 4);
    assert_eq!(tables[2], ("recurring", "recurring items"));
    assert_eq!(seed_tag_names(), vec!["Owner's Draw", "Business Loan", "Loan Repayment"]);
}

#[test]
fn transfer_rows_carry_the_given_group_id() {
    let plan = transfer_rows("business", "personal", -2_500, "group-7".to_string());
    assert_eq!(plan.linked_group_id, "group-7");
    assert_eq!(plan.from_kind, "expense");
    assert_eq!(plan.to_kind, "income");
    assert_eq!(plan.from_amount_cents, -2_500);
    assert_eq!(plan.to_amount_cents, 2_500);
    let same = transfer_rows("personal", "personal", 700, "g".to_string());
    assert_eq!(same.from_kind, "transfer");
    assert_eq!(same.to_kind, "transfer");
}
