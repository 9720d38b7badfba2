use budget_tracker::budgets::{budget_month_amount, month_bounds, spend_for_tag_recursive, tag_breakdown, TagSpend};
use budget_tracker::dashboard::{month_summary, month_total, trend_months};
use budget_tracker::models::{Tag, Transaction};

fn tag(id: i64, name: &str, parent_id: Option<i64>) -> Tag {
    Tag { id, name: name.to_string(), color: None, parent_id }
}

/// Utilities (1) -> Electricity (2), Water (3) -> Meter fee (4, a grandchild of Utilities),
/// with the January expenses tagged directly with each: Electricity 100.00 on Checking and
/// 20.00 on Savings, Water 50.00, Meter fee 3.00. `account` keeps only one account's spend.
fn hierarchy(account: Option<i64>) -> Vec<TagSpend> {
    let checking = account.is_none() || account == Some(1);
    let savings = account.is_none() || account == Some(2);
    let electricity = if checking { 10_000 } else { 0 } + if savings { 2_000 } else { 0 };
    vec![
        TagSpend { tag: tag(2, "Electricity", Some(1)), direct_spend_cents: electricity },
        TagSpend { tag: tag(4, "Meter fee", Some(3)), direct_spend_cents: if checking { 300 } else { 0 } },
        TagSpend { tag: tag(1, "Utilities", None), direct_spend_cents: 0 },
        TagSpend { tag: tag(3, "Water", Some(1)), direct_spend_cents: if checking { 5_000 } else { 0 } },
    ]
}

fn index_of(nodes: &[TagSpend], id: i64) -> usize {
    nodes.iter().position(|n| n.tag.id == id).unwrap()
}

#[test]
fn recursive_spend_rolls_up_through_grandchildren() {
    let nodes = hierarchy(None);
    assert_eq!(month_bounds(2024, 1), ("2024-01-01".to_string(), "2024-02-01".to_string()));
    // Utilities (any account) = electricity (10000 + 2000) + water (5000) + meter fee (300).
    assert_eq!(spend_for_tag_recursive(&nodes, index_of(&nodes, 1)), 17_300);
    // Water alone rolls up its one child (meter fee).
    assert_eq!(spend_for_tag_recursive(&nodes, index_of(&nodes, 3)), 5_300);
    // A leaf with no children is just its own direct spend.
    assert_eq!(spend_for_tag_recursive(&nodes, index_of(&nodes, 4)), 300);
}

#[test]
fn account_filter_narrows_the_recursive_total() {
    let checking = hierarchy(Some(1));
    assert_eq!(spend_for_tag_recursive(&checking, index_of(&checking, 1)), 15_300);
    let savings = hierarchy(Some(2));
    assert_eq!(spend_for_tag_recursive(&savings, index_of(&savings, 1)), 2_000);
}

#[test]
fn tag_breakdown_lists_direct_children_with_their_own_rollup() {
    let nodes = hierarchy(None);
    let breakdown = tag_breakdown(&nodes, index_of(&nodes, 1));
    assert_eq!(breakdown.len(), 2, "Utilities has two direct children");
    assert_eq!(breakdown[0].tag.name, "Electricity");
    assert_eq!(breakdown[0].spent_cents, 12_000);
    assert_eq!(breakdown[1].tag.name, "Water");
    assert_eq!(breakdown[1].spent_cents, 5_300, "Water's own rollup includes its Meter fee child");
}

#[test]
fn parent_total_is_own_spend_plus_breakdown() {
    let mut nodes = hierarchy(None);
    nodes[2].direct_spend_cents = 700; // an expense tagged with Utilities itself
    let root = index_of(&nodes, 1);
    let total: i64 = tag_breakdown(&nodes, root).iter().map(|c| c.spent_cents).sum();
    assert_eq!(spend_for_tag_recursive(&nodes, root), 700 + total);
    assert_eq!(spend_for_tag_recursive(&nodes, root), 18_000);
}

#[test]
fn month_override_takes_effect_and_reverts_on_clear() {
    let nodes = hierarchy(None);
    assert_eq!(budget_month_amount(20_000, None), (20_000, false));
    assert_eq!(budget_month_amount(20_000, Some(30_000)), (30_000, true));
    assert_eq!(spend_for_tag_recursive(&nodes, index_of(&nodes, 1)), 17_300, "spend itself is unaffected by the override");
    // A different month never had an override, so it still sees the default amount.
    assert_eq!(budget_month_amount(20_000, None), (20_000, false));
}

fn txn(id: i64, account_id: i64, date: &str, amount_cents: i64, kind: &str) -> Transaction {
    Transaction {
        id,
        account_id,
        date: date.to_string(),
        amount_cents,
        kind: kind.to_string(),
        description: "Test".to_string(),
        notes: None,
        linked_group_id: None,
        tags: vec![],
        created_at: date.to_string(),
        updated_at: date.to_string(),
    }
}

#[test]
fn totals_exclude_transfers_and_out_of_month_transactions() {
    // February's rows, as the month's range [2024-02-01, 2024-03-01) selects them: the
    // January 31 and March 1 expenses fall outside it.
    let (start, end) = month_bounds(2024, 2);
    let all = vec![
        txn(1, 1, "2024-02-05", 300_00, "income"),
        txn(2, 1, "2024-02-10", -120_00, "expense"),
        txn(3, 1, "2024-02-15", -50_00, "transfer"),
        txn(4, 1, "2024-01-31", -999_00, "expense"),
        txn(5, 1, "2024-03-01", -999_00, "expense"),
    ];
    let in_month: Vec<Transaction> =
        all.into_iter().filter(|t| t.date.as_str() >= start.as_str() && t.date.as_str() < end.as_str()).collect();
    let summary = month_summary(in_month);
    assert_eq!(summary.transactions.len(), 3, "only February's three rows should be included");
    assert_eq!(summary.total_income_cents, 300_00);
    assert_eq!(summary.total_expense_cents, 120_00, "the transfer should not count as an expense");
    assert_eq!(summary.net_cents, 180_00);
}

#[test]
fn account_filter_narrows_the_summary() {
    let all = vec![txn(1, 1, "2024-02-05", 100_00, "income"), txn(2, 2, "2024-02-05", 500_00, "income")];
    let summary = month_summary(all.into_iter().filter(|t| t.account_id == 1).collect());
    assert_eq!(summary.transactions.len(), 1);
    assert_eq!(summary.total_income_cents, 100_00);
}

#[test]
fn december_rolls_over_to_next_january_for_the_month_boundary() {
    let (start, end) = month_bounds(2024, 12);
    assert_eq!(start, "2024-12-01");
    assert_eq!(end, "2025-01-01");
    let all = vec![txn(1, 1, "2024-12-31", -50_00, "expense"), txn(2, 1, "2025-01-01", -999_00, "expense")];
    let in_month: Vec<Transaction> =
        all.into_iter().filter(|t| t.date.as_str() >= start.as_str() && t.date.as_str() < end.as_str()).collect();
    let summary = month_summary(in_month);
    assert_eq!(summary.transactions.len(), 1);
    assert_eq!(summary.total_expense_cents, 50_00);
}

#[test]
fn monthly_trend_spans_a_year_boundary_oldest_first_including_empty_months() {
    let months = trend_months(2024, 2, 3);
    assert_eq!(months, vec![(2023, 12), (2024, 1), (2024, 2)]);
    // December: 500.00 income, 200.00 expense; January: nothing; February: 100.00 income.
    let trend = vec![
        month_total(2023, 12, 500_00, -200_00),
        month_total(2024, 1, 0, 0),
        month_total(2024, 2, 100_00, 0),
    ];
    assert_eq!(trend.len(), 3);
    assert_eq!((trend[0].year, trend[0].month), (2023, 12), "oldest month first");
    assert_eq!(trend[0].total_income_cents, 500_00);
    assert_eq!(trend[0].total_expense_cents, 200_00);
    assert_eq!(trend[0].net_cents, 300_00);
    assert_eq!((trend[1].year, trend[1].month), (2024, 1));
    assert_eq!(trend[1].total_income_cents, 0);
    assert_eq!(trend[1].total_expense_cents, 0);
    assert_eq!(trend[1].net_cents, 0);
    assert_eq!((trend[2].year, trend[2].month), (2024, 2), "requested month is last");
    assert_eq!(trend[2].total_income_cents, 100_00);
}

#[test]
fn month_bounds_pad_years_and_months() {
    assert_eq!(month_bounds(987, 3), ("0987-03-01".to_string(), "0987-04-01".to_string()));
    assert_eq!(month_bounds(-5, 12), ("-005-12-01".to_string(), "-004-01-01".to_string()));
    assert_eq!(month_bounds(12345, 10).0, "12345-10-01");
    assert!(trend_months(2024, 5, 0).is_empty());
    assert_eq!(trend_months(2024, 1, 2), vec![(2023, 12), (2024, 1)]);
}

#[test]
fn consecutive_month_ranges_tile_the_calendar() {
    for (year, month) in [(2024, 1), (2024, 9), (2024, 12), (999, 12), (0, 1)] {
        let (start, end) = month_bounds(year, month);
        assert!(start < end, "{start} should come before {end}");
        let (ny, nm) = if month == 12 { (year + 1, 1) } else { (year, month + 1) };
        assert_eq!(end, month_bounds(ny, nm).0);
    }
}
