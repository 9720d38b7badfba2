//! Rules on accounts: the balance of an account, and the refusal to delete one that
//! transactions, recurring items or budgets still point at.

use crate::text::{count_phrase, count_phrase_text, join_strings, join_texts};
use vstd::prelude::*;

verus! {

/// The balance of an account: its starting balance plus the sum of its transactions.
pub fn account_balance(starting_balance_cents: i64, transactions_sum_cents: i64) -> (r: i64)
    requires
        i64::MIN <= starting_balance_cents + transactions_sum_cents <= i64::MAX,
    ensures
        r == starting_balance_cents + transactions_sum_cents,
{
    starting_balance_cents + transactions_sum_cents
}

/// The pieces of the refusal to delete an account: one per kind of item still linked to it.
pub open spec fn account_blocker_parts(txn_count: int, recurring_count: int, budget_count: int) -> Seq<Seq<char>> {
    (if txn_count > 0 {
        seq![count_phrase(txn_count, "transaction"@)]
    } else {
        Seq::empty()
    }) + (if recurring_count > 0 {
        seq![count_phrase(recurring_count, "recurring item"@)]
    } else {
        Seq::empty()
    }) + (if budget_count > 0 {
        seq![count_phrase(budget_count, "budget"@)]
    } else {
        Seq::empty()
    })
}

/// Why an account cannot be deleted, if it cannot: transactions, recurring items or
/// budgets still point at it. The message counts each kind, instead of a raw foreign-key
/// error.
pub fn account_delete_blocker(txn_count: i64, recurring_count: i64, budget_count: i64) -> (r: Option<String>)
    ensures
        r is None <==> txn_count <= 0 && recurring_count <= 0 && budget_count <= 0,
        r matches Some(m) ==> m@ == "Can't delete - "@ + join_texts(
            account_blocker_parts(txn_count as int, recurring_count as int, budget_count as int),
            " and "@,
        ) + " still linked to this account. Move or delete those first."@,
{
    if txn_count > 0 || recurring_count > 0 || budget_count > 0 {
        let mut parts: Vec<String> = Vec::new();
        if txn_count > 0 {
            parts.push(count_phrase_text(txn_count, "transaction"));
        }
        if recurring_count > 0 {
            parts.push(count_phrase_text(recurring_count, "recurring item"));
        }
        if budget_count > 0 {
            parts.push(count_phrase_text(budget_count, "budget"));
        }
        let mut m = String::from_str("Can't delete - ");
        m.append(join_strings(&parts, " and ").as_str());
        m.append(" still linked to this account. Move or delete those first.");
        proof {
            assert(parts@.map_values(|p: String| p@) =~= account_blocker_parts(
                txn_count as int,
                recurring_count as int,
                budget_count as int,
            ));
        }
        return Some(m);
    }
    None
}

} // verus!
