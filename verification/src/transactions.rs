//! Rules that shape a transaction before it is stored: the sign of its amount follows its
//! kind, a move between two accounts becomes a linked pair of rows, and a search query
//! becomes a `LIKE` pattern.

use crate::text::{text_eq, trim_text, trimmed};
use vstd::prelude::*;

verus! {

pub open spec fn is_hex_lower(c: char) -> bool {
    ('0' <= c <= '9') || ('a' <= c <= 'f')
}

/// The hyphenated lowercase text of a UUID, as `uuid::Uuid`'s `Display` writes it:
/// `8-4-4-4-12` hex digits.
pub open spec fn is_hyphenated_uuid(s: Seq<char>) -> bool {
    &&& s.len() == 36
    &&& forall|i: int|
        0 <= i < 36 ==> if i == 8 || i == 13 || i == 18 || i == 23 {
            s[i] == '-'
        } else {
            is_hex_lower(#[trigger] s[i])
        }
}

/// `uuid::Uuid::new_v4().to_string()`: a fresh random identifier, in hyphenated lowercase
/// form. What it holds is chance; only its form is stated.
#[verifier::external_body]
fn new_v4_text() -> (r: String)
    ensures
        is_hyphenated_uuid(r@),
{
    uuid::Uuid::new_v4().to_string()
}

/// Whether `kind` is `"expense"` or `"income"`, the kinds a user enters directly.
pub open spec fn is_entry_kind(kind: Seq<char>) -> bool {
    kind == "expense"@ || kind == "income"@
}

pub open spec fn abs(x: int) -> int {
    if x < 0 {
        -x
    } else {
        x
    }
}

/// Refuses a kind other than `"expense"` or `"income"`.
pub fn check_entry_kind(kind: &str) -> (r: Result<(), String>)
    ensures
        r is Ok <==> is_entry_kind(kind@),
        r matches Err(e) ==> e@ == "type must be 'expense' or 'income'"@,
{
    if !text_eq(kind, "expense") && !text_eq(kind, "income") {
        return Err(String::from_str("type must be 'expense' or 'income'"));
    }
    Ok(())
}

/// The stored amount of a new expense or income: an expense is stored negative and an
/// income positive, whatever sign the amount was entered with.
pub fn signed_entry_amount(kind: &str, amount_cents: i64) -> (r: Result<i64, String>)
    requires
        is_entry_kind(kind@) ==> amount_cents != i64::MIN,
    ensures
        r is Ok <==> is_entry_kind(kind@),
        r matches Err(e) ==> e@ == "type must be 'expense' or 'income'"@,
        r matches Ok(v) ==> v == (if kind@ == "expense"@ {
            -abs(amount_cents as int)
        } else {
            abs(amount_cents as int)
        }),
{
    check_entry_kind(kind)?;
    let magnitude = if amount_cents < 0 {
        -amount_cents
    } else {
        amount_cents
    };
    if text_eq(kind, "expense") {
        Ok(-magnitude)
    } else {
        Ok(magnitude)
    }
}

/// Whether `kind` is one a stored transaction may be edited to.
pub open spec fn is_stored_kind(kind: Seq<char>) -> bool {
    kind == "expense"@ || kind == "income"@ || kind == "transfer"@
}

/// Refuses a kind other than `"expense"`, `"income"` or `"transfer"`.
pub fn check_stored_kind(kind: &str) -> (r: Result<(), String>)
    ensures
        r is Ok <==> is_stored_kind(kind@),
        r matches Err(e) ==> e@ == "type must be 'expense', 'income', or 'transfer'"@,
{
    if !text_eq(kind, "expense") && !text_eq(kind, "income") && !text_eq(kind, "transfer") {
        return Err(String::from_str("type must be 'expense', 'income', or 'transfer'"));
    }
    Ok(())
}

/// The stored amount of an edited transaction. An expense is negative and an income
/// positive; a transfer leg keeps the side it was on (`current_amount_cents` is its stored
/// amount before the edit), so editing one half of a pair never flips which side is debited.
pub fn signed_update_amount(kind: &str, amount_cents: i64, current_amount_cents: Option<i64>) -> (r: i64)
    requires
        is_stored_kind(kind@),
        kind@ == "transfer"@ ==> current_amount_cents is Some,
        amount_cents != i64::MIN,
    ensures
        r == (if kind@ == "transfer"@ {
            if current_amount_cents->0 < 0 {
                -abs(amount_cents as int)
            } else {
                abs(amount_cents as int)
            }
        } else if kind@ == "expense"@ {
            -abs(amount_cents as int)
        } else {
            abs(amount_cents as int)
        }),
{
    let magnitude = if amount_cents < 0 {
        -amount_cents
    } else {
        amount_cents
    };
    if text_eq(kind, "transfer") {
        if current_amount_cents.unwrap() < 0 {
            -magnitude
        } else {
            magnitude
        }
    } else if text_eq(kind, "expense") {
        -magnitude
    } else {
        magnitude
    }
}

/// The two rows of a move between accounts.
#[derive(Debug)]
pub struct TransferPlan {
    pub from_kind: String,
    pub to_kind: String,
    pub from_amount_cents: i64,
    pub to_amount_cents: i64,
    pub linked_group_id: String,
}

/// The two rows of a move between two accounts, linked by `group_id`. If both accounts are
/// on the same ledger it is a same-pocket transfer (both rows of kind `"transfer"`, excluded
/// from income/expense totals); across ledgers real money changed ownership, so it is an
/// expense on the sending side and an income on the receiving one. The sending row is
/// debited and the receiving one credited by the magnitude of the amount.
pub fn transfer_rows(from_ledger: &str, to_ledger: &str, amount_cents: i64, group_id: String) -> (r: TransferPlan)
    requires
        amount_cents != i64::MIN,
    ensures
        from_ledger@ == to_ledger@ ==> r.from_kind@ == "transfer"@ && r.to_kind@ == "transfer"@,
        from_ledger@ != to_ledger@ ==> r.from_kind@ == "expense"@ && r.to_kind@ == "income"@,
        r.to_amount_cents == abs(amount_cents as int),
        r.from_amount_cents == -r.to_amount_cents,
        r.linked_group_id@ == group_id@,
{
    let (from_kind, to_kind) = if text_eq(from_ledger, to_ledger) {
        (String::from_str("transfer"), String::from_str("transfer"))
    } else {
        (String::from_str("expense"), String::from_str("income"))
    };
    let amt = if amount_cents < 0 {
        -amount_cents
    } else {
        amount_cents
    };
    TransferPlan {
        from_kind,
        to_kind,
        from_amount_cents: -amt,
        to_amount_cents: amt,
        linked_group_id: group_id,
    }
}

/// A move between two accounts (see `transfer_rows`), its rows linked by a fresh random
/// group id in the hyphenated UUID form.
pub fn plan_account_transfer(from_ledger: &str, to_ledger: &str, amount_cents: i64) -> (r: TransferPlan)
    requires
        amount_cents != i64::MIN,
    ensures
        from_ledger@ == to_ledger@ ==> r.from_kind@ == "transfer"@ && r.to_kind@ == "transfer"@,
        from_ledger@ != to_ledger@ ==> r.from_kind@ == "expense"@ && r.to_kind@ == "income"@,
        r.to_amount_cents == abs(amount_cents as int),
        r.from_amount_cents == -r.to_amount_cents,
        is_hyphenated_uuid(r.linked_group_id@),
{
    let group_id = new_v4_text();
    transfer_rows(from_ledger, to_ledger, amount_cents, group_id)
}

/// The `LIKE` pattern of a free-text search: the query without surrounding white space,
/// between `%` signs; no pattern (match everything) for a missing or blank query.
pub fn search_pattern(query: Option<&str>) -> (r: Option<String>)
    ensures
        query is None ==> r is None,
        query matches Some(q) ==> (trim_text(q@).len() == 0 <==> r is None),
        query matches Some(q) ==> (r matches Some(p) ==> p@ == seq!['%'] + trim_text(q@) + seq!['%']),
{
    match query {
        None => None,
        Some(q) => {
            let t = trimmed(q);
            if t.as_str().unicode_len() == 0 {
                None
            } else {
                let mut p = String::from_str("%");
                p.append(t.as_str());
                p.append("%");
                proof {
                    reveal_strlit("%");
                }
                Some(p)
            }
        },
    }
}

} // verus!
