//! The rules of editing a subscription of the earlier schema (a charge rule whose billing
//! cycles were materialized ahead of time as occurrences): the stored rate, what an edit
//! does to the occurrences still projected, and when a pause ends.

use crate::text::text_eq;
use crate::transactions::abs;
use vstd::prelude::*;

verus! {

/// The stored amount of a subscription charging `amount_cents`: negative for an expense,
/// positive otherwise, whatever the sign given.
pub open spec fn rate_of(kind: Seq<char>, amount_cents: int) -> int {
    if kind == "expense"@ {
        -abs(amount_cents)
    } else {
        abs(amount_cents)
    }
}

/// The stored amount of a subscription of this kind at a new rate.
pub fn subscription_rate(kind: &str, amount_cents: i64) -> (r: i64)
    requires
        amount_cents != i64::MIN,
    ensures
        r == rate_of(kind@, amount_cents as int),
{
    let magnitude = if amount_cents < 0 {
        -amount_cents
    } else {
        amount_cents
    };
    if text_eq(kind, "expense") {
        -magnitude
    } else {
        magnitude
    }
}

/// What an edit of a subscription's rule does.
#[derive(Clone, Copy, Debug, PartialEq, Eq, Structural)]
pub struct SubscriptionEdit {
    /// The stored amount at the new rate.
    pub signed_amount_cents: i64,
    /// The cadence changed: the projected occurrences not yet due are cleared and generated
    /// again under the new interval. Otherwise they keep their dates and take the new rate.
    pub regenerate_occurrences: bool,
}

/// Plans an edit of a subscription's rule from its kind, the new rate, and its old and new
/// cadence. The kind itself is not editable: that would be another subscription.
pub fn plan_subscription_edit(
    kind: &str,
    amount_cents: i64,
    old_interval_unit: &str,
    old_interval_count: i64,
    interval_unit: &str,
    interval_count: i64,
) -> (r: SubscriptionEdit)
    requires
        amount_cents != i64::MIN,
    ensures
        r.signed_amount_cents == rate_of(kind@, amount_cents as int),
        r.regenerate_occurrences == (old_interval_unit@ != interval_unit@ || old_interval_count
            != interval_count),
{
    SubscriptionEdit {
        signed_amount_cents: subscription_rate(kind, amount_cents),
        regenerate_occurrences: !text_eq(old_interval_unit, interval_unit) || old_interval_count
            != interval_count,
    }
}

/// The amount of a single billing cycle edited by hand: the magnitude given, with the sign
/// the cycle already has (negative stays negative).
pub fn occurrence_amount(current_amount_cents: i64, amount_cents: i64) -> (r: i64)
    requires
        amount_cents != i64::MIN,
    ensures
        r == (if current_amount_cents < 0 {
            -abs(amount_cents as int)
        } else {
            abs(amount_cents as int)
        }),
{
    let magnitude = if amount_cents < 0 {
        -amount_cents
    } else {
        amount_cents
    };
    if current_amount_cents < 0 {
        -magnitude
    } else {
        magnitude
    }
}

/// The date a pause runs until: the one given, else the next scheduled charge date.
pub fn resume_hint(paused_until: Option<String>, next_charge_date: String) -> (r: String)
    ensures
        r@ == match paused_until {
            Some(d) => d@,
            None => next_charge_date@,
        },
{
    match paused_until {
        Some(d) => d,
        None => next_charge_date,
    }
}

} // verus!
