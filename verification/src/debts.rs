//! Debts: a stored debt together with the projection of its payoff.

use crate::debt_math::DebtPayoffResult;
use crate::models::{Debt, DebtProgress};
use vstd::prelude::*;

verus! {

/// A debt with the figures of its payoff projection.
pub fn debt_progress(debt: Debt, result: DebtPayoffResult) -> (r: DebtProgress)
    ensures
        r.debt == debt,
        r.payoff_date == result.payoff_date,
        r.months == result.months,
        r.total_paid_cents == result.total_paid_cents,
        r.total_interest_cents == result.total_interest_cents,
        r.never_pays_off == result.never_pays_off,
{
    DebtProgress {
        debt,
        payoff_date: result.payoff_date,
        months: result.months,
        total_paid_cents: result.total_paid_cents,
        total_interest_cents: result.total_interest_cents,
        never_pays_off: result.never_pays_off,
    }
}

} // verus!
