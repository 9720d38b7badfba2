//! The monthly amortization schedule of a debt. Each month interest accrues on the
//! remaining balance, the payment covers that interest first, and whatever is left
//! reduces the principal. The interest of a month is computed by the caller (it is a
//! floating-point rounding of `balance * rate / 12`); this module makes every decision
//! of the schedule from it.

use crate::calendar::{iso_date_text, CalDate};
use crate::recurrence::{
    lemma_unit_names, month_shift_is_ok, month_shift_ok, next_date, step_date, IntervalUnit,
};
use vstd::prelude::*;

verus! {

/// A safety cap, not a realistic outcome: guards against a payment that barely covers
/// interest (rounding could otherwise let the balance creep toward zero indefinitely) or a
/// bad input combination looping forever.
pub const MAX_MONTHS: i64 = 1200;

/// The outcome of a payoff projection.
#[derive(Clone, Debug, PartialEq, Eq)]
pub struct DebtPayoffResult {
    pub payoff_date: Option<String>,
    pub months: i64,
    pub total_paid_cents: i64,
    pub total_interest_cents: i64,
    /// True if the payment never exceeds the interest accruing each month (or the cap above
    /// was hit first): the balance would never reach zero at this payment/rate.
    pub never_pays_off: bool,
}

/// The schedule after `months` whole months in which the debt was not yet paid off.
#[derive(Clone, Copy, Debug, PartialEq, Eq, Structural)]
pub struct PayoffState {
    pub principal_cents: i64,
    pub months: i64,
    pub balance_cents: i64,
    pub total_paid_cents: i64,
    pub total_interest_cents: i64,
}

/// Either the schedule goes on into another month, or it has come to its result.
#[derive(Clone, Debug, PartialEq, Eq)]
pub enum PayoffStep {
    Continue(PayoffState),
    Finished(DebtPayoffResult),
}

pub open spec fn fits_i64(x: int) -> bool {
    i64::MIN <= x <= i64::MAX
}

impl PayoffState {
    /// What every state of a schedule keeps: a positive balance that is still owed, the
    /// month count within the cap, and every cent paid accounted for as either principal
    /// or interest.
    pub open spec fn wf(self) -> bool {
        &&& 0 <= self.months < MAX_MONTHS
        &&& self.balance_cents > 0
        &&& self.balance_cents + self.total_paid_cents == self.principal_cents
            + self.total_interest_cents
    }
}

/// The step ends the schedule with this result.
pub open spec fn finishes_with(
    step: PayoffStep,
    payoff_date: Option<Seq<char>>,
    months: int,
    total_paid: int,
    total_interest: int,
    never: bool,
) -> bool {
    match step {
        PayoffStep::Finished(r) => payoff_result(r, payoff_date, months, total_paid, total_interest, never),
        PayoffStep::Continue(_) => false,
    }
}

/// The result reports these figures; `payoff_date` is the text of the date on which the debt
/// is paid off, where it is.
pub open spec fn payoff_result(
    r: DebtPayoffResult,
    payoff_date: Option<Seq<char>>,
    months: int,
    total_paid: int,
    total_interest: int,
    never: bool,
) -> bool {
    &&& r.months == months
    &&& r.total_paid_cents == total_paid
    &&& r.total_interest_cents == total_interest
    &&& r.never_pays_off == never
    &&& match (payoff_date, r.payoff_date) {
        (Some(t), Some(s)) => s@ == t,
        (None, None) => true,
        _ => false,
    }
}

/// The text of the date `months` months after `start`.
pub open spec fn month_text(start: CalDate, months: int) -> Seq<char> {
    iso_date_text(step_date(start, IntervalUnit::Month, months as i64))
}

/// The step of month `state.months + 1` can be made without an arithmetic overflow and
/// without a payoff date out of `chrono`'s range, both of which panic.
pub open spec fn payoff_step_ok(
    start: CalDate,
    monthly_payment_cents: i64,
    state: PayoffState,
    interest_cents: i64,
) -> bool {
    let owed = state.balance_cents + interest_cents;
    monthly_payment_cents > interest_cents ==> {
        &&& fits_i64(owed)
        &&& fits_i64(state.total_interest_cents + interest_cents)
        &&& owed <= monthly_payment_cents ==> {
            &&& fits_i64(state.total_paid_cents + owed)
            &&& month_shift_ok(start, state.months + 1)
        }
        &&& owed > monthly_payment_cents ==> {
            &&& fits_i64(owed - monthly_payment_cents)
            &&& fits_i64(state.total_paid_cents + monthly_payment_cents)
        }
    }
}

/// The outcome of the month after `state`, in which `interest_cents` accrues: never paid
/// off where the payment does not exceed the interest; paid off this month where the payment
/// covers the balance plus interest; never paid off at the cap of `MAX_MONTHS` months; else
/// the next state, the balance reduced by the payment less the interest.
pub open spec fn step_result(
    start_date: CalDate,
    monthly_payment_cents: i64,
    state: PayoffState,
    interest_cents: i64,
    r: PayoffStep,
) -> bool {
    let months = state.months + 1;
    let owed = state.balance_cents + interest_cents;
    let paid = state.total_paid_cents;
    let interest = state.total_interest_cents;
    if monthly_payment_cents <= interest_cents {
        finishes_with(
            r,
            None,
            state.months as int,
            paid as int,
            interest as int,
            true,
        )
    } else if owed <= monthly_payment_cents {
        finishes_with(
            r,
            Some(month_text(start_date, months)),
            months,
            paid + owed,
            interest + interest_cents,
            false,
        )
    } else if months == MAX_MONTHS {
        finishes_with(
            r,
            None,
            MAX_MONTHS as int,
            paid + monthly_payment_cents,
            interest + interest_cents,
            true,
        )
    } else {
        r == PayoffStep::Continue(
            PayoffState {
                principal_cents: state.principal_cents,
                months: months as i64,
                balance_cents: (owed - monthly_payment_cents) as i64,
                total_paid_cents: (paid + monthly_payment_cents) as i64,
                total_interest_cents: (interest + interest_cents) as i64,
            },
        )
    }
}

/// Whether the step of month `state.months + 1` can be made (see `payoff_step_ok`).
pub fn payoff_step_is_ok(
    start_date: CalDate,
    monthly_payment_cents: i64,
    state: PayoffState,
    interest_cents: i64,
) -> (r: bool)
    ensures
        r == payoff_step_ok(start_date, monthly_payment_cents, state, interest_cents),
{
    if monthly_payment_cents <= interest_cents {
        return true;
    }
    let lo = i64::MIN as i128;
    let hi = i64::MAX as i128;
    let owed: i128 = state.balance_cents as i128 + interest_cents as i128;
    let interest: i128 = state.total_interest_cents as i128 + interest_cents as i128;
    if !(lo <= owed && owed <= hi && lo <= interest && interest <= hi) {
        return false;
    }
    if owed <= monthly_payment_cents as i128 {
        let paid: i128 = state.total_paid_cents as i128 + owed;
        lo <= paid && paid <= hi && state.months < i64::MAX && month_shift_is_ok(
            start_date,
            state.months + 1,
        )
    } else {
        let balance: i128 = owed - monthly_payment_cents as i128;
        let paid: i128 = state.total_paid_cents as i128 + monthly_payment_cents as i128;
        lo <= balance && balance <= hi && lo <= paid && paid <= hi
    }
}

/// Starts the schedule of a debt. A debt with nothing owed is paid off at once, on its start
/// date.
pub fn payoff_start(start_date: CalDate, principal_cents: i64) -> (r: PayoffStep)
    requires
        start_date.wf(),
    ensures
        principal_cents <= 0 ==> finishes_with(
            r,
            Some(iso_date_text(start_date)),
            0,
            0,
            0,
            false,
        ),
        principal_cents > 0 ==> r == PayoffStep::Continue(
            PayoffState {
                principal_cents,
                months: 0,
                balance_cents: principal_cents,
                total_paid_cents: 0,
                total_interest_cents: 0,
            },
        ),
        r matches PayoffStep::Continue(s) ==> s.wf(),
        r matches PayoffStep::Finished(res) ==> (res.never_pays_off <==> res.payoff_date is None),
{
    if principal_cents <= 0 {
        return PayoffStep::Finished(
            DebtPayoffResult {
                payoff_date: Some(start_date.to_iso_string()),
                months: 0,
                total_paid_cents: 0,
                total_interest_cents: 0,
                never_pays_off: false,
            },
        );
    }
    PayoffStep::Continue(
        PayoffState {
            principal_cents,
            months: 0,
            balance_cents: principal_cents,
            total_paid_cents: 0,
            total_interest_cents: 0,
        },
    )
}

/// One month of the schedule. `interest_cents` is the interest that accrues this month on
/// `state.balance_cents`. If the payment does not exceed it, the debt never pays off; if
/// the payment covers the balance plus interest, the debt is paid off this month; else the
/// balance goes on, reduced by the payment less the interest. Reaching the cap of
/// `MAX_MONTHS` months also ends the schedule as one that never pays off.
pub fn payoff_step(
    start_date: CalDate,
    monthly_payment_cents: i64,
    state: PayoffState,
    interest_cents: i64,
) -> (r: PayoffStep)
    requires
        start_date.wf(),
        state.wf(),
        payoff_step_ok(start_date, monthly_payment_cents, state, interest_cents),
    ensures
        step_result(start_date, monthly_payment_cents, state, interest_cents, r),
        r matches PayoffStep::Continue(s) ==> s.wf(),
        r matches PayoffStep::Finished(res) ==> 0 <= res.months <= MAX_MONTHS,
        r matches PayoffStep::Finished(res) ==> (res.never_pays_off <==> res.payoff_date is None),
        r matches PayoffStep::Finished(res) ==> (!res.never_pays_off ==> res.total_paid_cents
            == state.principal_cents + res.total_interest_cents),
{
    let months = state.months + 1;
    if monthly_payment_cents <= interest_cents {
        return PayoffStep::Finished(
            DebtPayoffResult {
                payoff_date: None,
                months: months - 1,
                total_paid_cents: state.total_paid_cents,
                total_interest_cents: state.total_interest_cents,
                never_pays_off: true,
            },
        );
    }
    let owed_cents = state.balance_cents + interest_cents;
    if owed_cents <= monthly_payment_cents {
        proof {
            lemma_unit_names();
        }
        let payoff = next_date(start_date, "month", months);
        return PayoffStep::Finished(
            DebtPayoffResult {
                payoff_date: Some(payoff.to_iso_string()),
                months,
                total_paid_cents: state.total_paid_cents + owed_cents,
                total_interest_cents: state.total_interest_cents + interest_cents,
                never_pays_off: false,
            },
        );
    }
    let next = PayoffState {
        principal_cents: state.principal_cents,
        months,
        balance_cents: owed_cents - monthly_payment_cents,
        total_paid_cents: state.total_paid_cents + monthly_payment_cents,
        total_interest_cents: state.total_interest_cents + interest_cents,
    };
    if months == MAX_MONTHS {
        return PayoffStep::Finished(
            DebtPayoffResult {
                payoff_date: None,
                months: MAX_MONTHS,
                total_paid_cents: next.total_paid_cents,
                total_interest_cents: next.total_interest_cents,
                never_pays_off: true,
            },
        );
    }
    PayoffStep::Continue(next)
}

/// The state of the schedule of `principal_cents` after `k` months that went on, the
/// interest of month `j + 1` being `ints[j]`.
pub open spec fn state_after(principal_cents: i64, monthly_payment_cents: i64, ints: Seq<i64>, k: nat) -> PayoffState
    decreases k,
{
    if k == 0 {
        PayoffState {
            principal_cents,
            months: 0,
            balance_cents: principal_cents,
            total_paid_cents: 0,
            total_interest_cents: 0,
        }
    } else {
        let s = state_after(principal_cents, monthly_payment_cents, ints, (k - 1) as nat);
        let i = ints[k - 1];
        PayoffState {
            principal_cents,
            months: (s.months + 1) as i64,
            balance_cents: (s.balance_cents + i - monthly_payment_cents) as i64,
            total_paid_cents: (s.total_paid_cents + monthly_payment_cents) as i64,
            total_interest_cents: (s.total_interest_cents + i) as i64,
        }
    }
}

/// A state depends only on the interests of the months before it.
proof fn lemma_state_after_push(principal_cents: i64, monthly_payment_cents: i64, ints: Seq<i64>, x: i64, k: nat)
    requires
        k <= ints.len(),
    ensures
        state_after(principal_cents, monthly_payment_cents, ints.push(x), k) == state_after(
            principal_cents,
            monthly_payment_cents,
            ints,
            k,
        ),
    decreases k,
{
    if k > 0 {
        lemma_state_after_push(principal_cents, monthly_payment_cents, ints, x, (k - 1) as nat);
        assert(ints.push(x)[k - 1] == ints[k - 1]);
    }
}

/// `r` is the outcome of running the schedule of a positive principal month by month, where
/// `ints[j]` is an interest that `interest_of` gives for the balance of month `j + 1`: every
/// month before the last went on to the next state, and the last month either could not be
/// made (an `i64` overflow or a payoff date past the dates `chrono` holds; `r` is `None`) or
/// ended the schedule with the result in `r`.
pub open spec fn payoff_run<F: Fn(i64) -> i64>(
    start_date: CalDate,
    principal_cents: i64,
    monthly_payment_cents: i64,
    interest_of: F,
    ints: Seq<i64>,
    r: Option<DebtPayoffResult>,
) -> bool {
    let n = (ints.len() - 1) as nat;
    let last = state_after(principal_cents, monthly_payment_cents, ints, n);
    &&& ints.len() >= 1
    &&& forall|k: nat|
        k < ints.len() ==> interest_of.ensures(
            (#[trigger] state_after(principal_cents, monthly_payment_cents, ints, k).balance_cents,),
            ints[k as int],
        )
    &&& forall|k: nat|
        k < n ==> {
            &&& payoff_step_ok(
                start_date,
                monthly_payment_cents,
                #[trigger] state_after(principal_cents, monthly_payment_cents, ints, k),
                ints[k as int],
            )
            &&& step_result(
                start_date,
                monthly_payment_cents,
                state_after(principal_cents, monthly_payment_cents, ints, k),
                ints[k as int],
                PayoffStep::Continue(state_after(principal_cents, monthly_payment_cents, ints, k + 1)),
            )
        }
    &&& match r {
        None => !payoff_step_ok(start_date, monthly_payment_cents, last, ints[n as int]),
        Some(res) => payoff_step_ok(start_date, monthly_payment_cents, last, ints[n as int])
            && step_result(
            start_date,
            monthly_payment_cents,
            last,
            ints[n as int],
            PayoffStep::Finished(res),
        ),
    }
}

/// What holds of every result of a schedule of `principal_cents` from `start_date`: it says
/// "never" exactly where it gives no payoff date, it ends within the cap, a schedule that
/// never pays off has paid the payment each month it ran, and a debt paid off after at least
/// one month is paid off on the date that many months after the start, having cost its
/// principal plus the interest.
pub open spec fn schedule_result_ok(
    start_date: CalDate,
    principal_cents: i64,
    monthly_payment_cents: i64,
    res: DebtPayoffResult,
) -> bool {
    &&& (res.never_pays_off <==> res.payoff_date is None)
    &&& 0 <= res.months <= MAX_MONTHS
    &&& res.never_pays_off ==> res.total_paid_cents == res.months * monthly_payment_cents
    &&& principal_cents > 0 && !res.never_pays_off ==> {
        &&& res.months >= 1
        &&& res.total_paid_cents == principal_cents + res.total_interest_cents
        &&& res.payoff_date matches Some(t) && t@ == month_text(start_date, res.months as int)
    }
}

/// Standard monthly amortization of a debt from `start_date`, one `payoff_step` per month.
/// `interest_of` gives the interest that accrues in a month on the balance it is handed
/// (the caller rounds `balance * rate / 12` to the cent). A debt with nothing owed is paid
/// off at once. Otherwise the result is that of the month-by-month run (`payoff_run`), fed
/// with what `interest_of` gives for each month's balance; `None` exactly where a month of
/// that run would overflow an `i64` or its payoff date lies past the dates `chrono` holds.
pub fn calculate_payoff<F: Fn(i64) -> i64>(
    start_date: CalDate,
    principal_cents: i64,
    monthly_payment_cents: i64,
    interest_of: F,
) -> (r: Option<DebtPayoffResult>)
    requires
        start_date.wf(),
        forall|balance: i64| interest_of.requires((balance,)),
    ensures
        principal_cents <= 0 ==> (r matches Some(res) && payoff_result(
            res,
            Some(iso_date_text(start_date)),
            0,
            0,
            0,
            false,
        )),
        principal_cents > 0 ==> exists|ints: Seq<i64>|
            payoff_run(start_date, principal_cents, monthly_payment_cents, interest_of, ints, r),
        r matches Some(res) ==> schedule_result_ok(start_date, principal_cents, monthly_payment_cents, res),
{
    let mut step = payoff_start(start_date, principal_cents);
    let ghost mut ints: Seq<i64> = Seq::empty();
    loop
        invariant
            start_date.wf(),
            forall|balance: i64| interest_of.requires((balance,)),
            principal_cents <= 0 ==> (step matches PayoffStep::Finished(res) && payoff_result(
                res,
                Some(iso_date_text(start_date)),
                0,
                0,
                0,
                false,
            )),
            step matches PayoffStep::Continue(s) ==> {
                &&& s.wf()
                &&& principal_cents > 0
                &&& s == state_after(principal_cents, monthly_payment_cents, ints, ints.len())
                &&& s.total_paid_cents == s.months * monthly_payment_cents
                &&& forall|k: nat|
                    k < ints.len() ==> interest_of.ensures(
                        (#[trigger] state_after(principal_cents, monthly_payment_cents, ints, k).balance_cents,),
                        ints[k as int],
                    )
                &&& forall|k: nat|
                    k < ints.len() ==> {
                        &&& payoff_step_ok(
                            start_date,
                            monthly_payment_cents,
                            #[trigger] state_after(principal_cents, monthly_payment_cents, ints, k),
                            ints[k as int],
                        )
                        &&& step_result(
                            start_date,
                            monthly_payment_cents,
                            state_after(principal_cents, monthly_payment_cents, ints, k),
                            ints[k as int],
                            PayoffStep::Continue(
                                state_after(principal_cents, monthly_payment_cents, ints, k + 1),
                            ),
                        )
                    }
            },
            step matches PayoffStep::Finished(res) ==> {
                &&& schedule_result_ok(start_date, principal_cents, monthly_payment_cents, res)
                &&& principal_cents > 0 ==> payoff_run(
                    start_date,
                    principal_cents,
                    monthly_payment_cents,
                    interest_of,
                    ints,
                    Some(res),
                )
            },
        decreases (match step {
            PayoffStep::Continue(s) => MAX_MONTHS - s.months,
            PayoffStep::Finished(_) => 0,
        }),
    {
        let state = match step {
            PayoffStep::Finished(res) => {
                return Some(res);
            },
            PayoffStep::Continue(s) => s,
        };
        let interest_cents = interest_of(state.balance_cents);
        let ghost before = ints;
        let ghost n = before.len();
        proof {
            ints = before.push(interest_cents);
            assert forall|k: nat| k <= n implies state_after(
                principal_cents,
                monthly_payment_cents,
                ints,
                k,
            ) == state_after(principal_cents, monthly_payment_cents, before, k) by {
                lemma_state_after_push(principal_cents, monthly_payment_cents, before, interest_cents, k);
            }
            assert(ints[n as int] == interest_cents);
            assert(state_after(principal_cents, monthly_payment_cents, ints, n) == state);
            assert forall|k: nat| k < ints.len() implies interest_of.ensures(
                (#[trigger] state_after(principal_cents, monthly_payment_cents, ints, k).balance_cents,),
                ints[k as int],
            ) by {
                if k < n {
                    assert(ints[k as int] == before[k as int]);
                    assert(state_after(principal_cents, monthly_payment_cents, before, k) == state_after(
                        principal_cents,
                        monthly_payment_cents,
                        ints,
                        k,
                    ));
                }
            }
            assert forall|k: nat| k < n implies {
                &&& payoff_step_ok(
                    start_date,
                    monthly_payment_cents,
                    #[trigger] state_after(principal_cents, monthly_payment_cents, ints, k),
                    ints[k as int],
                )
                &&& step_result(
                    start_date,
                    monthly_payment_cents,
                    state_after(principal_cents, monthly_payment_cents, ints, k),
                    ints[k as int],
                    PayoffStep::Continue(state_after(principal_cents, monthly_payment_cents, ints, k + 1)),
                )
            } by {
                assert(ints[k as int] == before[k as int]);
                assert(state_after(principal_cents, monthly_payment_cents, before, k) == state_after(
                    principal_cents,
                    monthly_payment_cents,
                    ints,
                    k,
                ));
                assert(state_after(principal_cents, monthly_payment_cents, before, k + 1) == state_after(
                    principal_cents,
                    monthly_payment_cents,
                    ints,
                    k + 1,
                ));
            }
        }
        if !payoff_step_is_ok(start_date, monthly_payment_cents, state, interest_cents) {
            proof {
                assert(payoff_run(start_date, principal_cents, monthly_payment_cents, interest_of, ints, None));
            }
            return None;
        }
        step = payoff_step(start_date, monthly_payment_cents, state, interest_cents);
        proof {
            assert((state.months + 1) * monthly_payment_cents == state.months * monthly_payment_cents
                + monthly_payment_cents) by (nonlinear_arith);
            if step is Continue {
                assert(step->Continue_0 == state_after(principal_cents, monthly_payment_cents, ints, n + 1));
            }
        }
    }
}

} // verus!
