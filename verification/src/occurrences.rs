//! The billing dates a subscription materializes ahead of time: from its next charge date,
//! one recurrence step at a time, up to a horizon and never past its end date.

use crate::calendar::{date_le, lemma_epoch_order, CalDate};
use crate::recurrence::{
    add_months_clamped, lemma_step_advances, month_shift, month_shift_ok, next_date, step_advances,
    unit_of, walk, walk_ok_within, walk_within,
};
use vstd::prelude::*;

verus! {

/// How far ahead occurrences are kept for an active subscription, in months.
pub const GENERATION_HORIZON_MONTHS: i32 = 12;

/// The horizon of occurrences seen from `today`: `GENERATION_HORIZON_MONTHS` months later.
pub fn default_horizon(today: CalDate) -> (r: CalDate)
    requires
        today.wf(),
        month_shift_ok(today, GENERATION_HORIZON_MONTHS as int),
    ensures
        r == month_shift(today, GENERATION_HORIZON_MONTHS as int),
        r.wf(),
{
    add_months_clamped(today, GENERATION_HORIZON_MONTHS)
}

/// A date is due for materializing: on or before the horizon and, where there is an end
/// date, on or before it.
pub open spec fn is_due(d: CalDate, end_date: Option<CalDate>, horizon: CalDate) -> bool {
    date_le(d, horizon) && match end_date {
        Some(e) => date_le(d, e),
        None => true,
    }
}

/// A date is due exactly when its day number is not after the horizon's and, where there is
/// an end date, not after the end date's: a charge falling on the horizon or on the end date
/// is materialized, and the next charge date left after generating (which is not due) lies
/// strictly after the horizon or the end date.
pub proof fn lemma_due_dates(d: CalDate, end_date: Option<CalDate>, horizon: CalDate)
    requires
        d.wf(),
        horizon.wf(),
        end_date matches Some(e) ==> e.wf(),
    ensures
        is_due(d, end_date, horizon) <==> d.epoch() <= horizon.epoch() && match end_date {
            Some(e) => d.epoch() <= e.epoch(),
            None => true,
        },
{
    lemma_epoch_order(d, horizon);
    if let Some(e) = end_date {
        lemma_epoch_order(d, e);
    }
}

/// The date predicate "due for materializing".
pub open spec fn due_by(end_date: Option<CalDate>, horizon: CalDate) -> spec_fn(CalDate) -> bool {
    |d: CalDate| is_due(d, end_date, horizon)
}

/// The dates to materialize, from `first` (the next charge date) in steps of
/// `interval_count` `interval_unit`s while they are due; and the first date not
/// materialized, which becomes the new next charge date.
pub fn generate_occurrences(
    first: CalDate,
    interval_unit: &str,
    interval_count: i64,
    end_date: Option<CalDate>,
    horizon: CalDate,
) -> (r: (Vec<CalDate>, CalDate))
    requires
        first.wf(),
        horizon.wf(),
        end_date matches Some(e) ==> e.wf(),
        unit_of(interval_unit@) is Some,
        is_due(first, end_date, horizon) ==> step_advances(unit_of(interval_unit@)->0, interval_count)
            && walk_ok_within(first, unit_of(interval_unit@)->0, interval_count, due_by(end_date, horizon)),
    ensures
        forall|k: int|
            0 <= k < r.0@.len() ==> #[trigger] r.0@[k] == walk(
                first,
                unit_of(interval_unit@)->0,
                interval_count,
                k as nat,
            ) && is_due(r.0@[k], end_date, horizon),
        r.1 == walk(first, unit_of(interval_unit@)->0, interval_count, r.0@.len()),
        !is_due(r.1, end_date, horizon),
        r.1.wf(),
{
    let ghost unit = unit_of(interval_unit@)->0;
    let mut dates: Vec<CalDate> = Vec::new();
    let mut cursor = first;
    let ghost mut due_first = is_due(first, end_date, horizon);
    loop
        invariant
            unit == unit_of(interval_unit@)->0,
            unit_of(interval_unit@) is Some,
            cursor.wf(),
            horizon.wf(),
            end_date matches Some(e) ==> e.wf(),
            cursor == walk(first, unit, interval_count, dates@.len()),
            due_first == is_due(first, end_date, horizon),
            dates@.len() > 0 ==> due_first,
            due_first ==> step_advances(unit, interval_count) && walk_ok_within(
                first,
                unit,
                interval_count,
                due_by(end_date, horizon),
            ),
            forall|k: int|
                0 <= k < dates@.len() ==> #[trigger] dates@[k] == walk(
                    first,
                    unit,
                    interval_count,
                    k as nat,
                ) && is_due(dates@[k], end_date, horizon),
        ensures
            forall|k: int|
                0 <= k < dates@.len() ==> #[trigger] dates@[k] == walk(
                    first,
                    unit,
                    interval_count,
                    k as nat,
                ) && is_due(dates@[k], end_date, horizon),
            cursor == walk(first, unit, interval_count, dates@.len()),
            !is_due(cursor, end_date, horizon),
            cursor.wf(),
        decreases (if date_le(cursor, horizon) {
            horizon.epoch() - cursor.epoch() + 1
        } else {
            0
        }),
    {
        if horizon.is_before(&cursor) {
            break;
        }
        if let Some(end) = end_date {
            if end.is_before(&cursor) {
                break;
            }
        }
        proof {
            if dates@.len() == 0 {
                assert(cursor == first);
            }
            let n = dates@.len();
            assert forall|j: nat| j <= n implies due_by(end_date, horizon)(
                #[trigger] walk(first, unit, interval_count, j),
            ) by {
                if j < n {
                    assert(dates@[j as int] == walk(first, unit, interval_count, j));
                }
            }
            assert(walk_within(first, unit, interval_count, due_by(end_date, horizon), n));
            lemma_step_advances(cursor, unit, interval_count);
        }
        let ghost old_cursor = cursor;
        dates.push(cursor);
        cursor = next_date(cursor, interval_unit, interval_count);
        proof {
            lemma_epoch_order(old_cursor, cursor);
            lemma_epoch_order(old_cursor, horizon);
            lemma_epoch_order(cursor, horizon);
        }
    }
    (dates, cursor)
}

} // verus!
