//! Recurring items: a tracked expectation for a tag (one item per tag), measured against
//! what was actually paid in its current cycle.

use crate::calendar::{date_lt, iso_date_text, parsed_iso_date, CalDate};
use crate::models::{Recurring, RecurringProgress, Tag};
use crate::recurrence::{
    cycle_containing, cycle_walk_is_ok, on_or_before, step_advances, step_date, step_ok, unit_of, walk,
    walk_ok_within, walk_within,
};
use crate::transactions::{abs, check_entry_kind, is_entry_kind};
use crate::text::text_eq;
use vstd::prelude::*;

verus! {

/// The refusal to give a tag a second recurring item, naming the tag.
pub fn tag_taken_message(tag_name: &str) -> (r: String)
    ensures
        r@ == "\""@ + tag_name@
            + "\" already has a recurring item - edit that one instead of creating a new one."@,
{
    let mut m = String::from_str("\"");
    m.append(tag_name);
    m.append("\" already has a recurring item - edit that one instead of creating a new one.");
    m
}

/// The stored projected amount of a recurring item: its magnitude, for a kind of
/// `"expense"` or `"income"`; the sign comes from the kind when matching transactions.
pub fn projected_amount(kind: &str, projected_amount_cents: i64) -> (r: Result<i64, String>)
    requires
        is_entry_kind(kind@) ==> projected_amount_cents != i64::MIN,
    ensures
        r is Ok <==> is_entry_kind(kind@),
        r matches Err(e) ==> e@ == "type must be 'expense' or 'income'"@,
        r matches Ok(v) ==> v == abs(projected_amount_cents as int),
{
    check_entry_kind(kind)?;
    if projected_amount_cents < 0 {
        Ok(-projected_amount_cents)
    } else {
        Ok(projected_amount_cents)
    }
}

/// The anchor date, unit and count of a recurring item can be read and stepped: the
/// anchor parses, the unit is known, and the walk to the cycle holding `on_date` neither
/// panics nor stands still.
pub open spec fn cycle_inputs_ok(r: Recurring, on_date: CalDate) -> bool {
    &&& parsed_iso_date(r.anchor_date@) is Ok
    &&& unit_of(r.interval_unit@) is Some
    &&& on_date.wf()
    &&& {
        let anchor = parsed_iso_date(r.anchor_date@)->Ok_0;
        let unit = unit_of(r.interval_unit@)->0;
        &&& step_ok(anchor, unit, r.interval_count)
        &&& !date_lt(on_date, anchor) ==> step_advances(unit, r.interval_count) && walk_ok_within(
            anchor,
            unit,
            r.interval_count,
            on_or_before(on_date),
        )
    }
}

/// Whether the cycle of a recurring item that holds `on_date` can be found: the anchor
/// date parses, the unit is known, and the walk neither panics nor stands still.
pub fn cycle_inputs_are_ok(r: &Recurring, on_date: CalDate) -> (ok: bool)
    ensures
        ok == cycle_inputs_ok(*r, on_date),
{
    if !on_date.is_wf() {
        return false;
    }
    let anchor = match CalDate::parse_iso(r.anchor_date.as_str()) {
        Ok(d) => d,
        Err(_) => {
            return false;
        },
    };
    cycle_walk_is_ok(anchor, r.interval_unit.as_str(), r.interval_count, on_date)
}

/// `c` is the cycle `[start, end)` of a recurring item that holds `on_date`: the cycle of
/// its walk from the anchor date that starts on or before `on_date` and ends after it, or
/// its first cycle where `on_date` comes before the anchor date.
pub open spec fn is_cycle_on(r: Recurring, on_date: CalDate, c: (CalDate, CalDate)) -> bool {
    let anchor = parsed_iso_date(r.anchor_date@)->Ok_0;
    let unit = unit_of(r.interval_unit@)->0;
    &&& date_lt(on_date, anchor) ==> c == (anchor, step_date(anchor, unit, r.interval_count))
    &&& !date_lt(on_date, anchor) ==> {
        &&& exists|k: nat|
            {
                &&& c.0 == walk(anchor, unit, r.interval_count, k)
                &&& walk_within(anchor, unit, r.interval_count, on_or_before(on_date), k)
            }
        &&& !date_lt(on_date, c.0)
        &&& date_lt(on_date, c.1)
        &&& c.1 == step_date(c.0, unit, r.interval_count)
    }
    &&& c.0.wf()
    &&& c.1.wf()
}

/// The cycle `[start, end)` of a recurring item that holds `on_date` (or its first cycle,
/// before its anchor date).
pub fn cycle_on(r: &Recurring, on_date: CalDate) -> (c: (CalDate, CalDate))
    requires
        cycle_inputs_ok(*r, on_date),
    ensures
        is_cycle_on(*r, on_date, c),
{
    let anchor = match CalDate::parse_iso(r.anchor_date.as_str()) {
        Ok(d) => d,
        Err(_) => {
            assert(false);
            return (on_date, on_date);
        },
    };
    let c = cycle_containing(anchor, r.interval_unit.as_str(), r.interval_count, on_date);
    proof {
        if !date_lt(on_date, anchor) {
            assert(!date_lt(on_date, c.0));
        }
    }
    c
}

/// The cycle of a recurring item that holds `on_date`, where it can be found: `None` where
/// `on_date` is no date, the anchor date does not parse, the unit is unknown, or the walk
/// would panic or never end.
pub fn try_cycle_on(r: &Recurring, on_date: CalDate) -> (c: Option<(CalDate, CalDate)>)
    ensures
        c is Some <==> cycle_inputs_ok(*r, on_date),
        c matches Some(c) ==> is_cycle_on(*r, on_date, c),
{
    if cycle_inputs_are_ok(r, on_date) {
        Some(cycle_on(r, on_date))
    } else {
        None
    }
}

/// The paid amount of a cycle, from the signed sum of its transactions: positive for an
/// expense item (whose transactions are negative) and for an income item alike.
pub open spec fn paid_of(kind: Seq<char>, raw_sum_cents: int) -> int {
    if kind == "expense"@ {
        -raw_sum_cents
    } else {
        raw_sum_cents
    }
}

/// Whether the paid amount and the difference of a cycle fit in an `i64`.
pub fn progress_fits(recurring: &Recurring, raw_sum_cents: i64) -> (ok: bool)
    ensures
        ok == ((recurring.kind@ == "expense"@ ==> raw_sum_cents != i64::MIN) && i64::MIN <= paid_of(
            recurring.kind@,
            raw_sum_cents as int,
        ) - recurring.projected_amount_cents <= i64::MAX),
{
    let paid: i128 = if text_eq(recurring.kind.as_str(), "expense") {
        -(raw_sum_cents as i128)
    } else {
        raw_sum_cents as i128
    };
    let difference: i128 = paid - recurring.projected_amount_cents as i128;
    let expense_ok = !text_eq(recurring.kind.as_str(), "expense") || raw_sum_cents != i64::MIN;
    expense_ok && i64::MIN as i128 <= difference && difference <= i64::MAX as i128
}

/// A recurring item's progress in a cycle: what was paid (from `raw_sum_cents`, the signed
/// sum of the cycle's transactions with the item's tag) and how far that is over (positive)
/// or under (negative) the projected amount.
pub fn recurring_progress(recurring: Recurring, tag: Tag, cycle: (CalDate, CalDate), raw_sum_cents: i64) -> (p: RecurringProgress)
    requires
        cycle.0.wf(),
        cycle.1.wf(),
        recurring.kind@ == "expense"@ ==> raw_sum_cents != i64::MIN,
        i64::MIN <= paid_of(recurring.kind@, raw_sum_cents as int) - recurring.projected_amount_cents
            <= i64::MAX,
    ensures
        p.recurring == recurring,
        p.tag == tag,
        p.cycle_start@ == iso_date_text(cycle.0),
        p.cycle_end@ == iso_date_text(cycle.1),
        p.paid_cents == paid_of(recurring.kind@, raw_sum_cents as int),
        p.difference_cents == p.paid_cents - recurring.projected_amount_cents,
{
    let cycle_start = cycle.0.to_iso_string();
    let cycle_end = cycle.1.to_iso_string();
    let paid_cents = if text_eq(recurring.kind.as_str(), "expense") {
        -raw_sum_cents
    } else {
        raw_sum_cents
    };
    let difference_cents = paid_cents - recurring.projected_amount_cents;
    RecurringProgress { recurring, tag, cycle_start, cycle_end, paid_cents, difference_cents }
}

} // verus!
