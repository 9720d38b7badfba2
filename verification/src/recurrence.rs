//! Stepping a date forward by a recurrence interval, and finding the billing cycle that
//! holds a given day.

use crate::calendar::{
    chrono_add_days, chrono_pred_opt, date_at_epoch, date_le, lemma_date_at_epoch, lemma_month_end_successor, lemma_wf_epoch_in_range, year_in_range, date_lt, days_in_month, epoch_in_range, lemma_date_at_epoch_exists,
    lemma_epoch_order, epoch_is_in_range, epoch_of, CalDate, MAX_YEAR, MIN_YEAR,
};
use crate::text::text_eq;
use vstd::prelude::*;

verus! {

/// The unit of a recurrence interval.
#[derive(Clone, Copy, Debug, PartialEq, Eq, Structural)]
pub enum IntervalUnit {
    Day,
    Week,
    Month,
    Year,
}

/// The unit that an interval unit's name stands for: `"day"`, `"week"`, `"month"` or `"year"`.
pub open spec fn unit_of(name: Seq<char>) -> Option<IntervalUnit> {
    if name == "day"@ {
        Some(IntervalUnit::Day)
    } else if name == "week"@ {
        Some(IntervalUnit::Week)
    } else if name == "month"@ {
        Some(IntervalUnit::Month)
    } else if name == "year"@ {
        Some(IntervalUnit::Year)
    } else {
        None
    }
}

/// The four unit names stand for the four units.
pub proof fn lemma_unit_names()
    ensures
        unit_of("day"@) == Some(IntervalUnit::Day),
        unit_of("week"@) == Some(IntervalUnit::Week),
        unit_of("month"@) == Some(IntervalUnit::Month),
        unit_of("year"@) == Some(IntervalUnit::Year),
{
    reveal_strlit("day");
    reveal_strlit("week");
    reveal_strlit("month");
    reveal_strlit("year");
    assert("day"@.len() == 3);
    assert("week"@.len() == 4 && "week"@[0] == 'w');
    assert("month"@.len() == 5);
    assert("year"@.len() == 4 && "year"@[0] == 'y');
}

/// `date` moved by `months` calendar months, its day clamped to the length of the
/// month it lands in.
pub open spec fn month_shift(date: CalDate, months: int) -> CalDate {
    let total = date.month_index() + months;
    let y = total / 12;
    let m = total % 12 + 1;
    let last = days_in_month(y, m);
    CalDate {
        year: y as i32,
        month: m as u32,
        day: (if date.day < last {
            date.day as int
        } else {
            last
        }) as u32,
    }
}

/// Moving `date` by `months` months neither overflows nor leaves the range of years
/// `chrono` holds, and the month after the target month is one `chrono` holds too.
pub open spec fn month_shift_ok(date: CalDate, months: int) -> bool {
    let total = date.month_index() + months;
    MIN_YEAR * 12 <= total < MAX_YEAR * 12 + 11
}

/// The date one recurrence step of `count` `unit`s after `date`. A month step moves by
/// `count as i32` months and a year step by twelve times that, as the conversion to
/// `i32` in the month arithmetic does.
pub open spec fn step_date(date: CalDate, unit: IntervalUnit, count: i64) -> CalDate {
    match unit {
        IntervalUnit::Day => date_at_epoch(date.epoch() + count),
        IntervalUnit::Week => date_at_epoch(date.epoch() + count * 7),
        IntervalUnit::Month => month_shift(date, (count as i32) as int),
        IntervalUnit::Year => month_shift(date, (count as i32) * 12),
    }
}

/// The step from `date` can be taken without an arithmetic overflow or a date out of
/// `chrono`'s range, both of which panic.
pub open spec fn step_ok(date: CalDate, unit: IntervalUnit, count: i64) -> bool {
    match unit {
        IntervalUnit::Day => epoch_in_range(date.epoch() + count),
        IntervalUnit::Week => epoch_in_range(date.epoch() + count * 7),
        IntervalUnit::Month => month_shift_ok(date, (count as i32) as int),
        IntervalUnit::Year => i32::MIN <= (count as i32) * 12 <= i32::MAX && month_shift_ok(
            date,
            (count as i32) * 12,
        ),
    }
}

/// A step moves a date strictly forward.
pub open spec fn step_advances(unit: IntervalUnit, count: i64) -> bool {
    match unit {
        IntervalUnit::Day | IntervalUnit::Week => count > 0,
        IntervalUnit::Month | IntervalUnit::Year => (count as i32) > 0,
    }
}

/// The date reached from `anchor` after `k` steps.
pub open spec fn walk(anchor: CalDate, unit: IntervalUnit, count: i64, k: nat) -> CalDate
    decreases k,
{
    if k == 0 {
        anchor
    } else {
        step_date(walk(anchor, unit, count, (k - 1) as nat), unit, count)
    }
}

/// The date predicate "on or before `d`".
pub open spec fn on_or_before(d: CalDate) -> spec_fn(CalDate) -> bool {
    |x: CalDate| date_le(x, d)
}

/// The walk from `anchor` stays within `bound` at each of its points `0..=i`.
pub open spec fn walk_within(
    anchor: CalDate,
    unit: IntervalUnit,
    count: i64,
    bound: spec_fn(CalDate) -> bool,
    i: nat,
) -> bool {
    forall|j: nat| j <= i ==> bound(#[trigger] walk(anchor, unit, count, j))
}

/// Every step that the walk from `anchor` takes from a point it reaches without leaving
/// `bound` can be taken.
pub open spec fn walk_ok_within(
    anchor: CalDate,
    unit: IntervalUnit,
    count: i64,
    bound: spec_fn(CalDate) -> bool,
) -> bool {
    forall|i: nat| #[trigger]
        walk_within(anchor, unit, count, bound, i) ==> step_ok(walk(anchor, unit, count, i), unit, count)
}

pub proof fn lemma_month_shift(date: CalDate, months: int)
    requires
        date.wf(),
        month_shift_ok(date, months),
    ensures
        month_shift(date, months).wf(),
        month_shift(date, months).month_index() == date.month_index() + months,
        month_shift(date, months).year < MAX_YEAR || month_shift(date, months).month < 12,
{
}

/// A month step moves the month index by exactly `months` and lands on the same day of the
/// target month where that month has it, else on the target month's last day; and February
/// has 29 days exactly in a Gregorian leap year (a year divisible by 4 but not by 100, or by
/// 400), 28 otherwise, so January 31 plus one month is February 29 in a leap year.
pub proof fn lemma_month_step_day(date: CalDate, months: int)
    requires
        date.wf(),
        month_shift_ok(date, months),
    ensures
        ({
            let r = month_shift(date, months);
            let len = days_in_month(r.year as int, r.month as int);
            &&& r.year * 12 + r.month - 1 == date.year * 12 + date.month - 1 + months
            &&& 1 <= r.month <= 12
            &&& date.day <= len ==> r.day == date.day
            &&& date.day > len ==> r.day == len
        }),
        forall|y: int|
            #[trigger] days_in_month(y, 2) == (if (y % 4 == 0 && y % 100 != 0) || y % 400 == 0 {
                29int
            } else {
                28int
            }),
{
    lemma_month_shift(date, months);
}

/// A well-formed step lands on a well-formed date.
pub proof fn lemma_step_wf(date: CalDate, unit: IntervalUnit, count: i64)
    requires
        date.wf(),
        step_ok(date, unit, count),
    ensures
        step_date(date, unit, count).wf(),
        unit == IntervalUnit::Day ==> step_date(date, unit, count).epoch() == date.epoch() + count,
        unit == IntervalUnit::Week ==> step_date(date, unit, count).epoch() == date.epoch() + count
            * 7,
{
    match unit {
        IntervalUnit::Day => lemma_date_at_epoch_exists(date.epoch() + count),
        IntervalUnit::Week => lemma_date_at_epoch_exists(date.epoch() + count * 7),
        IntervalUnit::Month => lemma_month_shift(date, (count as i32) as int),
        IntervalUnit::Year => lemma_month_shift(date, (count as i32) * 12),
    }
}

/// A step of positive length moves a date strictly forward.
pub proof fn lemma_step_advances(date: CalDate, unit: IntervalUnit, count: i64)
    requires
        date.wf(),
        step_ok(date, unit, count),
        step_advances(unit, count),
    ensures
        date_lt(date, step_date(date, unit, count)),
{
    lemma_step_wf(date, unit, count);
    let s = step_date(date, unit, count);
    match unit {
        IntervalUnit::Day | IntervalUnit::Week => {
            lemma_epoch_order(date, s);
        },
        IntervalUnit::Month => lemma_month_shift(date, (count as i32) as int),
        IntervalUnit::Year => lemma_month_shift(date, (count as i32) * 12),
    }
}

/// The cycle that holds a date is unique: of the points a walk reaches without passing the
/// date, only one starts a step that passes it.
pub proof fn lemma_cycle_unique(anchor: CalDate, unit: IntervalUnit, count: i64, d: CalDate, j: nat, k: nat)
    requires
        walk_within(anchor, unit, count, on_or_before(d), j),
        walk_within(anchor, unit, count, on_or_before(d), k),
        date_lt(d, step_date(walk(anchor, unit, count, j), unit, count)),
        date_lt(d, step_date(walk(anchor, unit, count, k), unit, count)),
    ensures
        j == k,
{
    if j < k {
        assert(walk(anchor, unit, count, j + 1) == step_date(walk(anchor, unit, count, j), unit, count));
        assert(on_or_before(d)(walk(anchor, unit, count, j + 1)));
    } else if k < j {
        assert(walk(anchor, unit, count, k + 1) == step_date(walk(anchor, unit, count, k), unit, count));
        assert(on_or_before(d)(walk(anchor, unit, count, k + 1)));
    }
}

fn interval_unit_of(name: &str) -> (r: Option<IntervalUnit>)
    ensures
        r == unit_of(name@),
{
    if text_eq(name, "day") {
        Some(IntervalUnit::Day)
    } else if text_eq(name, "week") {
        Some(IntervalUnit::Week)
    } else if text_eq(name, "month") {
        Some(IntervalUnit::Month)
    } else if text_eq(name, "year") {
        Some(IntervalUnit::Year)
    } else {
        None
    }
}

/// The number of days in a month: the day before the first of the following month.
pub fn last_day_of_month(year: i32, month: u32) -> (r: u32)
    requires
        year_in_range(year as int),
        1 <= month <= 12,
        year < MAX_YEAR || month < 12,
    ensures
        r == days_in_month(year as int, month as int),
{
    let (next_year, next_month) = if month == 12 {
        (year + 1, 1u32)
    } else {
        (year, month + 1)
    };
    let first = CalDate::from_ymd_opt(next_year, next_month, 1).unwrap();
    proof {
        lemma_month_end_successor(year as int, month as int);
        let last = CalDate { year, month, day: days_in_month(year as int, month as int) as u32 };
        lemma_wf_epoch_in_range(last);
    }
    let before = chrono_pred_opt(first).unwrap();
    proof {
        let last = CalDate { year, month, day: days_in_month(year as int, month as int) as u32 };
        lemma_epoch_order(before, last);
    }
    before.day
}

/// `date` moved by `months` calendar months; the day is clamped to the last day of the
/// month it lands in (January 31 plus one month is the last day of February).
pub fn add_months_clamped(date: CalDate, months: i32) -> (r: CalDate)
    requires
        date.wf(),
        month_shift_ok(date, months as int),
    ensures
        r == month_shift(date, months as int),
        r.wf(),
{
    proof {
        lemma_month_shift(date, months as int);
    }
    let total_months = date.year * 12 + (date.month as i32 - 1) + months;
    let year = total_months.checked_div_euclid(12).unwrap();
    let month = (total_months.checked_rem_euclid(12).unwrap() + 1) as u32;
    let last = last_day_of_month(year, month);
    let day = if date.day < last {
        date.day
    } else {
        last
    };
    CalDate::from_ymd_opt(year, month, day).unwrap()
}

/// Advances `date` by one recurrence step of `interval_count` `interval_unit`s. Month and
/// year steps clamp to the last valid day of the target month (January 31 plus one month is
/// February 28 or 29). The unit is one of `"day"`, `"week"`, `"month"`, `"year"`.
pub fn next_date(date: CalDate, interval_unit: &str, interval_count: i64) -> (r: CalDate)
    requires
        date.wf(),
        unit_of(interval_unit@) is Some,
        step_ok(date, unit_of(interval_unit@)->0, interval_count),
    ensures
        r == step_date(date, unit_of(interval_unit@)->0, interval_count),
        r.wf(),
{
    let unit = interval_unit_of(interval_unit).unwrap();
    proof {
        lemma_step_wf(date, unit, interval_count);
        lemma_wf_epoch_in_range(date);
    }
    match unit {
        IntervalUnit::Day => {
            let r = chrono_add_days(date, interval_count);
            proof {
                lemma_date_at_epoch(r);
            }
            r
        },
        IntervalUnit::Week => {
            let r = chrono_add_days(date, interval_count * 7);
            proof {
                lemma_date_at_epoch(r);
            }
            r
        },
        IntervalUnit::Month => add_months_clamped(date, interval_count as i32),
        IntervalUnit::Year => add_months_clamped(date, interval_count as i32 * 12),
    }
}

/// Whether moving `date` by `months` months stays within the range of dates `chrono` holds.
pub fn month_shift_is_ok(date: CalDate, months: i64) -> (r: bool)
    ensures
        r == month_shift_ok(date, months as int),
{
    let total: i128 = date.year as i128 * 12 + date.month as i128 - 1 + months as i128;
    MIN_YEAR as i128 * 12 <= total && total < MAX_YEAR as i128 * 12 + 11
}

/// Whether one step of `interval_count` `interval_unit`s can be taken from `date`: the unit
/// is one of the four names and the step neither overflows nor leaves `chrono`'s range.
pub fn step_is_ok(date: CalDate, interval_unit: &str, interval_count: i64) -> (r: bool)
    requires
        date.wf(),
    ensures
        r == (unit_of(interval_unit@) is Some && step_ok(
            date,
            unit_of(interval_unit@)->0,
            interval_count,
        )),
{
    match interval_unit_of(interval_unit) {
        None => false,
        Some(IntervalUnit::Day) => epoch_is_in_range(
            epoch_of(date) as i128 + interval_count as i128,
        ),
        Some(IntervalUnit::Week) => epoch_is_in_range(
            epoch_of(date) as i128 + interval_count as i128 * 7,
        ),
        Some(IntervalUnit::Month) => month_shift_is_ok(date, (interval_count as i32) as i64),
        Some(IntervalUnit::Year) => {
            let months: i64 = (interval_count as i32) as i64 * 12;
            i32::MIN as i64 <= months && months <= i32::MAX as i64 && month_shift_is_ok(
                date,
                months,
            )
        },
    }
}

/// Whether a step of `interval_count` `interval_unit`s moves a date strictly forward (the
/// unit is one of the four names and the count is positive).
pub fn step_is_advancing(interval_unit: &str, interval_count: i64) -> (r: bool)
    ensures
        r == (unit_of(interval_unit@) is Some && step_advances(
            unit_of(interval_unit@)->0,
            interval_count,
        )),
{
    match interval_unit_of(interval_unit) {
        None => false,
        Some(IntervalUnit::Day) | Some(IntervalUnit::Week) => interval_count > 0,
        Some(IntervalUnit::Month) | Some(IntervalUnit::Year) => (interval_count as i32) > 0,
    }
}

/// Whether the cycle holding `on_date` can be found from `anchor` without a panic and
/// without walking forever: the unit is known, the first step can be taken, and, from an
/// anchor not after `on_date`, the steps move forward and each step the walk takes before
/// passing `on_date` can be taken.
pub fn cycle_walk_is_ok(anchor: CalDate, interval_unit: &str, interval_count: i64, on_date: CalDate) -> (r: bool)
    requires
        anchor.wf(),
        on_date.wf(),
    ensures
        r == (unit_of(interval_unit@) is Some && step_ok(anchor, unit_of(interval_unit@)->0, interval_count)
            && (!date_lt(on_date, anchor) ==> step_advances(unit_of(interval_unit@)->0, interval_count)
            && walk_ok_within(anchor, unit_of(interval_unit@)->0, interval_count, on_or_before(on_date)))),
{
    if !step_is_ok(anchor, interval_unit, interval_count) {
        return false;
    }
    if on_date.is_before(&anchor) {
        return true;
    }
    if !step_is_advancing(interval_unit, interval_count) {
        return false;
    }
    let ghost unit = unit_of(interval_unit@)->0;
    let ghost bound = on_or_before(on_date);
    let mut start = anchor;
    let ghost mut k: nat = 0;
    proof {
        assert(bound(walk(anchor, unit, interval_count, 0)));
        assert(walk_within(anchor, unit, interval_count, bound, 0));
    }
    loop
        invariant
            unit_of(interval_unit@) is Some,
            unit == unit_of(interval_unit@)->0,
            bound == on_or_before(on_date),
            step_ok(anchor, unit, interval_count),
            !date_lt(on_date, anchor),
            start.wf(),
            on_date.wf(),
            step_advances(unit, interval_count),
            date_le(start, on_date),
            start == walk(anchor, unit, interval_count, k),
            walk_within(anchor, unit, interval_count, bound, k),
            forall|i: nat| i < k ==> step_ok(#[trigger] walk(anchor, unit, interval_count, i), unit, interval_count),
        decreases on_date.epoch() - start.epoch(),
    {
        if !step_is_ok(start, interval_unit, interval_count) {
            return false;
        }
        let end = next_date(start, interval_unit, interval_count);
        proof {
            lemma_step_advances(start, unit, interval_count);
            assert(end == walk(anchor, unit, interval_count, k + 1));
        }
        if on_date.is_before(&end) {
            proof {
                assert forall|i: nat| #[trigger]
                    walk_within(anchor, unit, interval_count, bound, i) implies step_ok(
                    walk(anchor, unit, interval_count, i),
                    unit,
                    interval_count,
                ) by {
                    if i > k {
                        assert(bound(walk(anchor, unit, interval_count, k + 1)));
                    }
                }
            }
            return true;
        }
        proof {
            assert forall|j: nat| j <= k + 1 implies bound(#[trigger] walk(anchor, unit, interval_count, j)) by {
                if j <= k {
                    assert(walk_within(anchor, unit, interval_count, bound, k));
                }
            }
            lemma_epoch_order(start, end);
            lemma_epoch_order(end, on_date);
        }
        start = end;
        proof {
            k = k + 1;
        }
    }
}

/// Finds the cycle `[start, end)` that contains `on_date`, walking forward from `anchor` in
/// steps of `interval_count` `interval_unit`s. If `on_date` is before `anchor`, returns the
/// first (upcoming) cycle, since a recurring item has no cycles before its own anchor date.
pub fn cycle_containing(anchor: CalDate, interval_unit: &str, interval_count: i64, on_date: CalDate) -> (r: (CalDate, CalDate))
    requires
        anchor.wf(),
        on_date.wf(),
        unit_of(interval_unit@) is Some,
        step_ok(anchor, unit_of(interval_unit@)->0, interval_count),
        !date_lt(on_date, anchor) ==> step_advances(unit_of(interval_unit@)->0, interval_count)
            && walk_ok_within(anchor, unit_of(interval_unit@)->0, interval_count, on_or_before(on_date)),
    ensures
        date_lt(on_date, anchor) ==> r == (anchor, step_date(anchor, unit_of(interval_unit@)->0, interval_count)),
        !date_lt(on_date, anchor) ==> {
            &&& exists|k: nat|
                {
                    &&& r.0 == walk(anchor, unit_of(interval_unit@)->0, interval_count, k)
                    &&& walk_within(anchor, unit_of(interval_unit@)->0, interval_count, on_or_before(on_date), k)
                }
            &&& date_le(r.0, on_date)
            &&& date_lt(on_date, r.1)
            &&& r.1 == step_date(r.0, unit_of(interval_unit@)->0, interval_count)
        },
        r.0.wf(),
        r.1.wf(),
{
    let ghost unit = unit_of(interval_unit@)->0;
    if on_date.is_before(&anchor) {
        return (anchor, next_date(anchor, interval_unit, interval_count));
    }
    let mut start = anchor;
    let mut end = next_date(start, interval_unit, interval_count);
    let ghost mut k: nat = 0;
    proof {
        assert(on_or_before(on_date)(walk(anchor, unit, interval_count, 0)));
        assert(walk_within(anchor, unit, interval_count, on_or_before(on_date), 0));
        lemma_step_advances(start, unit, interval_count);
    }
    while !on_date.is_before(&end)
        invariant
            unit_of(interval_unit@) is Some,
            unit == unit_of(interval_unit@)->0,
            start.wf(),
            end.wf(),
            on_date.wf(),
            step_advances(unit, interval_count),
            walk_ok_within(anchor, unit, interval_count, on_or_before(on_date)),
            date_le(start, on_date),
            date_lt(start, end),
            start == walk(anchor, unit, interval_count, k),
            end == step_date(start, unit, interval_count),
            walk_within(anchor, unit, interval_count, on_or_before(on_date), k),
        decreases on_date.epoch() - start.epoch(),
    {
        let ghost old_start = start;
        proof {
            assert(end == walk(anchor, unit, interval_count, k + 1));
            assert forall|j: nat| j <= k + 1 implies on_or_before(on_date)(
                #[trigger] walk(anchor, unit, interval_count, j),
            ) by {
                if j <= k {
                    assert(walk_within(anchor, unit, interval_count, on_or_before(on_date), k));
                }
            }
            assert(walk_within(anchor, unit, interval_count, on_or_before(on_date), k + 1));
            lemma_epoch_order(old_start, end);
        }
        start = end;
        proof {
            k = k + 1;
        }
        end = next_date(start, interval_unit, interval_count);
        proof {
            lemma_step_advances(start, unit, interval_count);
            lemma_epoch_order(end, on_date);
            lemma_epoch_order(start, on_date);
        }
    }
    (start, end)
}

} // verus!
