//! Proleptic Gregorian calendar dates, as the `chrono` crate represents them.

use crate::text::{decimal, zero_pad};
use chrono::Datelike;
use vstd::prelude::*;

verus! {

/// The earliest year that a `chrono::NaiveDate` can hold.
pub const MIN_YEAR: i32 = -262143;

/// The latest year that a `chrono::NaiveDate` can hold.
pub const MAX_YEAR: i32 = 262142;

pub open spec fn is_leap_year(y: int) -> bool {
    (y % 4 == 0 && y % 100 != 0) || y % 400 == 0
}

pub open spec fn days_in_month(y: int, m: int) -> int {
    if m == 2 {
        if is_leap_year(y) { 29 } else { 28 }
    } else if m == 4 || m == 6 || m == 9 || m == 11 {
        30
    } else {
        31
    }
}

pub open spec fn year_length(y: int) -> int {
    if is_leap_year(y) { 366 } else { 365 }
}

pub open spec fn is_valid_ymd(y: int, m: int, d: int) -> bool {
    1 <= m <= 12 && 1 <= d <= days_in_month(y, m)
}

pub open spec fn year_in_range(y: int) -> bool {
    MIN_YEAR <= y <= MAX_YEAR
}

/// Days from 0000-01-01 to the first day of year `y` (negative before it).
pub open spec fn days_before_year(y: int) -> int {
    365 * y + (y + 3) / 4 - (y + 99) / 100 + (y + 399) / 400
}

/// Days from the first day of year `y` to the first day of month `m` of that year.
pub open spec fn days_before_month(y: int, m: int) -> int
    decreases m,
{
    if m <= 1 {
        0
    } else {
        days_before_month(y, m - 1) + days_in_month(y, m - 1)
    }
}

/// The day number of a date, counted from 0000-01-01.
pub open spec fn epoch_day(y: int, m: int, d: int) -> int {
    days_before_year(y) + days_before_month(y, m) + d - 1
}

/// A calendar date. A well-formed one (`wf`) is one that `chrono::NaiveDate` can hold.
#[derive(Clone, Copy, Debug, PartialEq, Eq, Structural)]
pub struct CalDate {
    pub year: i32,
    pub month: u32,
    pub day: u32,
}

impl CalDate {
    pub open spec fn wf(self) -> bool {
        year_in_range(self.year as int) && is_valid_ymd(
            self.year as int,
            self.month as int,
            self.day as int,
        )
    }

    pub open spec fn epoch(self) -> int {
        epoch_day(self.year as int, self.month as int, self.day as int)
    }

    /// Months since January of year 0.
    pub open spec fn month_index(self) -> int {
        self.year * 12 + self.month - 1
    }
}

pub open spec fn date_lt(a: CalDate, b: CalDate) -> bool {
    ||| a.year < b.year
    ||| a.year == b.year && a.month < b.month
    ||| a.year == b.year && a.month == b.month && a.day < b.day
}

pub open spec fn date_le(a: CalDate, b: CalDate) -> bool {
    date_lt(a, b) || a == b
}

/// The day number of the earliest date `chrono` can hold, January 1 of `MIN_YEAR`.
pub open spec fn min_epoch() -> int {
    days_before_year(MIN_YEAR as int)
}

/// The day number of the latest date `chrono` can hold, December 31 of `MAX_YEAR`.
pub open spec fn max_epoch() -> int {
    days_before_year(MAX_YEAR as int + 1) - 1
}

/// The well-formed date with day number `e`, where there is one.
pub open spec fn date_at_epoch(e: int) -> CalDate {
    choose|d: CalDate| d.wf() && d.epoch() == e
}

/// How `chrono` writes a year in `%Y`: four digits for years 0 to 9999, else a sign
/// and at least four digits.
pub open spec fn year_text(y: int) -> Seq<char> {
    if 0 <= y <= 9999 {
        zero_pad(decimal(y as nat), 4)
    } else if y < 0 {
        seq!['-'].add(zero_pad(decimal((-y) as nat), 4))
    } else {
        seq!['+'].add(zero_pad(decimal(y as nat), 4))
    }
}

/// The text of a date in the `%Y-%m-%d` format.
pub open spec fn iso_date_text(d: CalDate) -> Seq<char> {
    year_text(d.year as int).add(seq!['-']).add(zero_pad(decimal(d.month as nat), 2)).add(
        seq!['-'],
    ).add(zero_pad(decimal(d.day as nat), 2))
}

/// What `chrono::NaiveDate::parse_from_str(text, "%Y-%m-%d")` gives back: the date, or the
/// text of its parse error.
pub uninterp spec fn parsed_iso_date(text: Seq<char>) -> Result<CalDate, Seq<char>>;

/// A parse result, with the error as a `String`, is the named one.
pub open spec fn parsed_result_is(r: Result<CalDate, String>, expected: Result<CalDate, Seq<char>>) -> bool {
    match (r, expected) {
        (Ok(d), Ok(e)) => d == e,
        (Err(m), Err(t)) => m@ == t,
        _ => false,
    }
}

pub open spec fn epoch_in_range(e: int) -> bool {
    min_epoch() <= e <= max_epoch()
}

pub proof fn lemma_days_before_full_year(y: int)
    ensures
        days_before_month(y, 13) == year_length(y),
{
    reveal_with_fuel(days_before_month, 13);
}

proof fn lemma_div_succ(x: int, k: int)
    requires
        k > 0,
    ensures
        (x + 1) / k == x / k + (if (x + 1) % k == 0 { 1int } else { 0int }),
{
    let q = x / k;
    let r = x % k;
    assert(x == k * q + r && 0 <= r < k) by {
        vstd::arithmetic::div_mod::lemma_fundamental_div_mod(x, k);
    }
    if r == k - 1 {
        assert((x + 1) == k * (q + 1) + 0) by (nonlinear_arith)
            requires
                x == k * q + r,
                r == k - 1,
        ;
        vstd::arithmetic::div_mod::lemma_fundamental_div_mod_converse(x + 1, k, q + 1, 0);
    } else {
        vstd::arithmetic::div_mod::lemma_fundamental_div_mod_converse(x + 1, k, q, r + 1);
    }
}

proof fn lemma_mod_shift(x: int, k: int)
    requires
        k > 0,
    ensures
        (x + k) % k == x % k,
{
    vstd::arithmetic::div_mod::lemma_mod_add_multiples_vanish(x, k);
}

pub proof fn lemma_days_before_year_step(y: int)
    ensures
        days_before_year(y + 1) == days_before_year(y) + year_length(y),
{
    lemma_div_succ(y + 3, 4);
    lemma_div_succ(y + 99, 100);
    lemma_div_succ(y + 399, 400);
    lemma_mod_shift(y, 4);
    lemma_mod_shift(y, 100);
    lemma_mod_shift(y, 400);
}

proof fn lemma_days_before_month_nonneg(y: int, m: int)
    ensures
        days_before_month(y, m) >= 0,
    decreases m,
{
    if m > 1 {
        lemma_days_before_month_nonneg(y, m - 1);
    }
}

proof fn lemma_days_before_month_mono(y: int, m1: int, m2: int)
    requires
        1 <= m1 < m2,
    ensures
        days_before_month(y, m1) + days_in_month(y, m1) <= days_before_month(y, m2),
    decreases m2 - m1,
{
    if m2 > m1 + 1 {
        lemma_days_before_month_mono(y, m1, m2 - 1);
    }
}

proof fn lemma_days_before_year_mono(y1: int, y2: int)
    requires
        y1 < y2,
    ensures
        days_before_year(y1) + year_length(y1) <= days_before_year(y2),
    decreases y2 - y1,
{
    lemma_days_before_year_step(y1);
    if y2 > y1 + 1 {
        lemma_days_before_year_mono(y1 + 1, y2);
        lemma_days_before_year_step(y1 + 1);
    }
}

/// A valid date's day number falls inside its month, and its month inside its year.
pub proof fn lemma_epoch_within_month(y: int, m: int, d: int)
    requires
        is_valid_ymd(y, m, d),
    ensures
        days_before_year(y) + days_before_month(y, m) <= epoch_day(y, m, d),
        epoch_day(y, m, d) < days_before_year(y) + days_before_month(y, m) + days_in_month(y, m),
        days_before_year(y) <= epoch_day(y, m, d) < days_before_year(y) + year_length(y),
{
    lemma_days_before_month_nonneg(y, m);
    lemma_days_before_full_year(y);
    if m < 13 {
        lemma_days_before_month_mono(y, m, 13);
    }
}

/// On well-formed dates, the calendar order is the order of day numbers.
pub proof fn lemma_epoch_order(a: CalDate, b: CalDate)
    requires
        a.wf(),
        b.wf(),
    ensures
        date_lt(a, b) <==> a.epoch() < b.epoch(),
        (a == b) <==> a.epoch() == b.epoch(),
{
    lemma_epoch_within_month(a.year as int, a.month as int, a.day as int);
    lemma_epoch_within_month(b.year as int, b.month as int, b.day as int);
    if a.year < b.year {
        lemma_days_before_year_mono(a.year as int, b.year as int);
    } else if b.year < a.year {
        lemma_days_before_year_mono(b.year as int, a.year as int);
    } else if a.month < b.month {
        lemma_days_before_month_mono(a.year as int, a.month as int, b.month as int);
    } else if b.month < a.month {
        lemma_days_before_month_mono(a.year as int, b.month as int, a.month as int);
    }
}

/// The day after the last day of a month is the first day of the next month.
pub proof fn lemma_month_end_successor(y: int, m: int)
    requires
        1 <= m <= 12,
    ensures
        epoch_day(y, m, days_in_month(y, m)) + 1 == (if m == 12 {
            epoch_day(y + 1, 1, 1)
        } else {
            epoch_day(y, m + 1, 1)
        }),
{
    if m == 12 {
        lemma_days_before_full_year(y);
        lemma_days_before_year_step(y);
    }
}

/// Every well-formed date lies between the earliest and the latest date `chrono` can hold.
pub proof fn lemma_wf_epoch_in_range(d: CalDate)
    requires
        d.wf(),
    ensures
        epoch_in_range(d.epoch()),
{
    let y = d.year as int;
    lemma_epoch_within_month(y, d.month as int, d.day as int);
    if MIN_YEAR < y {
        lemma_days_before_year_mono(MIN_YEAR as int, y);
    }
    lemma_days_before_year_step(y);
    if y < MAX_YEAR {
        lemma_days_before_year_mono(y + 1, MAX_YEAR as int + 1);
    }
}

/// Every day number in `chrono`'s range is the day number of a well-formed date.
pub proof fn lemma_date_at_epoch_exists(e: int)
    requires
        epoch_in_range(e),
    ensures
        date_at_epoch(e).wf(),
        date_at_epoch(e).epoch() == e,
    decreases e - min_epoch(),
{
    if e == min_epoch() {
        let first = CalDate { year: MIN_YEAR, month: 1, day: 1 };
        assert(first.wf() && first.epoch() == e);
    } else {
        lemma_date_at_epoch_exists(e - 1);
        let p = date_at_epoch(e - 1);
        let y = p.year as int;
        let m = p.month as int;
        let next = if (p.day as int) < days_in_month(y, m) {
            CalDate { year: p.year, month: p.month, day: (p.day + 1) as u32 }
        } else if m < 12 {
            CalDate { year: p.year, month: (p.month + 1) as u32, day: 1 }
        } else {
            CalDate { year: (p.year + 1) as i32, month: 1, day: 1 }
        };
        if (p.day as int) >= days_in_month(y, m) {
            lemma_month_end_successor(y, m);
            if m == 12 && y == MAX_YEAR {
                assert(false);
            }
        }
        assert(next.wf() && next.epoch() == e);
    }
}

/// A well-formed date is the one date with its day number.
pub proof fn lemma_date_at_epoch(d: CalDate)
    requires
        d.wf(),
    ensures
        date_at_epoch(d.epoch()) == d,
{
    let c = date_at_epoch(d.epoch());
    assert(c.wf() && c.epoch() == d.epoch());
    lemma_epoch_order(c, d);
}

/// `chrono::NaiveDate::from_ymd_opt`: the date with these fields, where it exists in the
/// calendar and its year lies in the range `chrono` supports; else nothing.
#[verifier::external_body]
pub(crate) fn chrono_from_ymd_opt(year: i32, month: u32, day: u32) -> (r: Option<CalDate>)
    ensures
        r == (if year_in_range(year as int) && is_valid_ymd(year as int, month as int, day as int) {
            Some(CalDate { year, month, day })
        } else {
            None
        }),
{
    match chrono::NaiveDate::from_ymd_opt(year, month, day) {
        Some(d) => Some(CalDate { year: d.year(), month: d.month(), day: d.day() }),
        None => None,
    }
}

/// `chrono::NaiveDate::pred_opt`: the day before `date`, unless `date` is the earliest
/// date `chrono` can hold.
#[verifier::external_body]
pub(crate) fn chrono_pred_opt(date: CalDate) -> (r: Option<CalDate>)
    requires
        date.wf(),
    ensures
        r is Some <==> date.epoch() > min_epoch(),
        r matches Some(p) ==> p.wf() && p.epoch() == date.epoch() - 1,
{
    let d = chrono::NaiveDate::from_ymd_opt(date.year, date.month, date.day).unwrap();
    match d.pred_opt() {
        Some(p) => Some(CalDate { year: p.year(), month: p.month(), day: p.day() }),
        None => None,
    }
}

/// `date + chrono::Duration::days(days)`: the date `days` days after `date` (before it
/// where `days` is negative). The caller keeps the result within `chrono`'s range, where
/// the addition does not panic.
#[verifier::external_body]
pub(crate) fn chrono_add_days(date: CalDate, days: i64) -> (r: CalDate)
    requires
        date.wf(),
        epoch_in_range(date.epoch() + days),
    ensures
        r.wf(),
        r.epoch() == date.epoch() + days,
{
    let d = chrono::NaiveDate::from_ymd_opt(date.year, date.month, date.day).unwrap()
        + chrono::Duration::days(days);
    CalDate { year: d.year(), month: d.month(), day: d.day() }
}

/// `chrono::NaiveDate::parse_from_str(text, "%Y-%m-%d")`, with its error turned into its
/// message: the result is named `parsed_iso_date`. What the parser accepts and the words
/// of its messages are not restated here, only that a date it gives back is one `chrono`
/// can hold.
#[verifier::external_body]
pub(crate) fn chrono_parse_iso(text: &str) -> (r: Result<CalDate, String>)
    ensures
        parsed_result_is(r, parsed_iso_date(text@)),
        r matches Ok(d) ==> d.wf(),
{
    match chrono::NaiveDate::parse_from_str(text, "%Y-%m-%d") {
        Ok(d) => Ok(CalDate { year: d.year(), month: d.month(), day: d.day() }),
        Err(e) => Err(e.to_string()),
    }
}

/// `chrono::NaiveDate`'s `Display` (the same text as `format("%Y-%m-%d")`): four-digit
/// year for years 0 to 9999, else a sign and at least four digits; two-digit month and day.
#[verifier::external_body]
pub(crate) fn chrono_iso_text(date: CalDate) -> (r: String)
    requires
        date.wf(),
    ensures
        r@ == iso_date_text(date),
{
    chrono::NaiveDate::from_ymd_opt(date.year, date.month, date.day).unwrap().to_string()
}

fn is_leap_year_exec(y: i64) -> (r: bool)
    requires
        -1000000 <= y <= 1000000,
    ensures
        r == is_leap_year(y as int),
{
    let r4 = y.checked_rem_euclid(4).unwrap();
    let r100 = y.checked_rem_euclid(100).unwrap();
    let r400 = y.checked_rem_euclid(400).unwrap();
    (r4 == 0 && r100 != 0) || r400 == 0
}

fn days_in_month_exec(y: i64, m: i64) -> (r: i64)
    requires
        -1000000 <= y <= 1000000,
    ensures
        r == days_in_month(y as int, m as int),
{
    if m == 2 {
        if is_leap_year_exec(y) {
            29
        } else {
            28
        }
    } else if m == 4 || m == 6 || m == 9 || m == 11 {
        30
    } else {
        31
    }
}

/// The day number of a date (days since 0000-01-01).
pub fn epoch_of(d: CalDate) -> (r: i64)
    requires
        d.wf(),
    ensures
        r == d.epoch(),
{
    proof {
        lemma_wf_epoch_in_range(d);
    }
    let y = d.year as i64;
    let before_year = 365 * y + (y + 3).checked_div_euclid(4).unwrap() - (y + 99).checked_div_euclid(
        100,
    ).unwrap() + (y + 399).checked_div_euclid(400).unwrap();
    let mut before_month: i64 = 0;
    let mut k: i64 = 1;
    while k < d.month as i64
        invariant
            1 <= k <= d.month,
            1 <= d.month <= 12,
            -1000000 <= y <= 1000000,
            y == d.year,
            before_month == days_before_month(y as int, k as int),
            0 <= before_month <= 31 * (k - 1),
        decreases d.month - k,
    {
        before_month = before_month + days_in_month_exec(y, k);
        k += 1;
    }
    before_year + before_month + d.day as i64 - 1
}

/// Whether a day number lies in the range of dates `chrono` holds.
pub fn epoch_is_in_range(e: i128) -> (r: bool)
    ensures
        r == epoch_in_range(e as int),
{
    let min_e: i128 = 365 * (MIN_YEAR as i128) + (MIN_YEAR as i128 + 3).checked_div_euclid(4).unwrap()
        - (MIN_YEAR as i128 + 99).checked_div_euclid(100).unwrap() + (MIN_YEAR as i128
        + 399).checked_div_euclid(400).unwrap();
    let y1: i128 = MAX_YEAR as i128 + 1;
    let max_e: i128 = 365 * y1 + (y1 + 3).checked_div_euclid(4).unwrap() - (y1
        + 99).checked_div_euclid(100).unwrap() + (y1 + 399).checked_div_euclid(400).unwrap() - 1;
    min_e <= e && e <= max_e
}

impl CalDate {
    /// The date with these fields, where `chrono` can hold it.
    pub fn from_ymd_opt(year: i32, month: u32, day: u32) -> (r: Option<CalDate>)
        ensures
            r == (if year_in_range(year as int) && is_valid_ymd(
                year as int,
                month as int,
                day as int,
            ) {
                Some(CalDate { year, month, day })
            } else {
                None
            }),
            r matches Some(d) ==> d.wf(),
    {
        chrono_from_ymd_opt(year, month, day)
    }

    /// Reads a date written as `%Y-%m-%d`, as `chrono` does; the error is the parser's
    /// message.
    pub fn parse_iso(text: &str) -> (r: Result<CalDate, String>)
        ensures
            parsed_result_is(r, parsed_iso_date(text@)),
            r matches Ok(d) ==> d.wf(),
    {
        chrono_parse_iso(text)
    }

    /// The date written as `%Y-%m-%d`, as `chrono` writes it.
    pub fn to_iso_string(&self) -> (r: String)
        requires
            self.wf(),
        ensures
            r@ == iso_date_text(*self),
    {
        chrono_iso_text(*self)
    }

    /// Whether this is a date `chrono` can hold.
    pub fn is_wf(&self) -> (r: bool)
        ensures
            r == self.wf(),
    {
        CalDate::from_ymd_opt(self.year, self.month, self.day).is_some()
    }

    /// Whether this date comes strictly before `other`.
    pub fn is_before(&self, other: &CalDate) -> (r: bool)
        ensures
            r == date_lt(*self, *other),
    {
        self.year < other.year || (self.year == other.year && (self.month < other.month || (
        self.month == other.month && self.day < other.day)))
    }
}

} // verus!
