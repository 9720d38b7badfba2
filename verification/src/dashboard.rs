//! Month figures for the dashboard: what was actually entered in a month, and the
//! income, expense and net of a run of months.

use crate::models::Transaction;
use crate::data::{lemma_digits_order, lemma_padded_digits, pow10};
use crate::text::{decimal, lemma_text_lt_extend, padded_int_text, push_padded_int, text_eq, text_lt, zero_pad};
use vstd::prelude::*;

verus! {

#[derive(Debug)]
pub struct MonthSummary {
    pub transactions: Vec<Transaction>,
    pub total_income_cents: i64,
    pub total_expense_cents: i64,
    pub net_cents: i64,
}

#[derive(Clone, Copy, Debug, PartialEq, Eq, Structural)]
pub struct MonthTotal {
    pub year: i32,
    pub month: u32,
    pub total_income_cents: i64,
    pub total_expense_cents: i64,
    pub net_cents: i64,
}

/// The text `format!("{:04}-{:02}-01", year, month)` gives: the first day of a month.
pub open spec fn month_start_text(year: int, month: int) -> Seq<char> {
    padded_int_text(year, 4).add(seq!['-']).add(padded_int_text(month, 2)).add(
        seq!['-', '0', '1'],
    )
}

/// The months tile the calendar: for the years 0 to 9999, a month's first day comes, as
/// text, before the first day of the month after it, which is where the month's range
/// `[start, end)` ends; so the ranges of consecutive months neither overlap nor leave a gap.
pub proof fn lemma_month_starts_ordered(year: int, month: int)
    requires
        0 <= year <= 9999,
        1 <= month <= 12,
        month == 12 ==> year < 9999,
    ensures
        text_lt(
            month_start_text(year, month),
            if month == 12 {
                month_start_text(year + 1, 1)
            } else {
                month_start_text(year, month + 1)
            },
        ),
{
    reveal_with_fuel(pow10, 5);
    let tail = seq!['-', '0', '1'];
    if month < 12 {
        let y = zero_pad(decimal(year as nat), 4);
        let a = zero_pad(decimal(month as nat), 2);
        let b = zero_pad(decimal((month + 1) as nat), 2);
        lemma_padded_digits(month as nat, 2);
        lemma_padded_digits((month + 1) as nat, 2);
        lemma_digits_order(a, b);
        lemma_text_lt_extend(y.add(seq!['-']), a, b, tail, tail);
    } else {
        let a = zero_pad(decimal(year as nat), 4);
        let b = zero_pad(decimal((year + 1) as nat), 4);
        lemma_padded_digits(year as nat, 4);
        lemma_padded_digits((year + 1) as nat, 4);
        lemma_digits_order(a, b);
        let rest_a = seq!['-'] + zero_pad(decimal(12), 2) + tail;
        let rest_b = seq!['-'] + zero_pad(decimal(1), 2) + tail;
        lemma_text_lt_extend(Seq::empty(), a, b, rest_a, rest_b);
        assert(Seq::<char>::empty() + a + rest_a =~= month_start_text(year, month));
        assert(Seq::<char>::empty() + b + rest_b =~= month_start_text(year + 1, 1));
    }
}

/// The first day of the month, and the first day of the month after it, as date text:
/// the bounds of the half-open range `[start, end)` of the month's dates.
pub fn month_bounds(year: i32, month: u32) -> (r: (String, String))
    requires
        month == 12 ==> year < i32::MAX,
        month != 12 ==> month < u32::MAX,
    ensures
        r.0@ == month_start_text(year as int, month as int),
        r.1@ == (if month == 12 {
            month_start_text(year + 1, 1)
        } else {
            month_start_text(year as int, month + 1)
        }),
{
    let start = month_start(year, month);
    let end = if month == 12 {
        month_start(year + 1, 1)
    } else {
        month_start(year, month + 1)
    };
    (start, end)
}

fn month_start(year: i32, month: u32) -> (r: String)
    ensures
        r@ == month_start_text(year as int, month as int),
{
    let mut s = String::new();
    push_padded_int(&mut s, year as i64, 4);
    proof {
        reveal_strlit("-");
        reveal_strlit("-01");
    }
    s.append("-");
    push_padded_int(&mut s, month as i64, 2);
    s.append("-01");
    assert(s@ =~= month_start_text(year as int, month as int));
    s
}

/// The income of a run of transactions: the sum of the amounts of those of kind `"income"`.
pub open spec fn income_total(txns: Seq<Transaction>) -> int
    decreases txns.len(),
{
    if txns.len() == 0 {
        0
    } else {
        income_total(txns.drop_last()) + (if txns.last().kind@ == "income"@ {
            txns.last().amount_cents as int
        } else {
            0
        })
    }
}

/// The expense of a run of transactions: the sum of the negated amounts of those of kind
/// `"expense"` (an expense is stored as a negative amount). Transfers count toward neither.
pub open spec fn expense_total(txns: Seq<Transaction>) -> int
    decreases txns.len(),
{
    if txns.len() == 0 {
        0
    } else {
        expense_total(txns.drop_last()) + (if txns.last().kind@ == "expense"@ {
            -(txns.last().amount_cents as int)
        } else {
            0
        })
    }
}

/// How one more transaction changes a month's totals: an `"income"` row adds its amount to
/// the income, an `"expense"` row (stored negative) adds its magnitude to the expense, and
/// any other row, such as either leg of a `"transfer"`, changes neither total nor the net.
pub proof fn lemma_totals_by_kind(txns: Seq<Transaction>, t: Transaction)
    ensures
        income_total(Seq::empty()) == 0,
        expense_total(Seq::empty()) == 0,
        t.kind@ == "income"@ ==> income_total(txns.push(t)) == income_total(txns) + t.amount_cents
            && expense_total(txns.push(t)) == expense_total(txns),
        t.kind@ == "expense"@ ==> expense_total(txns.push(t)) == expense_total(txns) - t.amount_cents
            && income_total(txns.push(t)) == income_total(txns),
        t.kind@ != "income"@ && t.kind@ != "expense"@ ==> income_total(txns.push(t)) == income_total(txns)
            && expense_total(txns.push(t)) == expense_total(txns),
        t.kind@ == "transfer"@ ==> income_total(txns.push(t)) == income_total(txns)
            && expense_total(txns.push(t)) == expense_total(txns),
{
    reveal_strlit("income");
    reveal_strlit("expense");
    reveal_strlit("transfer");
    assert("income"@.len() != "expense"@.len());
    assert("transfer"@.len() != "expense"@.len());
    assert("transfer"@ != "income"@) by {
        assert("transfer"@[0] != "income"@[0]);
    }
    assert(txns.push(t).drop_last() =~= txns);
    assert(txns.push(t).last() == t);
}

/// Summing up the month neither overflows a running total nor the net.
pub open spec fn summary_ok(txns: Seq<Transaction>) -> bool {
    &&& forall|i: int|
        0 <= i <= txns.len() ==> i64::MIN <= #[trigger] income_total(txns.take(i)) <= i64::MAX
    &&& forall|i: int|
        0 <= i <= txns.len() ==> i64::MIN <= #[trigger] expense_total(txns.take(i)) <= i64::MAX
    &&& forall|i: int|
        0 <= i < txns.len() ==> (#[trigger] txns[i]).kind@ == "expense"@ ==> txns[i].amount_cents
            != i64::MIN
    &&& i64::MIN <= income_total(txns) - expense_total(txns) <= i64::MAX
}

/// Whether summing up the month fits in an `i64` (see `summary_ok`).
pub fn summary_fits(transactions: &Vec<Transaction>) -> (r: bool)
    ensures
        r == summary_ok(transactions@),
{
    let n = transactions.len();
    let mut income: i128 = 0;
    let mut expense: i128 = 0;
    let mut i: usize = 0;
    let lo = i64::MIN as i128;
    let hi = i64::MAX as i128;
    assert(transactions@.take(0) =~= Seq::<Transaction>::empty());
    while i < n
        invariant
            n == transactions@.len(),
            i <= n,
            lo == i64::MIN,
            hi == i64::MAX,
            income == income_total(transactions@.take(i as int)),
            expense == expense_total(transactions@.take(i as int)),
            forall|j: int|
                0 <= j <= i ==> lo <= #[trigger] income_total(transactions@.take(j)) <= hi,
            forall|j: int|
                0 <= j <= i ==> lo <= #[trigger] expense_total(transactions@.take(j)) <= hi,
            forall|j: int|
                0 <= j < i ==> (#[trigger] transactions@[j]).kind@ == "expense"@
                    ==> transactions@[j].amount_cents != i64::MIN,
        decreases n - i,
    {
        let t = &transactions[i];
        proof {
            let s = transactions@.take(i as int + 1);
            assert(s.drop_last() =~= transactions@.take(i as int));
            assert(s.last() == transactions@[i as int]);
            reveal_strlit("income");
            reveal_strlit("expense");
            assert("income"@.len() != "expense"@.len());
        }
        if text_eq(t.kind.as_str(), "income") {
            income = income + t.amount_cents as i128;
        } else if text_eq(t.kind.as_str(), "expense") {
            if t.amount_cents == i64::MIN {
                return false;
            }
            expense = expense - t.amount_cents as i128;
        }
        assert(income == income_total(transactions@.take(i as int + 1)));
        assert(expense == expense_total(transactions@.take(i as int + 1)));
        if !(lo <= income && income <= hi && lo <= expense && expense <= hi) {
            return false;
        }
        i += 1;
    }
    assert(transactions@.take(n as int) =~= transactions@);
    let net: i128 = income - expense;
    lo <= net && net <= hi
}

/// The view of a single month: the transactions entered in it, nothing auto-generated,
/// with income, expense and net. Transfers count toward neither income nor expense.
pub fn month_summary(transactions: Vec<Transaction>) -> (r: MonthSummary)
    requires
        summary_ok(transactions@),
    ensures
        r.transactions@ == transactions@,
        r.total_income_cents == income_total(transactions@),
        r.total_expense_cents == expense_total(transactions@),
        r.net_cents == r.total_income_cents - r.total_expense_cents,
{
    let mut total_income_cents: i64 = 0;
    let mut total_expense_cents: i64 = 0;
    let n = transactions.len();
    let mut i: usize = 0;
    while i < n
        invariant
            n == transactions@.len(),
            i <= n,
            summary_ok(transactions@),
            total_income_cents == income_total(transactions@.take(i as int)),
            total_expense_cents == expense_total(transactions@.take(i as int)),
        decreases n - i,
    {
        let t = &transactions[i];
        proof {
            let s = transactions@.take(i as int + 1);
            assert(s.drop_last() =~= transactions@.take(i as int));
            assert(s.last() == transactions@[i as int]);
            assert(i64::MIN <= income_total(s) <= i64::MAX);
            assert(i64::MIN <= expense_total(s) <= i64::MAX);
        }
        if text_eq(t.kind.as_str(), "income") {
            total_income_cents += t.amount_cents;
        } else if text_eq(t.kind.as_str(), "expense") {
            total_expense_cents += -t.amount_cents;
        }
        proof {
            reveal_strlit("income");
            reveal_strlit("expense");
            assert("income"@.len() != "expense"@.len());
        }
        i += 1;
    }
    assert(transactions@.take(n as int) =~= transactions@);
    MonthSummary {
        transactions,
        total_income_cents,
        total_expense_cents,
        net_cents: total_income_cents - total_expense_cents,
    }
}

/// The month before `(year, month)`.
pub open spec fn month_before(ym: (int, int)) -> (int, int) {
    if ym.1 == 1 {
        (ym.0 - 1, 12)
    } else {
        (ym.0, ym.1 - 1)
    }
}

/// The month `k` months before `(year, month)`.
pub open spec fn months_back(year: int, month: int, k: nat) -> (int, int)
    decreases k,
{
    if k == 0 {
        (year, month)
    } else {
        month_before(months_back(year, month, (k - 1) as nat))
    }
}

/// Walking back `months` months from `(year, month)` neither takes a month below zero
/// nor a year below `i32::MIN`, both of which panic.
pub open spec fn trend_ok(year: int, month: int, months: nat) -> bool {
    forall|k: nat|
        k < months ==> {
            let ym = #[trigger] months_back(year, month, k);
            ym.1 != 0 && (ym.1 == 1 ==> ym.0 > i32::MIN)
        }
}

/// Counting back from a real month gives real months, one calendar month apart.
pub proof fn lemma_months_back_index(year: int, month: int, k: nat)
    requires
        1 <= month <= 12,
    ensures
        1 <= months_back(year, month, k).1 <= 12,
        months_back(year, month, k).0 * 12 + months_back(year, month, k).1 == year * 12 + month
            - k,
    decreases k,
{
    if k > 0 {
        lemma_months_back_index(year, month, (k - 1) as nat);
    }
}

/// Whether walking back `months` months from `year`/`month` stays clear of a panic (see
/// `trend_ok`).
pub fn trend_fits(year: i32, month: u32, months: u32) -> (r: bool)
    ensures
        r == trend_ok(year as int, month as int, months as nat),
{
    let (mut y, mut m) = (year, month);
    let mut i: u32 = 0;
    while i < months
        invariant
            i <= months,
            (y as int, m as int) == months_back(year as int, month as int, i as nat),
            forall|k: nat|
                k < i ==> {
                    let ym = #[trigger] months_back(year as int, month as int, k);
                    ym.1 != 0 && (ym.1 == 1 ==> ym.0 > i32::MIN)
                },
        decreases months - i,
    {
        if m == 0 || (m == 1 && y == i32::MIN) {
            assert(months_back(year as int, month as int, i as nat) == (y as int, m as int));
            return false;
        }
        if m == 1 {
            y -= 1;
            m = 12;
        } else {
            m -= 1;
        }
        i += 1;
    }
    true
}

/// The `months` calendar months ending at (and including) `year`/`month`, oldest first:
/// the points of the dashboard's trend chart.
pub fn trend_months(year: i32, month: u32, months: u32) -> (r: Vec<(i32, u32)>)
    requires
        trend_ok(year as int, month as int, months as nat),
    ensures
        r@.len() == months,
        forall|j: int|
            0 <= j < months ==> (r@[j].0 as int, r@[j].1 as int) == months_back(
                year as int,
                month as int,
                (months - 1 - j) as nat,
            ),
        1 <= month <= 12 ==> forall|j: int|
            0 <= j < months ==> 1 <= #[trigger] r@[j].1 <= 12 && r@[j].0 * 12 + r@[j].1 == year
                * 12 + month - (months - 1 - j),
{
    let mut newest_first: Vec<(i32, u32)> = Vec::new();
    let (mut y, mut m) = (year, month);
    let mut i: u32 = 0;
    while i < months
        invariant
            i <= months,
            trend_ok(year as int, month as int, months as nat),
            (y as int, m as int) == months_back(year as int, month as int, i as nat),
            newest_first@.len() == i,
            forall|k: int|
                0 <= k < i ==> (newest_first@[k].0 as int, newest_first@[k].1 as int)
                    == months_back(year as int, month as int, k as nat),
        decreases months - i,
    {
        newest_first.push((y, m));
        assert(months_back(year as int, month as int, i as nat) == (y as int, m as int));
        if m == 1 {
            y -= 1;
            m = 12;
        } else {
            m -= 1;
        }
        i += 1;
    }
    let mut r: Vec<(i32, u32)> = Vec::new();
    let mut j: usize = 0;
    let n = months as usize;
    while j < n
        invariant
            n == months,
            j <= n,
            newest_first@.len() == n,
            r@.len() == j,
            forall|k: int|
                0 <= k < j ==> r@[k] == newest_first@[n - 1 - k],
        decreases n - j,
    {
        r.push(newest_first[n - 1 - j]);
        j += 1;
    }
    proof {
        if 1 <= month <= 12 {
            assert forall|j: int| 0 <= j < months implies 1 <= #[trigger] r@[j].1 <= 12 && r@[j].0
                * 12 + r@[j].1 == year * 12 + month - (months - 1 - j) by {
                lemma_months_back_index(year as int, month as int, (months - 1 - j) as nat);
            }
        }
    }
    r
}

/// Whether the figures of a month of the trend fit in an `i64`.
pub fn month_total_fits(total_income_cents: i64, expense_sum_cents: i64) -> (r: bool)
    ensures
        r == (expense_sum_cents != i64::MIN && i64::MIN <= total_income_cents + expense_sum_cents
            <= i64::MAX),
{
    let net: i128 = total_income_cents as i128 + expense_sum_cents as i128;
    expense_sum_cents != i64::MIN && i64::MIN as i128 <= net && net <= i64::MAX as i128
}

/// The figures of one month of the trend: income, expense (the negated sum of the
/// month's expense amounts) and their difference.
pub fn month_total(year: i32, month: u32, total_income_cents: i64, expense_sum_cents: i64) -> (r: MonthTotal)
    requires
        expense_sum_cents != i64::MIN,
        i64::MIN <= total_income_cents + expense_sum_cents <= i64::MAX,
    ensures
        r == (MonthTotal {
            year,
            month,
            total_income_cents,
            total_expense_cents: -expense_sum_cents as i64,
            net_cents: (total_income_cents + expense_sum_cents) as i64,
        }),
        r.net_cents == r.total_income_cents - r.total_expense_cents,
{
    let total_expense_cents = -expense_sum_cents;
    MonthTotal {
        year,
        month,
        total_income_cents,
        total_expense_cents,
        net_cents: total_income_cents - total_expense_cents,
    }
}

} // verus!
