//! Aggregation cores of the reporting endpoints: totals by kind,
//! per-category expense breakdowns with exact percentages, and daily
//! income/expense trends.  Amounts are integer cents, days are day
//! indices since the epoch, and percentages are basis points
//! (one hundredth of a percent), so every aggregate is pinned exactly.

use vstd::prelude::*;
use crate::fixed::{MAX_AMOUNT_CENTS, MAX_HISTORY_LEN};

verus! {

/// The kind of a transaction as the aggregates see it: everything that
/// is neither income nor expense counts only toward transaction
/// counts.
#[derive(Clone, Copy, Debug, PartialEq, Eq, Structural)]
pub enum TxnKind {
    Income,
    Expense,
    Other,
}

/// One transaction as the aggregation functions consume it: its kind,
/// its amount in cents, its category, and the calendar day (day index
/// since the epoch) it fell on.
#[derive(Clone, Debug)]
pub struct TxnEntry {
    pub kind: TxnKind,
    pub amount: u64,
    pub category_id: String,
    pub day: u64,
}

/// A month's totals.  `top_categories` mirrors the by-category
/// breakdown and is left empty here; `category_report` computes it.
#[derive(Clone, Debug)]
pub struct MonthlyReport {
    pub total_income: u64,
    pub total_expense: u64,
    pub net_income: i64,
    pub transaction_count: u32,
    pub top_categories: Vec<CategoryReport>,
}

/// One category's share of the expenses over a range: its total in
/// cents and its share of all expenses in basis points.
#[derive(Clone, Debug)]
pub struct CategoryReport {
    pub category_id: String,
    pub category_name: String,
    pub amount: u64,
    pub percentage_bp: u64,
}

/// Daily income and expense totals, in ascending day order.
#[derive(Clone, Debug)]
pub struct TrendReport {
    pub daily_data: Vec<DailyData>,
}

/// One day's totals.
#[derive(Clone, Copy, Debug, PartialEq, Eq, Structural)]
pub struct DailyData {
    pub day: u64,
    pub income: u64,
    pub expense: u64,
}

/// All-time totals for a user.  `by_category` is left empty by
/// `get_statistics`, as a by-category breakdown is the business of
/// `category_report`.
#[derive(Clone, Debug)]
pub struct Statistics {
    pub total_income: u64,
    pub total_expense: u64,
    pub transaction_count: u32,
    pub by_category: Vec<CategoryReport>,
}

/// Sum of the income amounts.
pub open spec fn income_sum(s: Seq<TxnEntry>) -> int
    decreases s.len(),
{
    if s.len() == 0 {
        0
    } else {
        income_sum(s.drop_last()) + if s.last().kind is Income {
            s.last().amount as int
        } else {
            0
        }
    }
}

/// Sum of the expense amounts.
pub open spec fn expense_sum(s: Seq<TxnEntry>) -> int
    decreases s.len(),
{
    if s.len() == 0 {
        0
    } else {
        expense_sum(s.drop_last()) + if s.last().kind is Expense {
            s.last().amount as int
        } else {
            0
        }
    }
}

/// Sum of the expense amounts booked under one category.
pub open spec fn cat_total(s: Seq<TxnEntry>, cat: Seq<char>) -> int
    decreases s.len(),
{
    if s.len() == 0 {
        0
    } else {
        cat_total(s.drop_last(), cat) + if s.last().kind is Expense && s.last().category_id@
            == cat {
            s.last().amount as int
        } else {
            0
        }
    }
}

/// Sum of the income amounts booked on one day.
pub open spec fn day_income(s: Seq<TxnEntry>, day: int) -> int
    decreases s.len(),
{
    if s.len() == 0 {
        0
    } else {
        day_income(s.drop_last(), day) + if s.last().kind is Income && s.last().day == day {
            s.last().amount as int
        } else {
            0
        }
    }
}

/// Sum of the expense amounts booked on one day.
pub open spec fn day_expense(s: Seq<TxnEntry>, day: int) -> int
    decreases s.len(),
{
    if s.len() == 0 {
        0
    } else {
        day_expense(s.drop_last(), day) + if s.last().kind is Expense && s.last().day == day {
            s.last().amount as int
        } else {
            0
        }
    }
}

/// Whether any expense is booked under the category.
pub open spec fn has_expense_cat(s: Seq<TxnEntry>, cat: Seq<char>) -> bool {
    exists|i: int| 0 <= i < s.len() && (#[trigger] s[i]).kind is Expense && s[i].category_id@ == cat
}

/// Whether any transaction is booked on the day.
pub open spec fn has_day(s: Seq<TxnEntry>, day: int) -> bool {
    exists|i: int| 0 <= i < s.len() && (#[trigger] s[i]).day == day
}

/// All amounts lie within `m`.
pub open spec fn entries_within(s: Seq<TxnEntry>, m: int) -> bool {
    forall|i: int| 0 <= i < s.len() ==> (#[trigger] s[i]).amount <= m
}

pub proof fn lemma_kind_sums_bound(s: Seq<TxnEntry>, m: int)
    requires
        entries_within(s, m),
        0 <= m,
    ensures
        0 <= income_sum(s) <= s.len() * m,
        0 <= expense_sum(s) <= s.len() * m,
    decreases s.len(),
{
    if s.len() == 0 {
    } else {
        assert(entries_within(s.drop_last(), m)) by {
            assert(forall|i: int| 0 <= i < s.len() - 1 ==> s.drop_last()[i] == #[trigger] s[i]);
        }
        lemma_kind_sums_bound(s.drop_last(), m);
        assert(s[s.len() - 1].amount <= m);
        assert((s.len() - 1) * m + m == s.len() * m) by (nonlinear_arith);
        assert(0 <= (s.len() - 1) * m) by (nonlinear_arith)
            requires 0 <= s.len() - 1 && 0 <= m,
        ;
    }
}

/// A category's total is non-negative and part of the expense total.
pub proof fn lemma_cat_total_le_expense(s: Seq<TxnEntry>, cat: Seq<char>)
    ensures
        0 <= cat_total(s, cat) <= expense_sum(s),
    decreases s.len(),
{
    if s.len() == 0 {
    } else {
        lemma_cat_total_le_expense(s.drop_last(), cat);
    }
}

/// A category no expense is booked under totals zero.
pub proof fn lemma_cat_total_absent_zero(s: Seq<TxnEntry>, cat: Seq<char>)
    requires
        !has_expense_cat(s, cat),
    ensures
        cat_total(s, cat) == 0,
    decreases s.len(),
{
    if s.len() == 0 {
    } else {
        assert(!has_expense_cat(s.drop_last(), cat)) by {
            if has_expense_cat(s.drop_last(), cat) {
                let k = choose|k: int| 0 <= k < s.len() - 1
                    && (#[trigger] s.drop_last()[k]).kind is Expense
                    && s.drop_last()[k].category_id@ == cat;
                assert(s[k] == s.drop_last()[k]);
            }
        }
        lemma_cat_total_absent_zero(s.drop_last(), cat);
        assert(!(s[s.len() - 1].kind is Expense && s[s.len() - 1].category_id@ == cat));
    }
}

/// What one entry of a finished category report claims: its amount is
/// the exact total of its category, its display name is the category
/// id, its percentage is the category's share of all expenses in basis
/// points (rounded down, zero when nothing was spent), and its category
/// actually occurs as an expense.
pub open spec fn report_entry_ok(rep: CategoryReport, s: Seq<TxnEntry>) -> bool {
    &&& rep.amount == cat_total(s, rep.category_id@)
    &&& rep.category_name@ == rep.category_id@
    &&& rep.percentage_bp == (if expense_sum(s) > 0 {
        (cat_total(s, rep.category_id@) * 10_000) / expense_sum(s)
    } else {
        0
    })
    &&& has_expense_cat(s, rep.category_id@)
}

/// The index of the key in the accumulator, if it holds one.
fn find_pair(acc: &Vec<(String, u64)>, key: &String) -> (r: Option<usize>)
    ensures
        match r {
            Some(j) => j < acc@.len() && acc@[j as int].0@ == key@,
            None => forall|j: int| 0 <= j < acc@.len() ==> (#[trigger] acc@[j]).0@ != key@,
        },
{
    let n = acc.len();
    let mut j: usize = 0;
    while j < n
        invariant
            0 <= j <= n,
            n == acc@.len(),
            forall|k: int| 0 <= k < j ==> (#[trigger] acc@[k]).0@ != key@,
        decreases n - j,
    {
        if acc[j].0 == *key {
            return Some(j);
        }
        j = j + 1;
    }
    None
}

/// The per-category expense breakdown of a range: one entry per
/// category that occurs as an expense, holding that category's exact
/// total and its share of all expenses in basis points, sorted by
/// amount in descending order.  As in the rest of the reporting layer,
/// the display name is the raw category id.
pub fn category_report(txns: &Vec<TxnEntry>) -> (r: Vec<CategoryReport>)
    requires
        txns@.len() <= MAX_HISTORY_LEN,
        entries_within(txns@, MAX_AMOUNT_CENTS as int),
    ensures
        forall|j: int| 0 <= j < r@.len() ==> report_entry_ok(#[trigger] r@[j], txns@),
        forall|i: int, j: int| 0 <= i < j < r@.len()
            ==> (#[trigger] r@[i]).category_id@ != (#[trigger] r@[j]).category_id@,
        forall|c: Seq<char>| #[trigger] has_expense_cat(txns@, c)
            ==> exists|j: int| 0 <= j < r@.len() && (#[trigger] r@[j]).category_id@ == c,
        forall|i: int, j: int| 0 <= i <= j < r@.len()
            ==> (#[trigger] r@[i]).amount >= (#[trigger] r@[j]).amount,
{
    let ghost gt = txns@;
    let n = txns.len();
    let mut acc: Vec<(String, u64)> = Vec::new();
    let mut total: u64 = 0;
    let mut i: usize = 0;
    while i < n
        invariant
            0 <= i <= n,
            n == gt.len() <= MAX_HISTORY_LEN,
            gt == txns@,
            entries_within(gt, MAX_AMOUNT_CENTS as int),
            total == expense_sum(gt.subrange(0, i as int)),
            total <= i * (MAX_AMOUNT_CENTS as int),
            forall|j: int| 0 <= j < acc@.len()
                ==> (#[trigger] acc@[j]).1 == cat_total(gt.subrange(0, i as int), acc@[j].0@),
            forall|j: int, k: int| 0 <= j < k < acc@.len()
                ==> (#[trigger] acc@[j]).0@ != (#[trigger] acc@[k]).0@,
            forall|j: int| 0 <= j < acc@.len()
                ==> has_expense_cat(gt.subrange(0, i as int), (#[trigger] acc@[j]).0@),
            forall|c: Seq<char>| #[trigger] has_expense_cat(gt.subrange(0, i as int), c)
                ==> exists|j: int| 0 <= j < acc@.len() && (#[trigger] acc@[j]).0@ == c,
        decreases n - i,
    {
        let ghost p = gt.subrange(0, i as int);
        let ghost t = gt.subrange(0, i as int + 1);
        proof {
            assert(t.drop_last() =~= p);
            assert(t.last() == gt[i as int]);
            assert(gt[i as int].amount <= MAX_AMOUNT_CENTS);
            assert(i * (MAX_AMOUNT_CENTS as int) + MAX_AMOUNT_CENTS as int
                == (i + 1) * (MAX_AMOUNT_CENTS as int)) by (nonlinear_arith);
            assert(0 <= i * (MAX_AMOUNT_CENTS as int)) by (nonlinear_arith)
                requires 0 <= i,
            ;
            // Old witnesses carry over: every index of the prefix is an
            // index of the extension.
            assert(forall|k: int| 0 <= k < p.len() ==> p[k] == #[trigger] t[k]);
            assert forall|c: Seq<char>| #[trigger] has_expense_cat(p, c)
                implies has_expense_cat(t, c) by {
                let k = choose|k: int| 0 <= k < p.len() && (#[trigger] p[k]).kind is Expense
                    && p[k].category_id@ == c;
                assert(t[k].kind is Expense && t[k].category_id@ == c);
            }
        }
        let e = &txns[i];
        match e.kind {
            TxnKind::Expense => {
                proof {
                    lemma_kind_sums_bound(t, MAX_AMOUNT_CENTS as int);
                    assert(expense_sum(t) == expense_sum(p) + gt[i as int].amount);
                    assert(expense_sum(t) <= (i + 1) * (MAX_AMOUNT_CENTS as int));
                    assert forall|c: Seq<char>| c != gt[i as int].category_id@
                        implies #[trigger] cat_total(t, c) == cat_total(p, c) by {
                    }
                    assert(cat_total(t, gt[i as int].category_id@)
                        == cat_total(p, gt[i as int].category_id@) + gt[i as int].amount);
                    // A category seen in the extension was either just
                    // booked or already seen.
                    assert forall|c: Seq<char>| #[trigger] has_expense_cat(t, c)
                        implies c == gt[i as int].category_id@ || has_expense_cat(p, c) by {
                        let k = choose|k: int| 0 <= k < t.len() && (#[trigger] t[k]).kind is Expense
                            && t[k].category_id@ == c;
                        if k < p.len() {
                            assert(p[k] == t[k]);
                            assert(has_expense_cat(p, c));
                        }
                    }
                }
                total = total + e.amount;
                let ghost old_acc = acc@;
                match find_pair(&acc, &e.category_id) {
                    Some(j) => {
                        proof {
                            lemma_cat_total_le_expense(t, gt[i as int].category_id@);
                        }
                        let name = acc[j].0.clone();
                        let updated: u64 = acc[j].1 + e.amount;
                        acc[j] = (name, updated);
                        proof {
                            assert(acc@ == old_acc.update(j as int, acc@[j as int]));
                            assert(acc@[j as int].0@ == gt[i as int].category_id@);
                            assert(forall|l: int| 0 <= l < acc@.len()
                                ==> (#[trigger] acc@[l]).0@ == old_acc[l].0@);
                            assert forall|c: Seq<char>| #[trigger] has_expense_cat(t, c)
                                implies exists|l: int| 0 <= l < acc@.len()
                                    && (#[trigger] acc@[l]).0@ == c by {
                                if c == gt[i as int].category_id@ {
                                    assert(acc@[j as int].0@ == c);
                                } else {
                                    assert(has_expense_cat(p, c));
                                    let l = choose|l: int| 0 <= l < old_acc.len()
                                        && (#[trigger] old_acc[l]).0@ == c;
                                    assert(acc@[l].0@ == c);
                                }
                            }
                        }
                    },
                    None => {
                        proof {
                            assert(!has_expense_cat(p, gt[i as int].category_id@)) by {
                                if has_expense_cat(p, gt[i as int].category_id@) {
                                    assert(exists|j: int| 0 <= j < acc@.len()
                                        && (#[trigger] acc@[j]).0@ == gt[i as int].category_id@);
                                }
                            }
                            lemma_cat_total_absent_zero(p, gt[i as int].category_id@);
                        }
                        acc.push((e.category_id.clone(), e.amount));
                        proof {
                            assert(acc@ == old_acc.push(acc@.last()));
                            assert(acc@.last().0@ == gt[i as int].category_id@);
                            assert(forall|l: int| 0 <= l < old_acc.len()
                                ==> #[trigger] acc@[l] == old_acc[l]);
                            assert forall|c: Seq<char>| #[trigger] has_expense_cat(t, c)
                                implies exists|l: int| 0 <= l < acc@.len()
                                    && (#[trigger] acc@[l]).0@ == c by {
                                if c == gt[i as int].category_id@ {
                                    assert(acc@[acc@.len() - 1].0@ == c);
                                } else {
                                    assert(has_expense_cat(p, c));
                                    let l = choose|l: int| 0 <= l < old_acc.len()
                                        && (#[trigger] old_acc[l]).0@ == c;
                                    assert(acc@[l].0@ == c);
                                }
                            }
                        }
                    },
                }
            },
            _ => {
                proof {
                    assert(expense_sum(t) == expense_sum(p));
                    assert forall|c: Seq<char>| #[trigger] cat_total(t, c) == cat_total(p, c) by {
                    }
                    assert forall|c: Seq<char>| #[trigger] has_expense_cat(t, c)
                        implies has_expense_cat(p, c) by {
                        let k = choose|k: int| 0 <= k < t.len() && (#[trigger] t[k]).kind is Expense
                            && t[k].category_id@ == c;
                        assert(k < p.len());
                        assert(p[k] == t[k]);
                    }
                    assert forall|c: Seq<char>| #[trigger] has_expense_cat(t, c)
                        implies exists|l: int| 0 <= l < acc@.len()
                            && (#[trigger] acc@[l]).0@ == c by {
                        assert(has_expense_cat(p, c));
                    }
                }
            },
        }
        i = i + 1;
    }
    proof {
        assert(gt.subrange(0, n as int) =~= gt);
    }

    // Percentages: each category's share of the expense total, in
    // basis points, rounded down.
    let m = acc.len();
    let mut reports: Vec<CategoryReport> = Vec::new();
    let mut j: usize = 0;
    while j < m
        invariant
            0 <= j <= m,
            m == acc@.len(),
            gt == txns@,
            total == expense_sum(gt),
            forall|k: int| 0 <= k < acc@.len()
                ==> (#[trigger] acc@[k]).1 == cat_total(gt, acc@[k].0@),
            forall|k: int, l: int| 0 <= k < l < acc@.len()
                ==> (#[trigger] acc@[k]).0@ != (#[trigger] acc@[l]).0@,
            forall|k: int| 0 <= k < acc@.len()
                ==> has_expense_cat(gt, (#[trigger] acc@[k]).0@),
            forall|c: Seq<char>| #[trigger] has_expense_cat(gt, c)
                ==> exists|k: int| 0 <= k < acc@.len() && (#[trigger] acc@[k]).0@ == c,
            reports@.len() == j,
            forall|k: int| 0 <= k < j ==> report_entry_ok(#[trigger] reports@[k], gt),
            forall|k: int| 0 <= k < j ==> (#[trigger] reports@[k]).category_id@
                == acc@[k].0@,
        decreases m - j,
    {
        let amount = acc[j].1;
        let pp: u64 = if total > 0 {
            proof {
                lemma_cat_total_le_expense(gt, acc@[j as int].0@);
                assert(cat_total(gt, acc@[j as int].0@) * 10_000
                    <= expense_sum(gt) * 10_000) by (nonlinear_arith)
                    requires cat_total(gt, acc@[j as int].0@) <= expense_sum(gt),
                ;
                crate::fixed::lemma_div_le_bound(
                    cat_total(gt, acc@[j as int].0@) * 10_000,
                    expense_sum(gt),
                    10_000,
                );
                vstd::arithmetic::div_mod::lemma_div_pos_is_pos(
                    cat_total(gt, acc@[j as int].0@) * 10_000,
                    expense_sum(gt),
                );
            }
            (((amount as u128) * 10_000) / (total as u128)) as u64
        } else {
            0
        };
        let name = acc[j].0.clone();
        let id = acc[j].0.clone();
        reports.push(CategoryReport {
            category_id: id,
            category_name: name,
            amount,
            percentage_bp: pp,
        });
        j = j + 1;
    }

    proof {
        assert forall|c: Seq<char>| #[trigger] has_expense_cat(gt, c)
            implies exists|j2: int| 0 <= j2 < reports@.len()
                && (#[trigger] reports@[j2]).category_id@ == c by {
            let k = choose|k: int| 0 <= k < acc@.len() && (#[trigger] acc@[k]).0@ == c;
            assert(reports@[k].category_id@ == c);
        }
    }
    sort_reports_desc(reports, Ghost(gt))
}

/// Sorts a category report by amount, largest first, preserving each
/// entry's facts, the distinctness of the categories and their
/// completeness.  Selection sort: repeatedly extract a maximal entry.
fn sort_reports_desc(input: Vec<CategoryReport>, Ghost(gt): Ghost<Seq<TxnEntry>>) -> (r: Vec<
    CategoryReport,
>)
    requires
        forall|j: int| 0 <= j < input@.len() ==> report_entry_ok(#[trigger] input@[j], gt),
        forall|i: int, j: int| 0 <= i < j < input@.len()
            ==> (#[trigger] input@[i]).category_id@ != (#[trigger] input@[j]).category_id@,
        forall|c: Seq<char>| #[trigger] has_expense_cat(gt, c)
            ==> exists|j: int| 0 <= j < input@.len() && (#[trigger] input@[j]).category_id@ == c,
    ensures
        forall|j: int| 0 <= j < r@.len() ==> report_entry_ok(#[trigger] r@[j], gt),
        forall|i: int, j: int| 0 <= i < j < r@.len()
            ==> (#[trigger] r@[i]).category_id@ != (#[trigger] r@[j]).category_id@,
        forall|c: Seq<char>| #[trigger] has_expense_cat(gt, c)
            ==> exists|j: int| 0 <= j < r@.len() && (#[trigger] r@[j]).category_id@ == c,
        forall|i: int, j: int| 0 <= i <= j < r@.len()
            ==> (#[trigger] r@[i]).amount >= (#[trigger] r@[j]).amount,
{
    let mut rem = input;
    let mut out: Vec<CategoryReport> = Vec::new();
    while rem.len() > 0
        invariant
            forall|j: int| 0 <= j < rem@.len() ==> report_entry_ok(#[trigger] rem@[j], gt),
            forall|j: int| 0 <= j < out@.len() ==> report_entry_ok(#[trigger] out@[j], gt),
            forall|i: int, j: int| 0 <= i < j < rem@.len()
                ==> (#[trigger] rem@[i]).category_id@ != (#[trigger] rem@[j]).category_id@,
            forall|i: int, j: int| 0 <= i < j < out@.len()
                ==> (#[trigger] out@[i]).category_id@ != (#[trigger] out@[j]).category_id@,
            forall|i: int, j: int| 0 <= i < out@.len() && 0 <= j < rem@.len()
                ==> (#[trigger] out@[i]).category_id@ != (#[trigger] rem@[j]).category_id@,
            forall|i: int, j: int| 0 <= i <= j < out@.len()
                ==> (#[trigger] out@[i]).amount >= (#[trigger] out@[j]).amount,
            forall|i: int, j: int| 0 <= i < out@.len() && 0 <= j < rem@.len()
                ==> (#[trigger] out@[i]).amount >= (#[trigger] rem@[j]).amount,
            forall|c: Seq<char>| #[trigger] has_expense_cat(gt, c)
                ==> (exists|j: int| 0 <= j < out@.len() && (#[trigger] out@[j]).category_id@ == c)
                    || (exists|j: int| 0 <= j < rem@.len()
                        && (#[trigger] rem@[j]).category_id@ == c),
        decreases rem@.len(),
    {
        let k = rem.len();
        let mut mi: usize = 0;
        let mut j: usize = 1;
        while j < k
            invariant
                0 <= mi < j <= k,
                k == rem@.len(),
                forall|l: int| 0 <= l < j
                    ==> rem@[mi as int].amount >= (#[trigger] rem@[l]).amount,
            decreases k - j,
        {
            if rem[j].amount > rem[mi].amount {
                mi = j;
            }
            j = j + 1;
        }
        let ghost old_rem = rem@;
        let item = rem.swap_remove(mi);
        proof {
            let new_rem = rem@;
            assert(new_rem == old_rem.update(mi as int, old_rem.last()).drop_last());
            // Every remaining entry is one of the old entries, and
            // every old entry other than the extracted one remains.
            assert forall|l: int| 0 <= l < new_rem.len()
                implies #[trigger] new_rem[l] == old_rem[l] || new_rem[l] == old_rem.last() by {
            }
            assert forall|l: int| 0 <= l < old_rem.len()
                implies item.category_id@ == (#[trigger] old_rem[l]).category_id@
                    || (exists|l2: int| 0 <= l2 < new_rem.len()
                        && (#[trigger] new_rem[l2]).category_id@ == old_rem[l].category_id@) by {
                if l == mi as int {
                    assert(item.category_id@ == old_rem[l].category_id@);
                } else if l == old_rem.len() - 1 {
                    if mi as int == old_rem.len() - 1 {
                        assert(item.category_id@ == old_rem[l].category_id@);
                    } else {
                        assert(new_rem[mi as int] == old_rem.last());
                        assert(new_rem[mi as int].category_id@ == old_rem[l].category_id@);
                    }
                } else {
                    assert(new_rem[l] == old_rem[l]);
                    assert(new_rem[l].category_id@ == old_rem[l].category_id@);
                }
            }
        }
        let ghost old_out = out@;
        out.push(item);
        proof {
            assert(out@ == old_out.push(item));
            assert(forall|l: int| 0 <= l < old_out.len() ==> #[trigger] out@[l] == old_out[l]);
            assert forall|c: Seq<char>| #[trigger] has_expense_cat(gt, c)
                implies (exists|l: int| 0 <= l < out@.len()
                    && (#[trigger] out@[l]).category_id@ == c)
                    || (exists|l: int| 0 <= l < rem@.len()
                        && (#[trigger] rem@[l]).category_id@ == c) by {
                if exists|l: int| 0 <= l < old_out.len()
                    && (#[trigger] old_out[l]).category_id@ == c {
                    let l = choose|l: int| 0 <= l < old_out.len()
                        && (#[trigger] old_out[l]).category_id@ == c;
                    assert(out@[l].category_id@ == c);
                } else {
                    let l = choose|l: int| 0 <= l < old_rem.len()
                        && (#[trigger] old_rem[l]).category_id@ == c;
                    if item.category_id@ == old_rem[l].category_id@ {
                        assert(out@[out@.len() - 1].category_id@ == c);
                    }
                }
            }
        }
    }
    out
}

/// A month's (or any range's) totals: income and expense sums, their
/// difference, and the transaction count.  The by-category breakdown
/// is left to `category_report`.
pub fn monthly_report(txns: &Vec<TxnEntry>) -> (r: MonthlyReport)
    requires
        txns@.len() <= MAX_HISTORY_LEN,
        entries_within(txns@, MAX_AMOUNT_CENTS as int),
    ensures
        r.total_income == income_sum(txns@),
        r.total_expense == expense_sum(txns@),
        r.net_income == income_sum(txns@) - expense_sum(txns@),
        r.transaction_count == txns@.len(),
        r.top_categories@.len() == 0,
{
    let (inc, exp, count) = sum_by_kind(txns);
    proof {
        lemma_kind_sums_bound(txns@, MAX_AMOUNT_CENTS as int);
    }
    MonthlyReport {
        total_income: inc,
        total_expense: exp,
        net_income: (inc as i64) - (exp as i64),
        transaction_count: count,
        top_categories: Vec::new(),
    }
}

/// All-time totals: the same sums as a monthly report, packaged for
/// the statistics endpoint.
pub fn get_statistics(txns: &Vec<TxnEntry>) -> (r: Statistics)
    requires
        txns@.len() <= MAX_HISTORY_LEN,
        entries_within(txns@, MAX_AMOUNT_CENTS as int),
    ensures
        r.total_income == income_sum(txns@),
        r.total_expense == expense_sum(txns@),
        r.transaction_count == txns@.len(),
        r.by_category@.len() == 0,
{
    let (inc, exp, count) = sum_by_kind(txns);
    Statistics {
        total_income: inc,
        total_expense: exp,
        transaction_count: count,
        by_category: Vec::new(),
    }
}

/// What one day's entry of a finished trend report claims: its income
/// and expense are the exact totals of that day, and some transaction
/// fell on that day.
pub open spec fn trend_entry_ok(d: DailyData, s: Seq<TxnEntry>) -> bool {
    &&& d.income == day_income(s, d.day as int)
    &&& d.expense == day_expense(s, d.day as int)
    &&& has_day(s, d.day as int)
}

/// A day's totals are non-negative and part of the overall totals.
pub proof fn lemma_day_sums_le(s: Seq<TxnEntry>, day: int)
    ensures
        0 <= day_income(s, day) <= income_sum(s),
        0 <= day_expense(s, day) <= expense_sum(s),
    decreases s.len(),
{
    if s.len() == 0 {
    } else {
        lemma_day_sums_le(s.drop_last(), day);
    }
}

/// A day no transaction fell on totals zero.
pub proof fn lemma_day_sums_absent_zero(s: Seq<TxnEntry>, day: int)
    requires
        !has_day(s, day),
    ensures
        day_income(s, day) == 0,
        day_expense(s, day) == 0,
    decreases s.len(),
{
    if s.len() == 0 {
    } else {
        assert(!has_day(s.drop_last(), day)) by {
            if has_day(s.drop_last(), day) {
                let k = choose|k: int| 0 <= k < s.len() - 1
                    && (#[trigger] s.drop_last()[k]).day == day;
                assert(s[k] == s.drop_last()[k]);
            }
        }
        lemma_day_sums_absent_zero(s.drop_last(), day);
        assert(s[s.len() - 1].day != day);
    }
}

/// The index of the day in the accumulator, if it holds one.
fn find_day(acc: &Vec<DailyData>, day: u64) -> (r: Option<usize>)
    ensures
        match r {
            Some(j) => j < acc@.len() && acc@[j as int].day == day,
            None => forall|j: int| 0 <= j < acc@.len() ==> (#[trigger] acc@[j]).day != day,
        },
{
    let n = acc.len();
    let mut j: usize = 0;
    while j < n
        invariant
            0 <= j <= n,
            n == acc@.len(),
            forall|k: int| 0 <= k < j ==> (#[trigger] acc@[k]).day != day,
        decreases n - j,
    {
        if acc[j].day == day {
            return Some(j);
        }
        j = j + 1;
    }
    None
}

/// The daily income and expense totals over a range: one entry per
/// calendar day that saw a transaction, with that day's exact totals,
/// in ascending day order.
pub fn trend_report(txns: &Vec<TxnEntry>) -> (r: TrendReport)
    requires
        txns@.len() <= MAX_HISTORY_LEN,
        entries_within(txns@, MAX_AMOUNT_CENTS as int),
    ensures
        forall|j: int| 0 <= j < r.daily_data@.len()
            ==> trend_entry_ok(#[trigger] r.daily_data@[j], txns@),
        forall|d: int| #[trigger] has_day(txns@, d)
            ==> exists|j: int| 0 <= j < r.daily_data@.len()
                && (#[trigger] r.daily_data@[j]).day == d,
        forall|i: int, j: int| 0 <= i < j < r.daily_data@.len()
            ==> (#[trigger] r.daily_data@[i]).day < (#[trigger] r.daily_data@[j]).day,
{
    let ghost gt = txns@;
    let n = txns.len();
    let mut acc: Vec<DailyData> = Vec::new();
    let mut i: usize = 0;
    while i < n
        invariant
            0 <= i <= n,
            n == gt.len() <= MAX_HISTORY_LEN,
            gt == txns@,
            entries_within(gt, MAX_AMOUNT_CENTS as int),
            forall|j: int| 0 <= j < acc@.len()
                ==> trend_entry_ok(#[trigger] acc@[j], gt.subrange(0, i as int)),
            forall|j: int, k: int| 0 <= j < k < acc@.len()
                ==> (#[trigger] acc@[j]).day != (#[trigger] acc@[k]).day,
            forall|d: int| #[trigger] has_day(gt.subrange(0, i as int), d)
                ==> exists|j: int| 0 <= j < acc@.len() && (#[trigger] acc@[j]).day == d,
        decreases n - i,
    {
        let ghost p = gt.subrange(0, i as int);
        let ghost t = gt.subrange(0, i as int + 1);
        proof {
            assert(t.drop_last() =~= p);
            assert(t.last() == gt[i as int]);
            assert(gt[i as int].amount <= MAX_AMOUNT_CENTS);
            assert(forall|k: int| 0 <= k < p.len() ==> p[k] == #[trigger] t[k]);
            lemma_kind_sums_bound(t, MAX_AMOUNT_CENTS as int);
            assert forall|d: int| #[trigger] day_income(t, d) == day_income(p, d)
                + (if gt[i as int].kind is Income && gt[i as int].day == d {
                    gt[i as int].amount as int
                } else {
                    0
                }) by {
            }
            assert forall|d: int| #[trigger] day_expense(t, d) == day_expense(p, d)
                + (if gt[i as int].kind is Expense && gt[i as int].day == d {
                    gt[i as int].amount as int
                } else {
                    0
                }) by {
            }
            assert forall|d: int| #[trigger] has_day(t, d)
                implies d == gt[i as int].day || has_day(p, d) by {
                let k = choose|k: int| 0 <= k < t.len() && (#[trigger] t[k]).day == d;
                if k < p.len() {
                    assert(p[k] == t[k]);
                }
            }
            assert forall|d: int| #[trigger] has_day(p, d) implies has_day(t, d) by {
                let k = choose|k: int| 0 <= k < p.len() && (#[trigger] p[k]).day == d;
                assert(t[k].day == d);
            }
            assert(has_day(t, gt[i as int].day as int)) by {
                assert(t[t.len() - 1].day == gt[i as int].day);
            }
        }
        let e = &txns[i];
        let ghost old_acc = acc@;
        match find_day(&acc, e.day) {
            Some(j) => {
                proof {
                    lemma_day_sums_le(t, gt[i as int].day as int);
                }
                let day = acc[j].day;
                let income = acc[j].income;
                let expense = acc[j].expense;
                let updated = match e.kind {
                    TxnKind::Income => DailyData { day, income: income + e.amount, expense },
                    TxnKind::Expense => DailyData { day, income, expense: expense + e.amount },
                    TxnKind::Other => DailyData { day, income, expense },
                };
                acc[j] = updated;
                proof {
                    assert(acc@ == old_acc.update(j as int, acc@[j as int]));
                    assert(acc@[j as int].day == gt[i as int].day);
                    assert(forall|l: int| 0 <= l < acc@.len()
                        ==> (#[trigger] acc@[l]).day == old_acc[l].day);
                    assert forall|d: int| #[trigger] has_day(t, d)
                        implies exists|l: int| 0 <= l < acc@.len()
                            && (#[trigger] acc@[l]).day == d by {
                        if d == gt[i as int].day {
                            assert(acc@[j as int].day == d);
                        } else {
                            assert(has_day(p, d));
                            let l = choose|l: int| 0 <= l < old_acc.len()
                                && (#[trigger] old_acc[l]).day == d;
                            assert(acc@[l].day == d);
                        }
                    }
                }
            },
            None => {
                proof {
                    assert(!has_day(p, gt[i as int].day as int)) by {
                        if has_day(p, gt[i as int].day as int) {
                            assert(exists|j: int| 0 <= j < acc@.len()
                                && (#[trigger] acc@[j]).day == gt[i as int].day);
                        }
                    }
                    lemma_day_sums_absent_zero(p, gt[i as int].day as int);
                }
                let fresh = match e.kind {
                    TxnKind::Income => DailyData { day: e.day, income: e.amount, expense: 0 },
                    TxnKind::Expense => DailyData { day: e.day, income: 0, expense: e.amount },
                    TxnKind::Other => DailyData { day: e.day, income: 0, expense: 0 },
                };
                acc.push(fresh);
                proof {
                    assert(acc@ == old_acc.push(fresh));
                    assert(acc@.last().day == gt[i as int].day);
                    assert(forall|l: int| 0 <= l < old_acc.len()
                        ==> #[trigger] acc@[l] == old_acc[l]);
                    assert forall|d: int| #[trigger] has_day(t, d)
                        implies exists|l: int| 0 <= l < acc@.len()
                            && (#[trigger] acc@[l]).day == d by {
                        if d == gt[i as int].day {
                            assert(acc@[acc@.len() - 1].day == d);
                        } else {
                            assert(has_day(p, d));
                            let l = choose|l: int| 0 <= l < old_acc.len()
                                && (#[trigger] old_acc[l]).day == d;
                            assert(acc@[l].day == d);
                        }
                    }
                }
            },
        }
        i = i + 1;
    }
    proof {
        assert(gt.subrange(0, n as int) =~= gt);
    }
    let sorted = sort_daily_asc(acc, Ghost(gt));
    let r = TrendReport { daily_data: sorted };
    proof {
        assert forall|d: int| #[trigger] has_day(txns@, d)
            implies exists|j: int| 0 <= j < r.daily_data@.len()
                && (#[trigger] r.daily_data@[j]).day == d by {
            assert(has_day(gt, d));
            let j = choose|j: int| 0 <= j < sorted@.len() && (#[trigger] sorted@[j]).day == d;
            assert(r.daily_data@[j].day == d);
        }
    }
    r
}

/// Sorts daily totals by day, earliest first, preserving each entry's
/// facts, the distinctness of the days and their completeness.
/// Selection sort: repeatedly extract a minimal entry.
fn sort_daily_asc(input: Vec<DailyData>, Ghost(gt): Ghost<Seq<TxnEntry>>) -> (r: Vec<DailyData>)
    requires
        forall|j: int| 0 <= j < input@.len() ==> trend_entry_ok(#[trigger] input@[j], gt),
        forall|i: int, j: int| 0 <= i < j < input@.len()
            ==> (#[trigger] input@[i]).day != (#[trigger] input@[j]).day,
        forall|d: int| #[trigger] has_day(gt, d)
            ==> exists|j: int| 0 <= j < input@.len() && (#[trigger] input@[j]).day == d,
    ensures
        forall|j: int| 0 <= j < r@.len() ==> trend_entry_ok(#[trigger] r@[j], gt),
        forall|d: int| #[trigger] has_day(gt, d)
            ==> exists|j: int| 0 <= j < r@.len() && (#[trigger] r@[j]).day == d,
        forall|i: int, j: int| 0 <= i < j < r@.len()
            ==> (#[trigger] r@[i]).day < (#[trigger] r@[j]).day,
{
    let mut rem = input;
    let mut out: Vec<DailyData> = Vec::new();
    while rem.len() > 0
        invariant
            forall|j: int| 0 <= j < rem@.len() ==> trend_entry_ok(#[trigger] rem@[j], gt),
            forall|j: int| 0 <= j < out@.len() ==> trend_entry_ok(#[trigger] out@[j], gt),
            forall|i: int, j: int| 0 <= i < j < rem@.len()
                ==> (#[trigger] rem@[i]).day != (#[trigger] rem@[j]).day,
            forall|i: int, j: int| 0 <= i < j < out@.len()
                ==> (#[trigger] out@[i]).day < (#[trigger] out@[j]).day,
            forall|i: int, j: int| 0 <= i < out@.len() && 0 <= j < rem@.len()
                ==> (#[trigger] out@[i]).day < (#[trigger] rem@[j]).day,
            forall|d: int| #[trigger] has_day(gt, d)
                ==> (exists|j: int| 0 <= j < out@.len() && (#[trigger] out@[j]).day == d)
                    || (exists|j: int| 0 <= j < rem@.len() && (#[trigger] rem@[j]).day == d),
        decreases rem@.len(),
    {
        let k = rem.len();
        let mut mi: usize = 0;
        let mut j: usize = 1;
        while j < k
            invariant
                0 <= mi < j <= k,
                k == rem@.len(),
                forall|l: int| 0 <= l < j ==> rem@[mi as int].day <= (#[trigger] rem@[l]).day,
            decreases k - j,
        {
            if rem[j].day < rem[mi].day {
                mi = j;
            }
            j = j + 1;
        }
        let ghost old_rem = rem@;
        let item = rem.swap_remove(mi);
        proof {
            let new_rem = rem@;
            assert(new_rem == old_rem.update(mi as int, old_rem.last()).drop_last());
            assert forall|l: int| 0 <= l < new_rem.len()
                implies #[trigger] new_rem[l] == old_rem[l] || new_rem[l] == old_rem.last() by {
            }
            // The extracted entry carries the least remaining day, and
            // the days are distinct, so what remains is strictly later.
            assert forall|l: int| 0 <= l < new_rem.len()
                implies item.day < (#[trigger] new_rem[l]).day by {
                if new_rem[l] == old_rem[l] {
                    if l != mi as int {
                        assert(old_rem[mi as int].day != old_rem[l].day);
                    }
                } else {
                    assert(new_rem[l] == old_rem.last());
                    if mi as int != old_rem.len() - 1 {
                        assert(old_rem[mi as int].day != old_rem[old_rem.len() - 1].day);
                    }
                }
            }
            assert forall|l: int| 0 <= l < old_rem.len()
                implies item.day == (#[trigger] old_rem[l]).day
                    || (exists|l2: int| 0 <= l2 < new_rem.len()
                        && (#[trigger] new_rem[l2]).day == old_rem[l].day) by {
                if l == mi as int {
                } else if l == old_rem.len() - 1 {
                    if mi as int != old_rem.len() - 1 {
                        assert(new_rem[mi as int] == old_rem.last());
                        assert(new_rem[mi as int].day == old_rem[l].day);
                    }
                } else {
                    assert(new_rem[l] == old_rem[l]);
                    assert(new_rem[l].day == old_rem[l].day);
                }
            }
        }
        let ghost old_out = out@;
        out.push(item);
        proof {
            assert(out@ == old_out.push(item));
            assert(forall|l: int| 0 <= l < old_out.len() ==> #[trigger] out@[l] == old_out[l]);
            assert forall|d: int| #[trigger] has_day(gt, d)
                implies (exists|l: int| 0 <= l < out@.len() && (#[trigger] out@[l]).day == d)
                    || (exists|l: int| 0 <= l < rem@.len() && (#[trigger] rem@[l]).day == d) by {
                if exists|l: int| 0 <= l < old_out.len() && (#[trigger] old_out[l]).day == d {
                    let l = choose|l: int| 0 <= l < old_out.len()
                        && (#[trigger] old_out[l]).day == d;
                    assert(out@[l].day == d);
                } else {
                    let l = choose|l: int| 0 <= l < old_rem.len()
                        && (#[trigger] old_rem[l]).day == d;
                    if item.day == old_rem[l].day {
                        assert(out@[out@.len() - 1].day == d);
                    }
                }
            }
        }
    }
    out
}

/// One pass over the transactions: income sum, expense sum, count.
fn sum_by_kind(txns: &Vec<TxnEntry>) -> (r: (u64, u64, u32))
    requires
        txns@.len() <= MAX_HISTORY_LEN,
        entries_within(txns@, MAX_AMOUNT_CENTS as int),
    ensures
        r.0 == income_sum(txns@),
        r.1 == expense_sum(txns@),
        r.2 == txns@.len(),
{
    let n = txns.len();
    let mut inc: u64 = 0;
    let mut exp: u64 = 0;
    let mut i: usize = 0;
    while i < n
        invariant
            0 <= i <= n,
            n == txns@.len() <= MAX_HISTORY_LEN,
            entries_within(txns@, MAX_AMOUNT_CENTS as int),
            inc == income_sum(txns@.subrange(0, i as int)),
            exp == expense_sum(txns@.subrange(0, i as int)),
            inc <= i * (MAX_AMOUNT_CENTS as int),
            exp <= i * (MAX_AMOUNT_CENTS as int),
        decreases n - i,
    {
        proof {
            let t = txns@.subrange(0, i as int + 1);
            assert(t.drop_last() =~= txns@.subrange(0, i as int));
            assert(t.last() == txns@[i as int]);
            assert(txns@[i as int].amount <= MAX_AMOUNT_CENTS);
            assert(i * (MAX_AMOUNT_CENTS as int) + MAX_AMOUNT_CENTS as int
                == (i + 1) * (MAX_AMOUNT_CENTS as int)) by (nonlinear_arith);
            assert(0 <= i * (MAX_AMOUNT_CENTS as int)) by (nonlinear_arith)
                requires 0 <= i,
            ;
        }
        let e = &txns[i];
        match e.kind {
            TxnKind::Income => {
                inc = inc + e.amount;
            },
            TxnKind::Expense => {
                exp = exp + e.amount;
            },
            TxnKind::Other => {
            },
        }
        i = i + 1;
    }
    proof {
        assert(txns@.subrange(0, n as int) =~= txns@);
    }
    (inc, exp, n as u32)
}

} // verus!
