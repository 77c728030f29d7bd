//! Sliding-window budget forecaster.
//!
//! `BudgetPredictor::predict` projects a budget's end-of-period total
//! spend from partial-period history: it selects a trailing window of
//! spending records, forms a recency-weighted mean, scales the remaining
//! days by a calendar seasonality factor, and derives a confidence value
//! from the window's coefficient of variation.  Amounts are integer
//! cents; confidence is in micro-units (1_000_000 = 1.0); day-type
//! multipliers are in tenths.  Every division rounds down, and each
//! output field is pinned to an exact integer model of these steps.

use vstd::prelude::*;
use crate::calendar::{CalendarDayType, day_index_of, factor_tenth_sum, is_weekend_day, weekday_of};
use crate::fixed::{
    MAX_AMOUNT_CENTS, MAX_HISTORY_LEN, MAX_TIMESTAMP, SCALE, lemma_div_le_bound,
    lemma_div_le_num, lemma_mul_le, sqrt_floor,
};

verus! {

/// One spending record: a Unix timestamp in seconds and an amount in
/// cents.  Histories handed to the forecaster must be in ascending
/// chronological order for the recency weighting to be meaningful.
#[derive(Clone, Copy, Debug, PartialEq, Eq, Structural)]
pub struct SpendingRecord {
    pub timestamp: i64,
    pub amount: u64,
}

/// The outcome of one forecast call.  Monetary fields are in cents;
/// `confidence` is in micro-units, between 0 and 1_000_000 inclusive.
#[derive(Clone, Copy, Debug, PartialEq, Eq, Structural)]
pub struct PredictionResult {
    pub predicted_total: u64,
    pub predicted_exceed: u64,
    pub confidence: u64,
    pub daily_average: u64,
    pub weighted_average: u64,
}

/// Sum of a sequence of amounts.
pub open spec fn seq_sum(s: Seq<u64>) -> int
    decreases s.len(),
{
    if s.len() == 0 {
        0
    } else {
        seq_sum(s.drop_last()) + s.last()
    }
}

/// Rank-weighted sum of a sequence: element `i` counts `i + 1` times, so
/// later (more recent) elements weigh more.
pub open spec fn weighted_sum(s: Seq<u64>) -> int
    decreases s.len(),
{
    if s.len() == 0 {
        0
    } else {
        weighted_sum(s.drop_last()) + s.len() * s.last()
    }
}

/// Sum of the ranks 1..=n, the divisor of the rank-weighted mean.
pub open spec fn rank_sum(n: int) -> int
    decreases n,
{
    if n <= 0 {
        0
    } else {
        rank_sum(n - 1) + n
    }
}

/// The amounts of the records whose timestamp lies in `[lo, hi]`, in
/// their order of appearance.
pub open spec fn window_amounts(h: Seq<SpendingRecord>, lo: int, hi: int) -> Seq<u64>
    decreases h.len(),
{
    if h.len() == 0 {
        Seq::empty()
    } else {
        let rest = window_amounts(h.drop_last(), lo, hi);
        if lo <= h.last().timestamp <= hi {
            rest.push(h.last().amount)
        } else {
            rest
        }
    }
}

/// Sum of squared deviations of a sequence of amounts from `mean`.
pub open spec fn sqdev_sum(s: Seq<u64>, mean: int) -> int
    decreases s.len(),
{
    if s.len() == 0 {
        0
    } else {
        sqdev_sum(s.drop_last(), mean) + (s.last() - mean) * (s.last() - mean)
    }
}

/// Confidence, in micro-units, of a window with the given (rounded-down)
/// mean: 1 / (1 + cv) with cv the ratio of the rounded-down population
/// standard deviation to the mean, or a fixed 0.5 for windows of fewer
/// than two points.
pub open spec fn confidence_model(s: Seq<u64>, mean: int) -> int {
    if s.len() < 2 {
        (SCALE as int) / 2
    } else {
        let variance = sqdev_sum(s, mean) / (s.len() as int);
        let std_dev = sqrt_floor(variance);
        let cv = if mean > 0 {
            (std_dev * SCALE) / mean
        } else {
            SCALE as int
        };
        (SCALE * SCALE) / (SCALE + cv)
    }
}

/// The effective window length in days: the configured length clamped
/// to the days elapsed so far, and at least one day even at the start of
/// the period.
pub open spec fn spec_actual_window(cfg: int, de: int) -> int {
    let m = if cfg <= de {
        cfg
    } else {
        de
    };
    if m < 1 {
        1
    } else {
        m
    }
}

/// Whole days from `a` to `b`, floored at zero.
pub open spec fn days_between(a: int, b: int) -> int {
    if b >= a {
        (b - a) / (86_400 as int)
    } else {
        0
    }
}

/// All amounts of a sequence lie within `m`.
pub open spec fn amounts_within(s: Seq<u64>, m: int) -> bool {
    forall|i: int| 0 <= i < s.len() ==> #[trigger] s[i] <= m
}

/// All amounts of a history lie within `m`.
pub open spec fn history_amounts_within(h: Seq<SpendingRecord>, m: int) -> bool {
    forall|i: int| 0 <= i < h.len() ==> #[trigger] h[i].amount <= m
}

pub proof fn lemma_seq_sum_bound(s: Seq<u64>, m: int)
    requires
        amounts_within(s, m),
        0 <= m,
    ensures
        0 <= seq_sum(s) <= s.len() * m,
    decreases s.len(),
{
    if s.len() == 0 {
    } else {
        assert(amounts_within(s.drop_last(), m)) by {
            assert(forall|i: int| 0 <= i < s.len() - 1 ==> s.drop_last()[i] == #[trigger] s[i]);
        }
        lemma_seq_sum_bound(s.drop_last(), m);
        assert(s.last() <= m);
        assert((s.len() - 1) * m + m == s.len() * m) by (nonlinear_arith);
    }
}

pub proof fn lemma_rank_sum_closed(n: int)
    requires
        0 <= n,
    ensures
        rank_sum(n) == n * (n + 1) / 2,
        2 * rank_sum(n) == n * (n + 1),
        rank_sum(n) >= n,
    decreases n,
{
    if n == 0 {
    } else {
        lemma_rank_sum_closed(n - 1);
        assert((n - 1) * n / 2 + n == n * (n + 1) / 2) by (nonlinear_arith);
        assert((n - 1) * n + 2 * n == n * (n + 1)) by (nonlinear_arith);
    }
}

pub proof fn lemma_weighted_sum_bound(s: Seq<u64>, m: int)
    requires
        amounts_within(s, m),
        0 <= m,
    ensures
        0 <= weighted_sum(s) <= rank_sum(s.len() as int) * m,
    decreases s.len(),
{
    if s.len() == 0 {
    } else {
        let n = s.len() as int;
        assert(amounts_within(s.drop_last(), m)) by {
            assert(forall|i: int| 0 <= i < s.len() - 1 ==> s.drop_last()[i] == #[trigger] s[i]);
        }
        lemma_weighted_sum_bound(s.drop_last(), m);
        assert(n * s.last() <= n * m) by (nonlinear_arith)
            requires s.last() <= m && 0 <= n,
        ;
        assert(0 <= n * s.last()) by (nonlinear_arith)
            requires 0 <= n,
        ;
        assert(rank_sum(n - 1) * m + n * m == (rank_sum(n - 1) + n) * m) by (nonlinear_arith);
    }
}

pub proof fn lemma_sqdev_sum_bound(s: Seq<u64>, mean: int, m: int)
    requires
        amounts_within(s, m),
        0 <= mean <= m,
        0 <= m,
    ensures
        0 <= sqdev_sum(s, mean) <= s.len() * (m * m),
    decreases s.len(),
{
    if s.len() == 0 {
    } else {
        assert(amounts_within(s.drop_last(), m)) by {
            assert(forall|i: int| 0 <= i < s.len() - 1 ==> s.drop_last()[i] == #[trigger] s[i]);
        }
        lemma_sqdev_sum_bound(s.drop_last(), mean, m);
        let d = s.last() - mean;
        assert(0 <= d * d <= m * m) by (nonlinear_arith)
            requires 0 <= mean <= m && 0 <= s.last() <= m && d == s.last() - mean,
        ;
        assert((s.len() - 1) * (m * m) + m * m == s.len() * (m * m)) by (nonlinear_arith);
    }
}

/// A sequence of amounts that grows strictly from one element to the
/// next.
pub open spec fn strictly_increasing(s: Seq<u64>) -> bool {
    forall|i: int, j: int| 0 <= i < j < s.len() ==> #[trigger] s[i] < #[trigger] s[j]
}

/// If every element is below `x`, the sum is below `len * x`.
pub proof fn lemma_seq_sum_lt(s: Seq<u64>, x: int)
    requires
        s.len() >= 1,
        forall|i: int| 0 <= i < s.len() ==> #[trigger] s[i] < x,
    ensures
        seq_sum(s) < s.len() * x,
    decreases s.len(),
{
    if s.len() == 1 {
        assert(s.drop_last().len() == 0);
        assert(seq_sum(s.drop_last()) == 0);
        assert(seq_sum(s) == s[0]);
        assert(s[0] < x);
        assert(1 * x == x) by (nonlinear_arith);
    } else {
        assert(forall|i: int| 0 <= i < s.len() - 1 ==> #[trigger] s.drop_last()[i] == s[i]);
        lemma_seq_sum_lt(s.drop_last(), x);
        assert(s.last() < x) by {
            assert(s[s.len() - 1] < x);
        }
        assert((s.len() - 1) * x + x == s.len() * x) by (nonlinear_arith);
    }
}

/// Recency weighting rewards growth: over a strictly increasing window
/// the rank-weighted mean strictly exceeds the plain mean.  Stated
/// without divisions: `weighted_sum / rank_sum > seq_sum / len` as an
/// exact cross-multiplied comparison, strict once the window has at
/// least two points.
pub proof fn lemma_weighted_mean_exceeds_mean(s: Seq<u64>)
    requires
        strictly_increasing(s),
        s.len() >= 1,
    ensures
        weighted_sum(s) * s.len() >= seq_sum(s) * rank_sum(s.len() as int),
        s.len() >= 2 ==> weighted_sum(s) * s.len() > seq_sum(s) * rank_sum(s.len() as int),
    decreases s.len(),
{
    if s.len() == 1 {
        assert(weighted_sum(s) == 1 * s[0] + weighted_sum(s.drop_last()));
        assert(weighted_sum(s.drop_last()) == 0);
        assert(seq_sum(s) == s[0] + seq_sum(s.drop_last()));
        assert(rank_sum(0) == 0);
        assert(rank_sum(1) == rank_sum(0) + 1);
    } else {
        let t = s.drop_last();
        let x = s.last() as int;
        let n = t.len() as int;
        assert(forall|i: int| 0 <= i < n ==> #[trigger] t[i] == s[i]);
        assert(strictly_increasing(t));
        assert(forall|i: int| 0 <= i < n ==> #[trigger] t[i] < x) by {
            assert(forall|i: int| 0 <= i < n ==> #[trigger] s[i] < s[n]);
        }
        lemma_weighted_mean_exceeds_mean(t);
        lemma_seq_sum_lt(t, x);
        lemma_rank_sum_closed(n);
        lemma_rank_sum_closed(n + 1);
        let wst = weighted_sum(t);
        let sut = seq_sum(t);
        let rk = rank_sum(n);
        assert(weighted_sum(s) == wst + (n + 1) * x);
        assert(seq_sum(s) == sut + x);
        assert(rank_sum(n + 1) == rk + (n + 1));
        assert(2 * wst >= (n + 1) * sut) by (nonlinear_arith)
            requires
                wst * n >= sut * rk,
                2 * rk == n * (n + 1),
                n >= 1,
        ;
        assert(2 * (rk * x) > (n + 1) * sut) by (nonlinear_arith)
            requires
                sut < n * x,
                2 * rk == n * (n + 1),
                n >= 1,
        ;
        assert((wst + (n + 1) * x) * (n + 1) > (sut + x) * (rk + (n + 1))) by (nonlinear_arith)
            requires
                wst * n >= sut * rk,
                2 * wst >= (n + 1) * sut,
                2 * (rk * x) > (n + 1) * sut,
                2 * rk == n * (n + 1),
                n >= 1,
        ;
    }
}

/// The forecast is a pure function of its inputs: two results that both
/// satisfy the model for the same arguments are bit-identical.
pub proof fn lemma_predict_deterministic(
    h: Seq<SpendingRecord>,
    budget: int,
    start: int,
    end: int,
    now: int,
    cfg: int,
    weekend: int,
    workday: int,
    r1: PredictionResult,
    r2: PredictionResult,
)
    requires
        r1 == spec_predict(h, budget, start, end, now, cfg, weekend, workday),
        r2 == spec_predict(h, budget, start, end, now, cfg, weekend, workday),
    ensures
        r1 == r2,
{
}

/// The exact integer model of one forecast call; every field of the
/// result returned by `BudgetPredictor::predict` equals the
/// corresponding field of this value.
///
/// With `de` the days elapsed since the period start, the window is the
/// trailing `clamp(cfg, 1, de)` days of history; an empty window yields
/// the all-zero result with confidence 0.  Otherwise `daily_average` is
/// the window's plain mean, `weighted_average` its rank-weighted mean,
/// and `predicted_total` adds to the amount already spent in the period
/// the rank-weighted mean times the remaining days times the average
/// seasonal multiplier, evaluated as one exact quotient.
pub open spec fn spec_predict(
    h: Seq<SpendingRecord>,
    budget: int,
    start: int,
    end: int,
    now: int,
    cfg: int,
    weekend: int,
    workday: int,
) -> PredictionResult {
    let de = days_between(start, now);
    let aw = spec_actual_window(cfg, de);
    let lo = now - aw * 86_400;
    let w = window_amounts(h, lo, now);
    if w.len() == 0 {
        PredictionResult {
            predicted_total: 0,
            predicted_exceed: 0,
            confidence: 0,
            daily_average: 0,
            weighted_average: 0,
        }
    } else {
        let n = w.len() as int;
        let daily = seq_sum(w) / n;
        let wavg = weighted_sum(w) / rank_sum(n);
        let spent = seq_sum(window_amounts(h, start, now));
        let dl = days_between(now, end);
        let fd = if end >= now {
            dl + 1
        } else {
            0
        };
        let fs = factor_tenth_sum(day_index_of(now), fd as nat, weekend, workday);
        let term = if dl > 0 {
            (weighted_sum(w) * dl * fs) / (rank_sum(n) * 10 * fd)
        } else {
            0
        };
        let total = spent + term;
        let exceed = if total >= budget {
            total - budget
        } else {
            0
        };
        PredictionResult {
            predicted_total: total as u64,
            predicted_exceed: exceed as u64,
            confidence: confidence_model(w, daily) as u64,
            daily_average: daily as u64,
            weighted_average: wavg as u64,
        }
    }
}

/// Sliding-window budget predictor.  It holds the configured window
/// length in days and the seasonal day-type multiplier table in tenths.
pub struct BudgetPredictor {
    pub window_size: usize,
    pub workday_tenths: u64,
    pub weekend_tenths: u64,
    pub holiday_tenths: u64,
    pub promotion_tenths: u64,
}

impl BudgetPredictor {
    /// Well-formedness: every multiplier is at least one tenth and at
    /// most three whole units, which keeps the forecast arithmetic in
    /// range.
    pub open spec fn wf(self) -> bool {
        &&& 1 <= self.workday_tenths <= 30
        &&& 1 <= self.weekend_tenths <= 30
        &&& 1 <= self.holiday_tenths <= 30
        &&& 1 <= self.promotion_tenths <= 30
    }

    pub open spec fn spec_window_size(self) -> int {
        self.window_size as int
    }

    pub open spec fn spec_weekend_tenths(self) -> int {
        self.weekend_tenths as int
    }

    pub open spec fn spec_workday_tenths(self) -> int {
        self.workday_tenths as int
    }

    /// A predictor with the given window length and the standard
    /// multiplier table: workday 1.0, weekend 1.3, holiday 1.8,
    /// promotion 2.5.
    pub fn new(window_size: usize) -> (p: BudgetPredictor)
        ensures
            p.wf(),
            p.spec_window_size() == window_size,
            p.spec_workday_tenths() == 10,
            p.spec_weekend_tenths() == 13,
            p.holiday_tenths == 18,
            p.promotion_tenths == 25,
    {
        BudgetPredictor {
            window_size,
            workday_tenths: 10,
            weekend_tenths: 13,
            holiday_tenths: 18,
            promotion_tenths: 25,
        }
    }

    /// The calendar classification of a timestamp: Saturday and Sunday
    /// are weekend days, everything else is a workday.  Holiday and
    /// Promotion would need an external calendar and are never returned
    /// here.
    pub fn get_day_type(&self, timestamp: i64) -> (dt: CalendarDayType)
        requires
            0 <= timestamp,
        ensures
            dt == (if is_weekend_day(day_index_of(timestamp as int)) {
                CalendarDayType::Weekend
            } else {
                CalendarDayType::Workday
            }),
    {
        let day: u64 = (timestamp as u64) / 86_400;
        let w = weekday_of(day);
        if w == 0 || w == 6 {
            CalendarDayType::Weekend
        } else {
            CalendarDayType::Workday
        }
    }

    /// The spend multiplier of a day type, in tenths.
    pub fn multiplier_tenths(&self, day_type: CalendarDayType) -> (m: u64)
        ensures
            m == (match day_type {
                CalendarDayType::Workday => self.workday_tenths,
                CalendarDayType::Weekend => self.weekend_tenths,
                CalendarDayType::Holiday => self.holiday_tenths,
                CalendarDayType::Promotion => self.promotion_tenths,
            }),
    {
        match day_type {
            CalendarDayType::Workday => self.workday_tenths,
            CalendarDayType::Weekend => self.weekend_tenths,
            CalendarDayType::Holiday => self.holiday_tenths,
            CalendarDayType::Promotion => self.promotion_tenths,
        }
    }

    /// Seasonality over the remaining days: walks every calendar day
    /// from `start` to `end` inclusive and returns the sum of their
    /// multipliers in tenths together with the day count, so the average
    /// multiplier is the exact ratio `sum / (10 * days)`.  An empty
    /// range (when `end` lies before `start`) yields `(0, 0)` and stands
    /// for the neutral factor 1.0.
    pub fn estimate_holiday_factor(&self, start: i64, end: i64) -> (r: (u64, u64))
        requires
            self.wf(),
            0 <= start <= MAX_TIMESTAMP,
            0 <= end <= MAX_TIMESTAMP,
        ensures
            r.1 == (if end >= start { days_between(start as int, end as int) + 1 } else { 0 }),
            r.0 == factor_tenth_sum(
                day_index_of(start as int),
                r.1 as nat,
                self.spec_weekend_tenths(),
                self.spec_workday_tenths(),
            ),
            r.0 <= 30 * r.1,
            r.1 <= 1_160_000,
    {
        if end < start {
            return (0, 0);
        }
        let day0: u64 = (start as u64) / 86_400;
        let days: u64 = (end - start) as u64 / 86_400 + 1;
        proof {
            assert(day_index_of(start as int) == day0 as int);
            assert(days_between(start as int, end as int) == (end - start) as u64 / 86_400);
            assert((end - start) as u64 / 86_400 <= MAX_TIMESTAMP as u64 / 86_400);
        }
        let mut total: u64 = 0;
        let mut k: u64 = 0;
        while k < days
            invariant
                self.wf(),
                0 <= k <= days,
                days <= 1_160_000,
                day0 <= MAX_TIMESTAMP as u64 / 86_400,
                total == factor_tenth_sum(
                    day0 as int,
                    k as nat,
                    self.spec_weekend_tenths(),
                    self.spec_workday_tenths(),
                ),
                total <= 30 * k,
            decreases days - k,
        {
            let w = weekday_of(day0 + k);
            let tenths = if w == 0 || w == 6 {
                proof {
                    assert(is_weekend_day(day0 as int + k as int));
                }
                self.weekend_tenths
            } else {
                proof {
                    assert(!is_weekend_day(day0 as int + k as int));
                }
                self.workday_tenths
            };
            total = total + tenths;
            k = k + 1;
            proof {
                assert(total == factor_tenth_sum(
                    day0 as int,
                    k as nat,
                    self.spec_weekend_tenths(),
                    self.spec_workday_tenths(),
                ));
            }
        }
        (total, days)
    }

    /// The exact rank-weighted sum of a window, for use as the numerator
    /// of the recency-weighted mean.
    fn weighted_sum_exec(&self, data: &Vec<u64>) -> (ws: u128)
        requires
            data@.len() <= MAX_HISTORY_LEN,
            amounts_within(data@, MAX_AMOUNT_CENTS as int),
        ensures
            ws == weighted_sum(data@),
    {
        let n = data.len();
        let mut acc: u128 = 0;
        let mut i: usize = 0;
        while i < n
            invariant
                0 <= i <= n,
                n == data@.len() <= MAX_HISTORY_LEN,
                amounts_within(data@, MAX_AMOUNT_CENTS as int),
                acc == weighted_sum(data@.subrange(0, i as int)),
                acc <= i * (MAX_HISTORY_LEN as int) * (MAX_AMOUNT_CENTS as int),
            decreases n - i,
        {
            proof {
                let t = data@.subrange(0, i as int + 1);
                assert(t.drop_last() =~= data@.subrange(0, i as int));
                assert(t.last() == data@[i as int]);
                assert(data@[i as int] <= MAX_AMOUNT_CENTS);
                assert((i as int + 1) * data@[i as int]
                    <= (MAX_HISTORY_LEN as int) * (MAX_AMOUNT_CENTS as int)) by (nonlinear_arith)
                    requires
                        0 <= i as int + 1 <= MAX_HISTORY_LEN as int,
                        0 <= data@[i as int] <= MAX_AMOUNT_CENTS as int,
                ;
                assert(i * (MAX_HISTORY_LEN as int) * (MAX_AMOUNT_CENTS as int)
                    + (MAX_HISTORY_LEN as int) * (MAX_AMOUNT_CENTS as int)
                    == (i + 1) * (MAX_HISTORY_LEN as int) * (MAX_AMOUNT_CENTS as int))
                    by (nonlinear_arith);
            }
            let rank: u128 = (i as u128) + 1;
            acc = acc + rank * (data[i] as u128);
            i = i + 1;
        }
        proof {
            assert(data@.subrange(0, n as int) =~= data@);
        }
        acc
    }

    /// Linear recency-weighted mean of a window, rounded down: the sum
    /// of `amount[i] * (i + 1)` divided by the sum of the ranks `1..=n`.
    /// An empty window yields zero.
    pub fn calculate_weighted_average(&self, data: &Vec<u64>) -> (r: u64)
        requires
            data@.len() <= MAX_HISTORY_LEN,
            amounts_within(data@, MAX_AMOUNT_CENTS as int),
        ensures
            r == (if data@.len() == 0 {
                0
            } else {
                weighted_sum(data@) / rank_sum(data@.len() as int)
            }),
            r <= MAX_AMOUNT_CENTS,
    {
        let n = data.len();
        if n == 0 {
            return 0;
        }
        let ws = self.weighted_sum_exec(data);
        proof {
            assert((n as int) * (n as int + 1) <= 100_000 * 100_001) by (nonlinear_arith)
                requires 0 <= n as int <= 100_000,
            ;
        }
        let ranks: u64 = (n as u64) * (n as u64 + 1) / 2;
        proof {
            lemma_rank_sum_closed(n as int);
            assert(ranks == rank_sum(n as int));
            lemma_weighted_sum_bound(data@, MAX_AMOUNT_CENTS as int);
            lemma_div_le_bound(weighted_sum(data@), rank_sum(n as int), MAX_AMOUNT_CENTS as int);
            vstd::arithmetic::div_mod::lemma_div_pos_is_pos(
                weighted_sum(data@),
                rank_sum(n as int),
            );
        }
        (ws / (ranks as u128)) as u64
    }

    /// Confidence of a window around its (rounded-down) mean, in
    /// micro-units: 1 / (1 + cv), where cv is the rounded-down ratio of
    /// the population standard deviation to the mean (or 1.0 when the
    /// mean is zero).  A window of fewer than two points has the fixed
    /// confidence 0.5.  The result always lies between 0 and 1.
    pub fn calculate_confidence(&self, data: &Vec<u64>, mean: u64) -> (c: u64)
        requires
            data@.len() <= MAX_HISTORY_LEN,
            amounts_within(data@, MAX_AMOUNT_CENTS as int),
            mean <= MAX_AMOUNT_CENTS,
        ensures
            c == confidence_model(data@, mean as int),
            c <= SCALE,
    {
        let n = data.len();
        if n < 2 {
            return SCALE / 2;
        }
        let mut sq: u128 = 0;
        let mut i: usize = 0;
        while i < n
            invariant
                0 <= i <= n,
                n == data@.len() <= MAX_HISTORY_LEN,
                amounts_within(data@, MAX_AMOUNT_CENTS as int),
                mean <= MAX_AMOUNT_CENTS,
                sq == sqdev_sum(data@.subrange(0, i as int), mean as int),
                sq <= i * ((MAX_AMOUNT_CENTS as int) * (MAX_AMOUNT_CENTS as int)),
            decreases n - i,
        {
            let a = data[i];
            let diff: u64 = if a >= mean {
                a - mean
            } else {
                mean - a
            };
            proof {
                let t = data@.subrange(0, i as int + 1);
                assert(t.drop_last() =~= data@.subrange(0, i as int));
                assert(t.last() == data@[i as int]);
                assert(data@[i as int] <= MAX_AMOUNT_CENTS);
                assert((a - mean) * (a - mean) == (diff as int) * (diff as int))
                    by (nonlinear_arith)
                    requires
                        diff as int == if a >= mean { a - mean } else { mean - a as int },
                ;
                assert((diff as int) * (diff as int)
                    <= (MAX_AMOUNT_CENTS as int) * (MAX_AMOUNT_CENTS as int)) by (nonlinear_arith)
                    requires 0 <= diff as int <= MAX_AMOUNT_CENTS as int,
                ;
                assert(i * ((MAX_AMOUNT_CENTS as int) * (MAX_AMOUNT_CENTS as int))
                    + (MAX_AMOUNT_CENTS as int) * (MAX_AMOUNT_CENTS as int)
                    == (i + 1) * ((MAX_AMOUNT_CENTS as int) * (MAX_AMOUNT_CENTS as int)))
                    by (nonlinear_arith);
            }
            sq = sq + (diff as u128) * (diff as u128);
            i = i + 1;
        }
        proof {
            assert(data@.subrange(0, n as int) =~= data@);
        }
        let variance: u128 = sq / (n as u128);
        let std_dev: u64 = crate::fixed::isqrt_u128(variance);
        proof {
            lemma_div_le_bound(
                sqdev_sum(data@, mean as int),
                n as int,
                (MAX_AMOUNT_CENTS as int) * (MAX_AMOUNT_CENTS as int),
            );
            assert(std_dev <= MAX_AMOUNT_CENTS) by (nonlinear_arith)
                requires
                    (std_dev as int) * (std_dev as int) <= variance as int,
                    variance as int <= (MAX_AMOUNT_CENTS as int) * (MAX_AMOUNT_CENTS as int),
                    0 <= std_dev,
            ;
        }
        let cv: u64 = if mean > 0 {
            proof {
                lemma_div_le_num((std_dev as int) * (SCALE as int), mean as int);
            }
            (std_dev * SCALE) / mean
        } else {
            SCALE
        };
        proof {
            assert((SCALE as int) * (SCALE as int) <= (SCALE as int + cv as int) * (SCALE as int))
                by (nonlinear_arith)
                requires 0 <= cv,
            ;
            lemma_div_le_bound(
                (SCALE as int) * (SCALE as int),
                SCALE as int + cv as int,
                SCALE as int,
            );
        }
        (SCALE * SCALE) / (SCALE + cv)
    }

    /// One budget forecast.  The history must be in ascending
    /// chronological order; amounts are cents, timestamps are Unix
    /// seconds.  The call is pure: the result is a function of the
    /// arguments alone, pinned field by field to `spec_predict`, so two
    /// calls on identical inputs return identical results.  Degenerate
    /// inputs (an empty window, a period already over) produce defined
    /// zero or neutral outputs rather than errors.
    pub fn predict(
        &self,
        spending_history: &Vec<SpendingRecord>,
        budget_amount: u64,
        period_start: i64,
        period_end: i64,
        current_time: i64,
    ) -> (r: PredictionResult)
        requires
            self.wf(),
            spending_history@.len() <= MAX_HISTORY_LEN,
            history_amounts_within(spending_history@, MAX_AMOUNT_CENTS as int),
            0 <= period_start <= MAX_TIMESTAMP,
            0 <= period_end <= MAX_TIMESTAMP,
            0 <= current_time <= MAX_TIMESTAMP,
        ensures
            r == spec_predict(
                spending_history@,
                budget_amount as int,
                period_start as int,
                period_end as int,
                current_time as int,
                self.spec_window_size(),
                self.spec_weekend_tenths(),
                self.spec_workday_tenths(),
            ),
            r.confidence <= SCALE,
            r.predicted_exceed == (if r.predicted_total >= budget_amount {
                r.predicted_total - budget_amount
            } else {
                0
            }),
    {
        let ghost gh = spending_history@;
        let de: u64 = if current_time >= period_start {
            ((current_time - period_start) as u64) / 86_400
        } else {
            0
        };
        proof {
            assert(de == days_between(period_start as int, current_time as int));
            assert(de <= 1_157_407);
        }
        let cfg_u: u64 = self.window_size as u64;
        let mut aw: u64 = if cfg_u <= de {
            cfg_u
        } else {
            de
        };
        if aw < 1 {
            aw = 1;
        }
        proof {
            assert(aw == spec_actual_window(self.spec_window_size(), de as int));
            assert(aw <= 1_157_407);
        }
        let lo: i64 = current_time - (aw * 86_400) as i64;
        let ghost glo = current_time as int - spec_actual_window(
            self.spec_window_size(),
            days_between(period_start as int, current_time as int),
        ) * 86_400;
        proof {
            assert(lo as int == glo);
        }

        let n = spending_history.len();
        let mut window_data: Vec<u64> = Vec::new();
        let mut spent: u64 = 0;
        let mut i: usize = 0;
        while i < n
            invariant
                0 <= i <= n,
                n == gh.len() <= MAX_HISTORY_LEN,
                gh == spending_history@,
                history_amounts_within(gh, MAX_AMOUNT_CENTS as int),
                window_data@ == window_amounts(gh.subrange(0, i as int), lo as int, current_time as int),
                window_data@.len() <= i,
                amounts_within(window_data@, MAX_AMOUNT_CENTS as int),
                spent == seq_sum(window_amounts(gh.subrange(0, i as int), period_start as int, current_time as int)),
                spent <= i * (MAX_AMOUNT_CENTS as int),
            decreases n - i,
        {
            let rec = spending_history[i];
            proof {
                let t = gh.subrange(0, i as int + 1);
                assert(t.drop_last() =~= gh.subrange(0, i as int));
                assert(t.last() == gh[i as int]);
                assert(gh[i as int].amount <= MAX_AMOUNT_CENTS);
                assert(i * (MAX_AMOUNT_CENTS as int) + MAX_AMOUNT_CENTS as int
                    == (i + 1) * (MAX_AMOUNT_CENTS as int)) by (nonlinear_arith);
                assert(0 <= i * (MAX_AMOUNT_CENTS as int)) by (nonlinear_arith)
                    requires 0 <= i,
                ;
            }
            proof {
                let rest = window_amounts(
                    gh.subrange(0, i as int),
                    period_start as int,
                    current_time as int,
                );
                assert(seq_sum(rest.push(gh[i as int].amount))
                    == seq_sum(rest) + gh[i as int].amount) by {
                    assert(rest.push(gh[i as int].amount).drop_last() =~= rest);
                }
            }
            if rec.timestamp >= lo && rec.timestamp <= current_time {
                window_data.push(rec.amount);
            }
            if rec.timestamp >= period_start && rec.timestamp <= current_time {
                spent = spent + rec.amount;
            }
            i = i + 1;
        }
        proof {
            assert(gh.subrange(0, n as int) =~= gh);
        }

        if window_data.len() == 0 {
            return PredictionResult {
                predicted_total: 0,
                predicted_exceed: 0,
                confidence: 0,
                daily_average: 0,
                weighted_average: 0,
            };
        }

        let n_w = window_data.len();
        let ghost w = window_data@;

        let mut sum: u64 = 0;
        let mut j: usize = 0;
        while j < n_w
            invariant
                0 <= j <= n_w,
                n_w == w.len() <= MAX_HISTORY_LEN,
                w == window_data@,
                amounts_within(w, MAX_AMOUNT_CENTS as int),
                sum == seq_sum(w.subrange(0, j as int)),
                sum <= j * (MAX_AMOUNT_CENTS as int),
            decreases n_w - j,
        {
            proof {
                let t = w.subrange(0, j as int + 1);
                assert(t.drop_last() =~= w.subrange(0, j as int));
                assert(t.last() == w[j as int]);
                assert(w[j as int] <= MAX_AMOUNT_CENTS);
                assert(j * (MAX_AMOUNT_CENTS as int) + MAX_AMOUNT_CENTS as int
                    == (j + 1) * (MAX_AMOUNT_CENTS as int)) by (nonlinear_arith);
                assert(0 <= j * (MAX_AMOUNT_CENTS as int)) by (nonlinear_arith)
                    requires 0 <= j,
                ;
            }
            sum = sum + window_data[j];
            j = j + 1;
        }
        proof {
            assert(w.subrange(0, n_w as int) =~= w);
        }

        let daily: u64 = sum / (n_w as u64);
        proof {
            lemma_seq_sum_bound(w, MAX_AMOUNT_CENTS as int);
            lemma_div_le_bound(seq_sum(w), n_w as int, MAX_AMOUNT_CENTS as int);
            vstd::arithmetic::div_mod::lemma_div_pos_is_pos(seq_sum(w), n_w as int);
        }

        let weighted_avg = self.calculate_weighted_average(&window_data);
        let ws = self.weighted_sum_exec(&window_data);
        proof {
            assert((n_w as int) * (n_w as int + 1) <= 100_000 * 100_001) by (nonlinear_arith)
                requires 0 <= n_w as int <= 100_000,
            ;
        }
        let ranks: u64 = (n_w as u64) * (n_w as u64 + 1) / 2;
        proof {
            lemma_rank_sum_closed(n_w as int);
            assert(ranks == rank_sum(n_w as int));
        }

        let dl: u64 = if period_end >= current_time {
            ((period_end - current_time) as u64) / 86_400
        } else {
            0
        };
        proof {
            assert(dl == days_between(current_time as int, period_end as int));
            assert(dl <= 1_157_407);
        }

        let term: u64 = if dl == 0 {
            0
        } else {
            let hf = self.estimate_holiday_factor(current_time, period_end);
            let fs = hf.0;
            let fd = hf.1;
            proof {
                assert(fd == days_between(current_time as int, period_end as int) + 1);
                assert(1 <= fd <= 1_160_001);
                assert(fs <= 30 * fd);
            }
            proof {
                let wsv = weighted_sum(w);
                let rk = rank_sum(n_w as int);
                lemma_weighted_sum_bound(w, MAX_AMOUNT_CENTS as int);
                assert(1 <= rk) by {
                    lemma_rank_sum_closed(n_w as int);
                }
                assert(rk <= 5_000_050_000) by {
                    lemma_rank_sum_closed(n_w as int);
                    assert((n_w as int) * (n_w as int + 1) <= 100_000 * 100_001)
                        by (nonlinear_arith)
                        requires 0 <= n_w as int <= 100_000,
                    ;
                }
                // The numerator stays far inside u128 range.
                assert(wsv <= 5_000_050_000 * (MAX_AMOUNT_CENTS as int)) by (nonlinear_arith)
                    requires
                        wsv <= rk * (MAX_AMOUNT_CENTS as int),
                        1 <= rk <= 5_000_050_000,
                ;
                lemma_mul_le(wsv, dl as int, 5_000_050_000 * (MAX_AMOUNT_CENTS as int), 1_157_407);
                lemma_mul_le(
                    wsv * (dl as int),
                    fs as int,
                    5_000_050_000 * (MAX_AMOUNT_CENTS as int) * 1_157_407,
                    (30 * 1_160_001) as int,
                );
                assert(5_000_050_000 * (MAX_AMOUNT_CENTS as int) * 1_157_407 * (30 * 1_160_001)
                    < u128::MAX as int) by (nonlinear_arith);
                assert((ranks as int) * 10 * (fd as int) <= 5_000_050_000 * 10 * 1_160_001)
                    by (nonlinear_arith)
                    requires
                        0 <= ranks as int <= 5_000_050_000,
                        0 <= fd as int <= 1_160_001,
                ;
            }
            let num: u128 = ws * (dl as u128) * (fs as u128);
            let den: u128 = (ranks as u128) * 10 * (fd as u128);
            proof {
                let wsv = weighted_sum(w);
                let rk = rank_sum(n_w as int);
                lemma_weighted_sum_bound(w, MAX_AMOUNT_CENTS as int);
                assert(1 <= rk) by {
                    lemma_rank_sum_closed(n_w as int);
                }
                // The quotient is bounded by three times the largest
                // amount times the remaining days, far inside u64 range.
                assert(wsv * (dl as int) * (fs as int)
                    <= (rk * 10 * (fd as int)) * (3 * (MAX_AMOUNT_CENTS as int) * (dl as int)))
                    by (nonlinear_arith)
                    requires
                        0 <= wsv <= rk * (MAX_AMOUNT_CENTS as int),
                        0 <= fs as int <= 30 * (fd as int),
                        0 <= dl as int,
                        1 <= fd as int,
                        1 <= rk,
                ;
                assert(0 < rk * 10 * (fd as int)) by (nonlinear_arith)
                    requires 1 <= rk && 1 <= fd as int,
                ;
                lemma_div_le_bound(
                    wsv * (dl as int) * (fs as int),
                    rk * 10 * (fd as int),
                    3 * (MAX_AMOUNT_CENTS as int) * (dl as int),
                );
                vstd::arithmetic::div_mod::lemma_div_pos_is_pos(
                    wsv * (dl as int) * (fs as int),
                    rk * 10 * (fd as int),
                );
                assert(3 * (MAX_AMOUNT_CENTS as int) * (dl as int)
                    <= 3 * (MAX_AMOUNT_CENTS as int) * 1_157_407) by (nonlinear_arith)
                    requires 0 <= dl as int <= 1_157_407,
                ;
            }
            (num / den) as u64
        };

        proof {
            assert(spent + term <= u64::MAX) by {
                assert(spent <= (MAX_HISTORY_LEN as int) * (MAX_AMOUNT_CENTS as int))
                    by (nonlinear_arith)
                    requires
                        spent as int <= (n as int) * (MAX_AMOUNT_CENTS as int),
                        0 <= n as int <= MAX_HISTORY_LEN as int,
                ;
            }
        }
        let total: u64 = spent + term;
        let exceed: u64 = if total >= budget_amount {
            total - budget_amount
        } else {
            0
        };
        let conf = self.calculate_confidence(&window_data, daily);

        PredictionResult {
            predicted_total: total,
            predicted_exceed: exceed,
            confidence: conf,
            daily_average: daily,
            weighted_average: weighted_avg,
        }
    }
}

} // verus!
