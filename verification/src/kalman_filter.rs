//! Scalar Kalman filter and per-instrument rate fusion.
//!
//! A `KalmanFilter` keeps a single-state estimate `x` with error
//! covariance `p`, both in fixed-point micro-units (1_000_000 = 1.0).
//! `predict` grows the covariance by the process noise; `update` folds
//! in one measurement with its observation noise through the Kalman
//! gain.  `ExchangeRateFusion` owns one filter per instrument key,
//! seeds a new key from the weighted average of the first observation
//! batch, and folds each batch into sequential updates.
//!
//! The gain is `p / (p + r)` rounded down onto the micro scale, with
//! the explicit policy that a vanishing total uncertainty (`p + r == 0`)
//! yields gain 1, so a zero-noise measurement always snaps the estimate
//! to itself rather than dividing zero by zero.  Folding n observations
//! as n sequential updates approximates a joint multi-sensor update;
//! the result is order-dependent when sources disagree with small
//! noise, which is a known property of this scheme, not an accident of
//! this implementation.

use vstd::prelude::*;
use crate::fixed::{
    MAX_RATE_MICRO, MAX_SOURCES_LEN, MAX_WEIGHT_MICRO, SCALE, lemma_div_le_bound,
};

verus! {

/// Process noise added to the covariance by each `predict`, in
/// micro-units (0.0001).
pub const PROCESS_NOISE_MICRO: u64 = 100;

/// Covariance a freshly seeded filter starts with, in micro-units
/// (0.01).
pub const INITIAL_VARIANCE_MICRO: u64 = 10_000;

/// Observation noise a filter starts with before its first update, in
/// micro-units (0.01).
pub const DEFAULT_OBS_NOISE_MICRO: u64 = 10_000;

/// One rate observation: a source name, the quoted rate and the weight
/// and noise variance of the source, all numeric fields in micro-units.
#[derive(Clone, Debug)]
pub struct RateSource {
    pub name: String,
    pub rate: u64,
    pub weight: u64,
    pub noise_variance: u64,
}

/// Scalar Kalman filter state: estimate `x`, error covariance `p`,
/// fixed process noise `q`, and the observation noise `r` of the latest
/// update, all in micro-units.
#[derive(Clone, Copy, Debug, PartialEq, Eq, Structural)]
pub struct KalmanFilter {
    pub x: u64,
    pub p: u64,
    pub q: u64,
    pub r: u64,
}

/// The Kalman gain on the micro scale: `p / (p + r)` rounded down, and
/// exactly 1 when both uncertainties vanish.
pub open spec fn gain_model(p: int, r: int) -> int {
    if p + r == 0 {
        SCALE as int
    } else {
        (p * SCALE) / (p + r)
    }
}

/// The estimate after one update: the old estimate moved toward the
/// measurement by the gain, each product rounded down on the micro
/// scale.
pub open spec fn next_x_model(x: int, p: int, m: int, r: int) -> int {
    let g = gain_model(p, r);
    if m >= x {
        x + (g * (m - x)) / (SCALE as int)
    } else {
        x - (g * (x - m)) / (SCALE as int)
    }
}

/// The covariance after one update: scaled by one minus the gain,
/// rounded down.
pub open spec fn next_p_model(p: int, r: int) -> int {
    (p * (SCALE - gain_model(p, r))) / (SCALE as int)
}

/// The whole filter state after one update with measurement `m` and
/// observation noise `noise`.
pub open spec fn spec_update(st: KalmanFilter, m: u64, noise: u64) -> KalmanFilter {
    KalmanFilter {
        x: next_x_model(st.x as int, st.p as int, m as int, noise as int) as u64,
        p: next_p_model(st.p as int, noise as int) as u64,
        q: st.q,
        r: noise,
    }
}

/// The filter state after one `predict`: covariance grown by the
/// process noise.
pub open spec fn spec_predicted(st: KalmanFilter) -> KalmanFilter {
    KalmanFilter { x: st.x, p: (st.p + st.q) as u64, q: st.q, r: st.r }
}

/// The gain always lies between 0 and 1 on the micro scale.
pub proof fn lemma_gain_bounds(p: int, r: int)
    requires
        0 <= p,
        0 <= r,
    ensures
        0 <= gain_model(p, r) <= SCALE,
{
    if p + r == 0 {
    } else {
        assert(p * SCALE <= (p + r) * SCALE) by (nonlinear_arith)
            requires 0 <= p && 0 <= r,
        ;
        lemma_div_le_bound(p * SCALE, p + r, SCALE as int);
        assert(0 <= p * SCALE) by (nonlinear_arith)
            requires 0 <= p,
        ;
        vstd::arithmetic::div_mod::lemma_div_pos_is_pos(p * SCALE, p + r);
    }
}

/// One update moves the estimate toward the measurement and never past
/// it, and never increases the covariance.
pub proof fn lemma_update_bounds(x: int, p: int, m: int, r: int)
    requires
        0 <= x,
        0 <= p,
        0 <= m,
        0 <= r,
    ensures
        (if m >= x {
            x <= next_x_model(x, p, m, r) <= m
        } else {
            m <= next_x_model(x, p, m, r) <= x
        }),
        0 <= next_p_model(p, r) <= p,
{
    lemma_gain_bounds(p, r);
    let g = gain_model(p, r);
    if m >= x {
        assert(g * (m - x) <= SCALE * (m - x)) by (nonlinear_arith)
            requires g <= SCALE && m >= x,
        ;
        assert(SCALE * (m - x) == (m - x) * SCALE) by (nonlinear_arith);
        lemma_div_le_bound(g * (m - x), SCALE as int, m - x);
        assert(0 <= g * (m - x)) by (nonlinear_arith)
            requires 0 <= g && m >= x,
        ;
        vstd::arithmetic::div_mod::lemma_div_pos_is_pos(g * (m - x), SCALE as int);
    } else {
        assert(g * (x - m) <= SCALE * (x - m)) by (nonlinear_arith)
            requires g <= SCALE && m < x,
        ;
        assert(SCALE * (x - m) == (x - m) * SCALE) by (nonlinear_arith);
        lemma_div_le_bound(g * (x - m), SCALE as int, x - m);
        assert(0 <= g * (x - m)) by (nonlinear_arith)
            requires 0 <= g && m < x,
        ;
        vstd::arithmetic::div_mod::lemma_div_pos_is_pos(g * (x - m), SCALE as int);
    }
    assert(p * (SCALE - g) <= p * SCALE) by (nonlinear_arith)
        requires 0 <= p && 0 <= g,
    ;
    assert(p * SCALE == SCALE * p) by (nonlinear_arith);
    lemma_div_le_bound(p * (SCALE - g), SCALE as int, p);
    assert(0 <= p * (SCALE - g)) by (nonlinear_arith)
        requires 0 <= p && g <= SCALE,
    ;
    vstd::arithmetic::div_mod::lemma_div_pos_is_pos(p * (SCALE - g), SCALE as int);
}

/// An update with a measurement equal to the current estimate leaves
/// the estimate unchanged, and the covariance never grows; it strictly
/// shrinks whenever the rounded gain is at least one micro-unit, i.e.
/// while `p * SCALE >= p + r`.  (With a tiny covariance and a huge
/// noise the rounded gain is zero and the covariance merely stays put.)
pub proof fn lemma_update_constant_measurement(x: int, p: int, r: int)
    requires
        0 <= x,
        0 <= p,
        0 <= r,
    ensures
        next_x_model(x, p, x, r) == x,
        next_p_model(p, r) <= p,
        p > 0 && p * SCALE >= p + r ==> next_p_model(p, r) < p,
{
    lemma_gain_bounds(p, r);
    let g = gain_model(p, r);
    assert(g * (x - x) == 0) by (nonlinear_arith);
    assert((0 as int) / (SCALE as int) == 0);
    lemma_update_bounds(x, p, x, r);
    if p > 0 && p * SCALE >= p + r {
        assert(g >= 1) by {
            assert(p + r > 0);
            vstd::arithmetic::div_mod::lemma_div_is_ordered(p + r, p * SCALE, p + r);
            vstd::arithmetic::div_mod::lemma_div_by_self(p + r);
        }
        assert(p * (SCALE - g) <= p * (SCALE - 1)) by (nonlinear_arith)
            requires 0 <= p && 1 <= g,
        ;
        assert(p * (SCALE - 1) == p * SCALE - p) by (nonlinear_arith);
        assert(p * SCALE - p < (SCALE as int) * p) by (nonlinear_arith)
            requires 1 <= p,
        ;
        vstd::arithmetic::div_mod::lemma_multiply_divide_lt(p * SCALE - p, SCALE as int, p);
        vstd::arithmetic::div_mod::lemma_div_is_ordered(
            p * (SCALE - g),
            p * SCALE - p,
            SCALE as int,
        );
    }
}

/// A measurement with zero noise variance snaps the estimate exactly to
/// the measurement and drops the covariance to zero: as the noise of a
/// source vanishes it becomes authoritative.
pub proof fn lemma_update_zero_noise(x: int, p: int, m: int)
    requires
        0 <= x,
        0 <= p,
        0 <= m,
    ensures
        next_x_model(x, p, m, 0) == m,
        next_p_model(p, 0) == 0,
{
    let g = gain_model(p, 0);
    assert(g == SCALE) by {
        if p != 0 {
            assert(p * SCALE == SCALE * p) by (nonlinear_arith);
            vstd::arithmetic::div_mod::lemma_div_multiples_vanish(SCALE as int, p);
        }
    }
    if m >= x {
        assert(SCALE * (m - x) == (m - x) * SCALE) by (nonlinear_arith);
        vstd::arithmetic::div_mod::lemma_div_multiples_vanish(m - x, SCALE as int);
    } else {
        assert(SCALE * (x - m) == (x - m) * SCALE) by (nonlinear_arith);
        vstd::arithmetic::div_mod::lemma_div_multiples_vanish(x - m, SCALE as int);
    }
    assert(p * (SCALE - SCALE) == 0) by (nonlinear_arith);
    assert((0 as int) / (SCALE as int) == 0);
}

impl KalmanFilter {
    /// A filter that starts at the given estimate and covariance, with
    /// the standard process noise of 0.0001 and an initial observation
    /// noise of 0.01, all in micro-units.
    pub fn new(initial_rate: u64, initial_variance: u64) -> (f: KalmanFilter)
        ensures
            f.x == initial_rate,
            f.p == initial_variance,
            f.q == PROCESS_NOISE_MICRO,
            f.r == DEFAULT_OBS_NOISE_MICRO,
    {
        KalmanFilter {
            x: initial_rate,
            p: initial_variance,
            q: PROCESS_NOISE_MICRO,
            r: DEFAULT_OBS_NOISE_MICRO,
        }
    }

    /// One prediction step: the covariance grows by the process noise
    /// while the estimate stands.
    pub fn predict(&mut self)
        requires
            old(self).p + old(self).q <= u64::MAX,
        ensures
            *final(self) == spec_predicted(*old(self)),
    {
        self.p = self.p + self.q;
    }

    /// One measurement update: records the observation noise, blends
    /// the measurement into the estimate by the Kalman gain, and scales
    /// the covariance down by one minus the gain.  The new estimate
    /// lies between the old estimate and the measurement, and the
    /// covariance never grows.
    pub fn update(&mut self, measurement: u64, measurement_noise: u64)
        ensures
            *final(self) == spec_update(*old(self), measurement, measurement_noise),
            final(self).p <= old(self).p,
            final(self).q == old(self).q,
            old(self).x <= measurement ==> old(self).x <= final(self).x <= measurement,
            measurement < old(self).x ==> measurement <= final(self).x <= old(self).x,
    {
        proof {
            lemma_gain_bounds(self.p as int, measurement_noise as int);
            lemma_update_bounds(
                self.x as int,
                self.p as int,
                measurement as int,
                measurement_noise as int,
            );
        }
        self.r = measurement_noise;
        let pr: u128 = (self.p as u128) + (self.r as u128);
        let gain: u64 = if pr == 0 {
            SCALE
        } else {
            (((self.p as u128) * (SCALE as u128)) / pr) as u64
        };
        proof {
            assert(gain == gain_model(self.p as int, measurement_noise as int));
        }
        if measurement >= self.x {
            let delta: u64 = (((gain as u128) * ((measurement - self.x) as u128))
                / (SCALE as u128)) as u64;
            self.x = self.x + delta;
        } else {
            let delta: u64 = (((gain as u128) * ((self.x - measurement) as u128))
                / (SCALE as u128)) as u64;
            self.x = self.x - delta;
        }
        self.p = (((self.p as u128) * ((SCALE - gain) as u128)) / (SCALE as u128)) as u64;
    }

    /// The current estimate, in micro-units.
    pub fn get_estimate(&self) -> (x: u64)
        ensures
            x == self.x,
    {
        self.x
    }

    /// The current error covariance, in micro-units.
    pub fn get_variance(&self) -> (p: u64)
        ensures
            p == self.p,
    {
        self.p
    }
}

/// Every observation's rate and weight lies within the accepted limits.
pub open spec fn sources_within(srcs: Seq<RateSource>) -> bool {
    forall|i: int| 0 <= i < srcs.len()
        ==> #[trigger] srcs[i].rate <= MAX_RATE_MICRO && srcs[i].weight <= MAX_WEIGHT_MICRO
}

/// Total weight of an observation batch.
pub open spec fn weight_sum(srcs: Seq<RateSource>) -> int
    decreases srcs.len(),
{
    if srcs.len() == 0 {
        0
    } else {
        weight_sum(srcs.drop_last()) + srcs.last().weight
    }
}

/// Weight-scaled rate sum of an observation batch.
pub open spec fn rate_weight_sum(srcs: Seq<RateSource>) -> int
    decreases srcs.len(),
{
    if srcs.len() == 0 {
        0
    } else {
        rate_weight_sum(srcs.drop_last()) + srcs.last().rate * srcs.last().weight
    }
}

/// The seed estimate of a fresh key: the weighted average of the batch,
/// rounded down; the first rate when the total weight is zero; zero for
/// an empty batch (an empty batch on a fresh key seeds a filter at zero
/// and performs no update).
pub open spec fn seed_rate(srcs: Seq<RateSource>) -> int {
    if weight_sum(srcs) > 0 {
        rate_weight_sum(srcs) / weight_sum(srcs)
    } else if srcs.len() > 0 {
        srcs[0].rate as int
    } else {
        0
    }
}

/// The filter a fresh key starts from.
pub open spec fn spec_seeded_filter(srcs: Seq<RateSource>) -> KalmanFilter {
    KalmanFilter {
        x: seed_rate(srcs) as u64,
        p: INITIAL_VARIANCE_MICRO,
        q: PROCESS_NOISE_MICRO,
        r: DEFAULT_OBS_NOISE_MICRO,
    }
}

/// The filter state after folding a batch of observations, in order,
/// into sequential updates.
pub open spec fn spec_updates(st: KalmanFilter, srcs: Seq<RateSource>) -> KalmanFilter
    decreases srcs.len(),
{
    if srcs.len() == 0 {
        st
    } else {
        spec_update(
            spec_updates(st, srcs.drop_last()),
            srcs.last().rate,
            srcs.last().noise_variance,
        )
    }
}

/// The filter state after one whole fusion round: one prediction, then
/// one update per observation in the order supplied.
pub open spec fn spec_fused(st: KalmanFilter, srcs: Seq<RateSource>) -> KalmanFilter {
    spec_updates(spec_predicted(st), srcs)
}

/// No two entries of the filter table share a key.
pub open spec fn keys_distinct(ps: Seq<(String, KalmanFilter)>) -> bool {
    forall|i: int, j: int| 0 <= i < j < ps.len() ==> #[trigger] ps[i].0@ != #[trigger] ps[j].0@
}

/// Whether the table holds a filter for the key.
pub open spec fn spec_has_key(ps: Seq<(String, KalmanFilter)>, key: Seq<char>) -> bool {
    exists|i: int| 0 <= i < ps.len() && #[trigger] ps[i].0@ == key
}

/// The index of the key's entry.
pub open spec fn spec_key_idx(ps: Seq<(String, KalmanFilter)>, key: Seq<char>) -> int {
    choose|i: int| 0 <= i < ps.len() && #[trigger] ps[i].0@ == key
}

/// The filter stored under the key.
pub open spec fn spec_filter_at(ps: Seq<(String, KalmanFilter)>, key: Seq<char>) -> KalmanFilter {
    ps[spec_key_idx(ps, key)].1
}

/// In a table with distinct keys, any entry whose key matches is the
/// entry that `spec_filter_at` denotes.
pub proof fn lemma_filter_at_index(ps: Seq<(String, KalmanFilter)>, key: Seq<char>, i: int)
    requires
        keys_distinct(ps),
        0 <= i < ps.len(),
        ps[i].0@ == key,
    ensures
        spec_has_key(ps, key),
        spec_key_idx(ps, key) == i,
        spec_filter_at(ps, key) == ps[i].1,
{
    assert(spec_has_key(ps, key));
    let j = spec_key_idx(ps, key);
    assert(0 <= j < ps.len() && ps[j].0@ == key);
    if i < j {
        assert(ps[i].0@ != ps[j].0@);
    } else if j < i {
        assert(ps[j].0@ != ps[i].0@);
    }
}

/// The weighted rate sum is bounded by the total weight times the
/// largest accepted rate, so the weighted average stays within range.
pub proof fn lemma_rate_weight_sum_le(srcs: Seq<RateSource>)
    requires
        sources_within(srcs),
    ensures
        0 <= weight_sum(srcs),
        0 <= rate_weight_sum(srcs) <= weight_sum(srcs) * (MAX_RATE_MICRO as int),
    decreases srcs.len(),
{
    if srcs.len() == 0 {
    } else {
        assert(sources_within(srcs.drop_last())) by {
            assert(forall|i: int| 0 <= i < srcs.len() - 1
                ==> #[trigger] srcs.drop_last()[i] == srcs[i]);
        }
        lemma_rate_weight_sum_le(srcs.drop_last());
        let rt = srcs.last().rate as int;
        let wt = srcs.last().weight as int;
        assert(srcs[srcs.len() - 1].rate <= MAX_RATE_MICRO);
        assert(0 <= rt * wt <= (MAX_RATE_MICRO as int) * wt) by (nonlinear_arith)
            requires 0 <= rt <= MAX_RATE_MICRO as int && 0 <= wt,
        ;
        assert(weight_sum(srcs.drop_last()) * (MAX_RATE_MICRO as int)
            + (MAX_RATE_MICRO as int) * wt
            == (weight_sum(srcs.drop_last()) + wt) * (MAX_RATE_MICRO as int))
            by (nonlinear_arith);
    }
}

/// Fusion coordinator: one Kalman filter per instrument key, created
/// lazily on the first observation batch for that key and mutated in
/// place by later batches.  Concurrent use on one key must be
/// serialized by the owner; distinct keys are independent.
pub struct ExchangeRateFusion {
    pub filters: Vec<(String, KalmanFilter)>,
}

impl ExchangeRateFusion {
    /// Well-formedness: the filter table holds at most one entry per
    /// key.
    pub open spec fn wf(self) -> bool {
        keys_distinct(self.filters@)
    }

    /// An empty coordinator with no filters.
    pub fn new() -> (f: ExchangeRateFusion)
        ensures
            f.wf(),
            f.filters@.len() == 0,
    {
        ExchangeRateFusion { filters: Vec::new() }
    }

    /// The index of the key's entry in the table, if any.
    fn find_index(&self, key: &String) -> (r: Option<usize>)
        ensures
            match r {
                Some(i) => i < self.filters@.len() && self.filters@[i as int].0@ == key@,
                None => !spec_has_key(self.filters@, key@),
            },
    {
        let n = self.filters.len();
        let mut i: usize = 0;
        while i < n
            invariant
                0 <= i <= n,
                n == self.filters@.len(),
                forall|j: int| 0 <= j < i ==> #[trigger] self.filters@[j].0@ != key@,
            decreases n - i,
        {
            if self.filters[i].0 == *key {
                return Some(i);
            }
            i = i + 1;
        }
        None
    }

    /// The weighted average that seeds a fresh filter: the sum of
    /// rate times weight over the total weight, rounded down, with the
    /// first rate as fallback when the total weight is zero, and zero
    /// for an empty batch.
    fn weighted_average(sources: &Vec<RateSource>) -> (r: u64)
        requires
            sources@.len() <= MAX_SOURCES_LEN,
            sources_within(sources@),
        ensures
            r == seed_rate(sources@),
            r <= MAX_RATE_MICRO,
    {
        let n = sources.len();
        let mut tw: u128 = 0;
        let mut rw: u128 = 0;
        let mut i: usize = 0;
        while i < n
            invariant
                0 <= i <= n,
                n == sources@.len() <= MAX_SOURCES_LEN,
                sources_within(sources@),
                tw == weight_sum(sources@.subrange(0, i as int)),
                rw == rate_weight_sum(sources@.subrange(0, i as int)),
                tw <= i * (MAX_WEIGHT_MICRO as int),
                rw <= i * ((MAX_RATE_MICRO as int) * (MAX_WEIGHT_MICRO as int)),
            decreases n - i,
        {
            let s = &sources[i];
            proof {
                let t = sources@.subrange(0, i as int + 1);
                assert(t.drop_last() =~= sources@.subrange(0, i as int));
                assert(t.last() == sources@[i as int]);
                assert(sources@[i as int].rate <= MAX_RATE_MICRO
                    && sources@[i as int].weight <= MAX_WEIGHT_MICRO);
                assert(0 <= (sources@[i as int].rate as int) * (sources@[i as int].weight as int)
                    <= (MAX_RATE_MICRO as int) * (MAX_WEIGHT_MICRO as int)) by (nonlinear_arith)
                    requires
                        0 <= sources@[i as int].rate as int <= MAX_RATE_MICRO as int,
                        0 <= sources@[i as int].weight as int <= MAX_WEIGHT_MICRO as int,
                ;
                assert(i * (MAX_WEIGHT_MICRO as int) + MAX_WEIGHT_MICRO as int
                    == (i + 1) * (MAX_WEIGHT_MICRO as int)) by (nonlinear_arith);
                assert(i * ((MAX_RATE_MICRO as int) * (MAX_WEIGHT_MICRO as int))
                    + (MAX_RATE_MICRO as int) * (MAX_WEIGHT_MICRO as int)
                    == (i + 1) * ((MAX_RATE_MICRO as int) * (MAX_WEIGHT_MICRO as int)))
                    by (nonlinear_arith);
                assert(0 <= i * (MAX_WEIGHT_MICRO as int)) by (nonlinear_arith)
                    requires 0 <= i,
                ;
                assert(0 <= i * ((MAX_RATE_MICRO as int) * (MAX_WEIGHT_MICRO as int)))
                    by (nonlinear_arith)
                    requires 0 <= i,
                ;
            }
            tw = tw + (s.weight as u128);
            rw = rw + (s.rate as u128) * (s.weight as u128);
            i = i + 1;
        }
        proof {
            assert(sources@.subrange(0, n as int) =~= sources@);
        }
        if tw > 0 {
            proof {
                lemma_rate_weight_sum_le(sources@);
                lemma_div_le_bound(
                    rate_weight_sum(sources@),
                    weight_sum(sources@),
                    MAX_RATE_MICRO as int,
                );
                vstd::arithmetic::div_mod::lemma_div_pos_is_pos(
                    rate_weight_sum(sources@),
                    weight_sum(sources@),
                );
            }
            (rw / tw) as u64
        } else if n > 0 {
            sources[0].rate
        } else {
            0
        }
    }

    /// One fusion round for a key: a fresh key is seeded from the
    /// batch's weighted average with the standard initial covariance;
    /// then the key's filter predicts once and folds each observation,
    /// in the order supplied, into one update.  Returns the fused
    /// estimate; all other keys are left untouched.
    pub fn fuse_rates(&mut self, currency_pair: &str, sources: &Vec<RateSource>) -> (rate: u64)
        requires
            old(self).wf(),
            sources@.len() <= MAX_SOURCES_LEN,
            sources_within(sources@),
            spec_has_key(old(self).filters@, currency_pair@)
                ==> spec_filter_at(old(self).filters@, currency_pair@).p
                    + spec_filter_at(old(self).filters@, currency_pair@).q <= u64::MAX,
        ensures
            final(self).wf(),
            ({
                let ps = old(self).filters@;
                let key = currency_pair@;
                let st0 = if spec_has_key(ps, key) {
                    spec_filter_at(ps, key)
                } else {
                    spec_seeded_filter(sources@)
                };
                let stf = spec_fused(st0, sources@);
                &&& rate == stf.x
                &&& spec_has_key(final(self).filters@, key)
                &&& spec_filter_at(final(self).filters@, key) == stf
                &&& (spec_has_key(ps, key) ==> {
                    &&& final(self).filters@.len() == ps.len()
                    &&& forall|j: int| 0 <= j < ps.len() && j != spec_key_idx(ps, key)
                        ==> #[trigger] final(self).filters@[j] == ps[j]
                    &&& final(self).filters@[spec_key_idx(ps, key)].0 == ps[spec_key_idx(ps, key)].0
                })
                &&& (!spec_has_key(ps, key) ==> {
                    &&& final(self).filters@.len() == ps.len() + 1
                    &&& forall|j: int| 0 <= j < ps.len()
                        ==> #[trigger] final(self).filters@[j] == ps[j]
                    &&& final(self).filters@.last().0@ == key
                })
            }),
    {
        let key: String = currency_pair.to_owned();
        let found = self.find_index(&key);
        let ghost ps = self.filters@;

        let mut filter: KalmanFilter;
        let idx: usize;
        match found {
            Some(i) => {
                proof {
                    lemma_filter_at_index(ps, currency_pair@, i as int);
                }
                filter = self.filters[i].1;
                idx = i;
            }
            None => {
                let seed = Self::weighted_average(sources);
                filter = KalmanFilter::new(seed, INITIAL_VARIANCE_MICRO);
                idx = self.filters.len();
                self.filters.push((key, filter));
                proof {
                    assert(self.filters@.drop_last() =~= ps);
                }
            }
        }
        let ghost st0 = filter;

        filter.predict();
        let n = sources.len();
        let mut i: usize = 0;
        while i < n
            invariant
                0 <= i <= n,
                n == sources@.len(),
                filter == spec_updates(spec_predicted(st0), sources@.subrange(0, i as int)),
            decreases n - i,
        {
            proof {
                let t = sources@.subrange(0, i as int + 1);
                assert(t.drop_last() =~= sources@.subrange(0, i as int));
                assert(t.last() == sources@[i as int]);
            }
            let s = &sources[i];
            filter.update(s.rate, s.noise_variance);
            i = i + 1;
        }
        proof {
            assert(sources@.subrange(0, n as int) =~= sources@);
        }

        let name = self.filters[idx].0.clone();
        self.filters[idx] = (name, filter);
        proof {
            assert(self.filters@[idx as int].0@ == currency_pair@);
            assert(keys_distinct(self.filters@)) by {
                assert(forall|j: int| 0 <= j < self.filters@.len() && j != idx as int
                    ==> #[trigger] self.filters@[j].0@
                        == (if spec_has_key(ps, currency_pair@) { ps } else { ps.push((key, st0)) })[j].0@);
            }
            lemma_filter_at_index(self.filters@, currency_pair@, idx as int);
        }
        filter.get_estimate()
    }

    /// The current estimate and confidence for a key, or `None` when no
    /// observation batch has been fused for it.  Confidence is
    /// 1 / (1 + p) on the micro scale, rounded down: between 0 and 1,
    /// and 1 exactly when the covariance is zero.
    pub fn get_rate_with_confidence(&self, currency_pair: &str) -> (r: Option<(u64, u64)>)
        requires
            self.wf(),
        ensures
            r is Some <==> spec_has_key(self.filters@, currency_pair@),
            r is Some ==> {
                let f = spec_filter_at(self.filters@, currency_pair@);
                &&& r->Some_0.0 == f.x
                &&& r->Some_0.1
                    == (SCALE as int) * (SCALE as int) / ((SCALE as int) + f.p as int)
                &&& r->Some_0.1 <= SCALE
            },
    {
        let key: String = currency_pair.to_owned();
        match self.find_index(&key) {
            Some(i) => {
                proof {
                    lemma_filter_at_index(self.filters@, currency_pair@, i as int);
                }
                let f = &self.filters[i].1;
                let rate = f.get_estimate();
                let variance = f.get_variance();
                proof {
                    assert((SCALE as int) * (SCALE as int)
                        <= ((SCALE as int) + variance as int) * (SCALE as int))
                        by (nonlinear_arith)
                        requires 0 <= variance,
                    ;
                    lemma_div_le_bound(
                        (SCALE as int) * (SCALE as int),
                        (SCALE as int) + variance as int,
                        SCALE as int,
                    );
                }
                let confidence: u64 = (((SCALE as u128) * (SCALE as u128))
                    / ((SCALE as u128) + (variance as u128))) as u64;
                Some((rate, confidence))
            }
            None => None,
        }
    }
}

impl Default for ExchangeRateFusion {
    /// Same as `ExchangeRateFusion::new`: an empty coordinator.
    fn default() -> (f: ExchangeRateFusion)
        ensures
            f.wf(),
            f.filters@.len() == 0,
    {
        ExchangeRateFusion::new()
    }
}

} // verus!
