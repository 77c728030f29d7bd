//! Calendar arithmetic for the seasonal weighting model: timestamps are
//! Unix seconds, a calendar day is its day index (whole days since the
//! epoch), and the weekday follows from the day index alone, the epoch
//! day being a Thursday.

use vstd::prelude::*;

verus! {

/// The calendar classification of a day, with its spend multiplier held
/// by the forecaster in tenths.  Only `Workday` and `Weekend` can be
/// derived from a date alone; `Holiday` and `Promotion` would need an
/// external calendar source and are extension points.
#[derive(Clone, Copy, Debug, PartialEq, Eq, Structural)]
pub enum CalendarDayType {
    Workday,
    Weekend,
    Holiday,
    Promotion,
}

/// The day index of a non-negative timestamp: whole days since the epoch.
pub open spec fn day_index_of(t: int) -> int {
    t / (86_400 as int)
}

/// Weekday of a day index, 0 = Sunday .. 6 = Saturday.  Day 0
/// (1970-01-01) was a Thursday, hence the offset of 4.
pub open spec fn weekday_of_day(d: int) -> int {
    (d + 4) % (7 as int)
}

/// Whether a day index falls on a Saturday or a Sunday.
pub open spec fn is_weekend_day(d: int) -> bool {
    weekday_of_day(d) == 0 || weekday_of_day(d) == 6
}

/// Sum, in tenths, of the day multipliers of the `n` consecutive days
/// starting at day index `d0`, with `weekend` tenths for Saturdays and
/// Sundays and `workday` tenths for the rest.
pub open spec fn factor_tenth_sum(d0: int, n: nat, weekend: int, workday: int) -> int
    decreases n,
{
    if n == 0 {
        0
    } else {
        factor_tenth_sum(d0, (n - 1) as nat, weekend, workday)
            + if is_weekend_day(d0 + n - 1) { weekend } else { workday }
    }
}

/// Over a range with no weekend day the average multiplier is exactly the
/// workday multiplier: the factor sum is `n * workday`, so the mean over
/// `n` days is `workday` tenths, i.e. exactly 1.0 with the standard table.
pub proof fn lemma_factor_sum_all_workdays(d0: int, n: nat, weekend: int, workday: int)
    requires
        forall|k: int| 0 <= k < n ==> !#[trigger] is_weekend_day(d0 + k),
    ensures
        factor_tenth_sum(d0, n, weekend, workday) == n * workday,
    decreases n,
{
    if n == 0 {
    } else {
        lemma_factor_sum_all_workdays(d0, (n - 1) as nat, weekend, workday);
        assert(!is_weekend_day(d0 + (n - 1)));
        assert((n - 1) * workday + workday == n * workday) by (nonlinear_arith);
    }
}

/// Over a range of weekend days only, the average multiplier is exactly
/// the weekend multiplier: the factor sum is `n * weekend`, so the mean
/// over `n` days is `weekend` tenths, i.e. exactly 1.3 with the standard
/// table.
pub proof fn lemma_factor_sum_all_weekends(d0: int, n: nat, weekend: int, workday: int)
    requires
        forall|k: int| 0 <= k < n ==> #[trigger] is_weekend_day(d0 + k),
    ensures
        factor_tenth_sum(d0, n, weekend, workday) == n * weekend,
    decreases n,
{
    if n == 0 {
    } else {
        lemma_factor_sum_all_weekends(d0, (n - 1) as nat, weekend, workday);
        assert(is_weekend_day(d0 + (n - 1)));
        assert((n - 1) * weekend + weekend == n * weekend) by (nonlinear_arith);
    }
}

/// The weekday of a day index, 0 = Sunday .. 6 = Saturday.
pub fn weekday_of(day: u64) -> (w: u64)
    requires
        day + 4 <= u64::MAX,
    ensures
        w == weekday_of_day(day as int),
        w < 7,
{
    (day + 4) % 7
}

} // verus!
