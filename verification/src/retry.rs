//! Retry policy for connecting to backing stores.
//!
//! Connection loops retry with exponential backoff and give up after
//! ten consecutive failures.  The decision is a pure function of the
//! failure count; the caller performs the waiting and the connecting.

use vstd::prelude::*;

verus! {

/// What a connection loop should do after a failure: wait the given
/// number of seconds and try again, or stop.
#[derive(Clone, Copy, Debug, PartialEq, Eq, Structural)]
pub enum RetryDecision {
    Wait(u64),
    GiveUp,
}

/// The backoff in seconds after the `failures`-th consecutive failure:
/// two to the power of the count, capped at 64 seconds.
pub open spec fn backoff_secs(failures: int) -> int {
    if failures <= 1 {
        2
    } else if failures == 2 {
        4
    } else if failures == 3 {
        8
    } else if failures == 4 {
        16
    } else if failures == 5 {
        32
    } else {
        64
    }
}

/// The decision after the `failures`-th consecutive connection failure
/// (counting from one): give up at the tenth, otherwise wait with
/// exponential backoff capped at 64 seconds.
pub fn retry_backoff(failures: u32) -> (d: RetryDecision)
    requires
        1 <= failures,
    ensures
        d == (if failures >= 10 {
            RetryDecision::GiveUp
        } else {
            RetryDecision::Wait(backoff_secs(failures as int) as u64)
        }),
{
    if failures >= 10 {
        RetryDecision::GiveUp
    } else {
        let capped: u32 = if failures < 6 {
            failures
        } else {
            6
        };
        let mut secs: u64 = 1;
        let mut i: u32 = 0;
        proof {
            vstd::arithmetic::power2::lemma2_to64();
        }
        while i < capped
            invariant
                0 <= i <= capped <= 6,
                secs == vstd::arithmetic::power2::pow2(i as nat),
                secs <= 64,
            decreases capped - i,
        {
            proof {
                vstd::arithmetic::power2::lemma2_to64();
                vstd::arithmetic::power2::lemma_pow2_unfold((i + 1) as nat);
                assert(vstd::arithmetic::power2::pow2((i + 1) as nat)
                    == 2 * vstd::arithmetic::power2::pow2(i as nat));
            }
            secs = secs * 2;
            i = i + 1;
        }
        proof {
            vstd::arithmetic::power2::lemma2_to64();
        }
        RetryDecision::Wait(secs)
    }
}

} // verus!
