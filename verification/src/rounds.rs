//! The repeat-count policy of the short kernels: a pass that finishes within
//! ten milliseconds is measured again with twice as many repeats, up to
//! 65536, and a measured time of zero is replaced by ten milliseconds before
//! it divides.

use vstd::arithmetic::power2::{lemma2_to64, lemma_pow2_strictly_increases, lemma_pow2_unfold, pow2};
use vstd::prelude::*;

verus! {

/// Ten milliseconds, in nanoseconds: a shorter measurement is repeated.
pub const MIN_ELAPSED_NANOS: u128 = 10_000_000;

/// The largest repeat count at which a measurement is still doubled.
pub const MAX_ROUNDS: u32 = 65536;

/// The repeat count of the next measurement, or `None` when the measurement
/// just taken stands.
pub open spec fn next_rounds_spec(rounds: u32, elapsed_nanos: u128) -> Option<u32> {
    if elapsed_nanos < MIN_ELAPSED_NANOS && rounds < MAX_ROUNDS {
        Some((2 * rounds) as u32)
    } else {
        None
    }
}

/// The time that divides the work: the measured one, or ten milliseconds
/// where the clock showed nothing.
pub open spec fn floored_elapsed(elapsed_nanos: u128) -> u128 {
    if elapsed_nanos == 0 {
        MIN_ELAPSED_NANOS
    } else {
        elapsed_nanos
    }
}

/// A repeat count that the policy can reach from 1, where every measuring
/// loop starts: a power of two up to 65536.
pub open spec fn reachable_rounds(rounds: u32) -> bool {
    exists|k: nat| k <= 16 && rounds == #[trigger] pow2(k)
}

/// Decides after a measurement of `rounds` repeats that took
/// `elapsed_nanos`: `Some` repeat count to measure again with, or `None` to
/// keep the measurement.
pub fn next_rounds(rounds: u32, elapsed_nanos: u128) -> (next: Option<u32>)
    ensures
        next == next_rounds_spec(rounds, elapsed_nanos),
{
    if elapsed_nanos < MIN_ELAPSED_NANOS && rounds < MAX_ROUNDS {
        Some(rounds * 2)
    } else {
        None
    }
}

/// The elapsed time to divide by. It is never zero.
pub fn floor_elapsed(elapsed_nanos: u128) -> (nanos: u128)
    ensures
        nanos == floored_elapsed(elapsed_nanos),
        nanos > 0,
{
    if elapsed_nanos == 0 {
        MIN_ELAPSED_NANOS
    } else {
        elapsed_nanos
    }
}

/// Doubling keeps the repeat count a power of two up to 65536. The count
/// grows with every doubling and cannot pass the cap, so the measuring loop
/// ends; it ends on a measurement of ten milliseconds or more, or at the cap.
pub proof fn lemma_rounds_stay_reachable(rounds: u32, elapsed_nanos: u128)
    requires
        reachable_rounds(rounds),
    ensures
        1 <= rounds <= MAX_ROUNDS,
        match next_rounds_spec(rounds, elapsed_nanos) {
            Some(next) => next == 2 * rounds && rounds < next <= MAX_ROUNDS && reachable_rounds(
                next,
            ),
            None => elapsed_nanos >= MIN_ELAPSED_NANOS || rounds == MAX_ROUNDS,
        },
{
    let k = choose|k: nat| k <= 16 && rounds == #[trigger] pow2(k);
    lemma2_to64();
    if k < 16 {
        lemma_pow2_strictly_increases(k, 16);
        lemma_pow2_unfold(k + 1);
        assert(pow2(k + 1) == 2 * rounds);
    }
    if 0 < k {
        lemma_pow2_strictly_increases(0, k);
    }
}

} // verus!
