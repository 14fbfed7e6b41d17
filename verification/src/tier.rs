use vstd::prelude::*;

verus! {

/// Locked-liquidity threshold (in scaled units) for tier 1.
pub const BRONZE_THRESHOLD: u64 = 1_000_000_000_000;
/// Locked-liquidity threshold (in scaled units) for tier 2.
pub const SILVER_THRESHOLD: u64 = 10_000_000_000_000;
/// Locked-liquidity threshold (in scaled units) for tier 3.
pub const GOLD_THRESHOLD: u64 = 100_000_000_000_000;
/// Locked-liquidity threshold (in scaled units) for tier 4, the highest.
pub const PLATINUM_THRESHOLD: u64 = 1_000_000_000_000_000;

/// The membership tier that a locked-liquidity amount qualifies for:
/// a non-decreasing step function over the four ascending thresholds,
/// with 0 meaning no tier at all.
pub open spec fn spec_classify(locked: int) -> int {
    if locked >= PLATINUM_THRESHOLD {
        4
    } else if locked >= GOLD_THRESHOLD {
        3
    } else if locked >= SILVER_THRESHOLD {
        2
    } else if locked >= BRONZE_THRESHOLD {
        1
    } else {
        0
    }
}

/// Maps a locked-liquidity amount to its discrete membership tier.
///
/// The classifier never considers history, only the current amount; the
/// policy that a stored tier only ever overwrites with the maximum of the
/// old tier and this classification is enforced by the ledger.
pub fn classify(locked: u64) -> (tier: u8)
    ensures
        tier == spec_classify(locked as int),
{
    if locked >= PLATINUM_THRESHOLD {
        4
    } else if locked >= GOLD_THRESHOLD {
        3
    } else if locked >= SILVER_THRESHOLD {
        2
    } else if locked >= BRONZE_THRESHOLD {
        1
    } else {
        0
    }
}

/// The classification is a non-decreasing function of the locked amount.
pub proof fn lemma_classify_monotone(locked1: int, locked2: int)
    requires
        locked1 <= locked2,
    ensures
        spec_classify(locked1) <= spec_classify(locked2),
{
}

} // verus!
