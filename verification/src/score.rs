//! Scoring primitives shared by all providers: the usage-history bonus and
//! the per-provider weight scaling.

use vstd::prelude::*;

verus! {

/// Mathematical definition of the usage bonus: five points per recorded
/// launch, capped at 200 so heavy use nudges relevance but never dominates.
pub open spec fn spec_usage_bonus(usage: u32) -> u32 {
    if usage * 5 > 200 {
        200u32
    } else {
        (usage * 5) as u32
    }
}

/// Bonus added to a fuzzy-match score for a frequently launched entry.
pub fn usage_bonus(usage: u32) -> (r: u32)
    ensures
        r == spec_usage_bonus(usage),
{
    if usage >= 40 {
        200
    } else {
        usage * 5
    }
}

/// The usage bonus never exceeds its cap.
pub proof fn lemma_usage_bonus_bounded(usage: u32)
    ensures
        spec_usage_bonus(usage) <= 200,
{
}

/// The usage bonus is monotone: more recorded launches never lower it.
pub proof fn lemma_usage_bonus_monotonic(u1: u32, u2: u32)
    requires
        u1 <= u2,
    ensures
        spec_usage_bonus(u1) <= spec_usage_bonus(u2),
{
}

/// Mathematical definition of weight scaling: the configured weight is a
/// percentage clamped to [10, 300]; the scaled score saturates at u32::MAX.
pub open spec fn spec_weighted_score(base: u32, weight: u32) -> u32 {
    let clamped = if weight < 10 {
        10int
    } else if weight > 300 {
        300int
    } else {
        weight as int
    };
    let scaled = base * clamped / 100;
    if scaled > u32::MAX {
        u32::MAX
    } else {
        scaled as u32
    }
}

/// Rescales a provider's raw score by its configured percentage weight.
/// The clamp keeps a misconfigured weight from zeroing out or overflowing
/// the ranking.
pub fn weighted_score(base: u32, weight: u32) -> (r: u32)
    ensures
        r == spec_weighted_score(base, weight),
{
    let clamped: u64 = if weight < 10 {
        10
    } else if weight > 300 {
        300
    } else {
        weight as u64
    };
    proof {
        assert((base as u64) * clamped <= (u32::MAX as u64) * 300) by (nonlinear_arith)
            requires
                base as u64 <= u32::MAX as u64,
                clamped <= 300,
        ;
    }
    let scaled: u64 = (base as u64) * clamped / 100;
    if scaled > u32::MAX as u64 {
        u32::MAX
    } else {
        scaled as u32
    }
}

/// With a weight of at most 100 percent the scaled score never exceeds the
/// base score, whatever the clamp did to the weight.
pub proof fn lemma_weighted_score_le_base(base: u32, weight: u32)
    requires
        weight <= 100,
    ensures
        spec_weighted_score(base, weight) <= base,
{
    let clamped = if weight < 10 {
        10int
    } else {
        weight as int
    };
    assert(clamped <= 100);
    assert(base * clamped <= base * 100) by (nonlinear_arith)
        requires
            clamped <= 100,
            base >= 0,
    ;
    assert(base * 100 / 100 == base);
    assert(base * clamped / 100 <= base * 100 / 100) by (nonlinear_arith)
        requires
            base * clamped <= base * 100,
    ;
}

/// The effective weight is always in [10, 300]: scaling by any configured
/// weight equals scaling by some weight already in that range.
pub proof fn lemma_weighted_score_clamped(base: u32, weight: u32)
    ensures
        exists|w: u32|
            10 <= w <= 300 && spec_weighted_score(base, weight) == spec_weighted_score(base, w),
{
    if weight < 10 {
        assert(spec_weighted_score(base, weight) == spec_weighted_score(base, 10u32));
    } else if weight > 300 {
        assert(spec_weighted_score(base, weight) == spec_weighted_score(base, 300u32));
    } else {
        assert(spec_weighted_score(base, weight) == spec_weighted_score(base, weight));
    }
}

} // verus!
