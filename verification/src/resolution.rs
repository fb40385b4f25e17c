//! The resolution of a histogram with three significant digits: sizes
//! below 2048 are told apart exactly, and from there on in steps that
//! double with every doubling of the size.
//!
//! This is the layout that `hdrhistogram` documents for a `Histogram` with
//! 2048 sub-buckets and a lowest discernible value of 1, which is what
//! `Histogram::new` makes of three significant digits: the first bucket
//! covers 0 to 2047 in steps of 1, the next 2048 to 4095 in steps of 2, the
//! next 4096 to 8191 in steps of 4, and so on. [`resolution_floor`] is the
//! crate's `lowest_equivalent` and [`granule`] its `equivalent_range`.

use vstd::arithmetic::div_mod::{lemma_div_is_ordered, lemma_fundamental_div_mod, lemma_mod_bound};
use vstd::arithmetic::mul::{lemma_mul_inequality, lemma_mul_is_commutative};
use vstd::prelude::*;

verus! {

/// The step in which sizes around `value` are told apart: 1 below 2048,
/// 2 from 2048 to 4095, 4 from 4096 to 8191, and so on.
pub open spec fn granule(value: nat) -> nat
    decreases value,
{
    if value < 2048 {
        1
    } else {
        2 * granule(value / 2)
    }
}

/// The lowest size that the histogram does not tell apart from `value`:
/// `value` rounded down to a multiple of its granule.
pub open spec fn resolution_floor(value: nat) -> nat {
    (value - value % granule(value)) as nat
}

/// The granule is positive, and a size of 2048 or more lies between 1024
/// and 2048 granules.
pub proof fn lemma_granule_range(value: nat)
    ensures
        granule(value) >= 1,
        value < 2048 * granule(value),
        value >= 2048 ==> 1024 * granule(value) <= value,
    decreases value,
{
    if value >= 2048 {
        lemma_granule_range(value / 2);
    }
}

/// A larger size has the same granule or at least twice the granule.
pub proof fn lemma_granule_grows(small: nat, large: nat)
    requires
        small <= large,
    ensures
        granule(small) == granule(large) || 2 * granule(small) <= granule(large),
    decreases large,
{
    if large >= 2048 {
        lemma_granule_range(large / 2);
        if small >= 2048 {
            lemma_granule_grows(small / 2, large / 2);
        }
    }
}

/// The floor of a size is a whole number of granules, no more than the size
/// and less than one granule below it.
pub proof fn lemma_floor_is_multiple(value: nat)
    ensures
        resolution_floor(value) == granule(value) * (value / granule(value)),
        resolution_floor(value) <= value < resolution_floor(value) + granule(value),
{
    let g = granule(value) as int;
    lemma_granule_range(value);
    lemma_fundamental_div_mod(value as int, g);
    lemma_mod_bound(value as int, g);
}

/// The histogram keeps three significant digits: what it loses of a size
/// is at most the 1024th part of the size.
pub proof fn lemma_resolution_bound(value: nat)
    ensures
        resolution_floor(value) <= value,
        1024 * (value - resolution_floor(value)) <= value,
{
    lemma_floor_is_multiple(value);
    lemma_granule_range(value);
}

/// A larger size never has a lower floor.
pub proof fn lemma_floor_monotonic(small: nat, large: nat)
    requires
        small <= large,
    ensures
        resolution_floor(small) <= resolution_floor(large),
{
    let g1 = granule(small) as int;
    let g2 = granule(large) as int;
    lemma_granule_range(small);
    lemma_granule_range(large);
    lemma_granule_grows(small, large);
    lemma_floor_is_multiple(small);
    lemma_floor_is_multiple(large);
    if g1 == g2 {
        lemma_div_is_ordered(small as int, large as int, g1);
        lemma_mul_inequality(small as int / g1, large as int / g1, g1);
        lemma_mul_is_commutative(g1, small as int / g1);
        lemma_mul_is_commutative(g1, large as int / g1);
    } else {
        assert(large >= 2048);
        lemma_div_is_ordered(1024 * g2, large as int, g2);
        assert((1024 * g2) / g2 == 1024) by (nonlinear_arith)
            requires
                g2 > 0,
        ;
        lemma_mul_inequality(1024, large as int / g2, g2);
        lemma_mul_is_commutative(g2, large as int / g2);
        assert(resolution_floor(large) >= 1024 * g2);
        assert(small < 2048 * g1);
    }
}

/// Computes [`granule`].
pub fn granule_of(value: u64) -> (step: u64)
    ensures
        step == granule(value as nat),
{
    let mut step: u64 = 1;
    let mut rest: u64 = value;
    while rest >= 2048
        invariant
            step >= 1,
            step * rest <= value,
            step * granule(rest as nat) == granule(value as nat),
        decreases rest,
    {
        proof {
            let half = (rest / 2) as nat;
            assert(granule(rest as nat) == 2 * granule(half));
            assert((2 * step) * granule(half) == step * (2 * granule(half))) by (nonlinear_arith);
            assert((2 * step) * (rest / 2) <= step * rest) by (nonlinear_arith)
                requires
                    step >= 1,
                    rest >= 0,
            ;
            assert(step * 2048 <= step * rest) by (nonlinear_arith)
                requires
                    step >= 1,
                    rest >= 2048,
            ;
        }
        step = 2 * step;
        rest = rest / 2;
    }
    assert(step * 1 == step) by (nonlinear_arith);
    step
}

/// Computes [`resolution_floor`]: what a histogram of three significant
/// digits keeps of `value`.
pub fn floor_of(value: u64) -> (floor: u64)
    ensures
        floor == resolution_floor(value as nat),
        floor <= value,
{
    let step = granule_of(value);
    proof {
        lemma_granule_range(value as nat);
    }
    value - value % step
}

} // verus!
