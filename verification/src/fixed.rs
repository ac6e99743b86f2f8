//! Fixed-point quantities: weights, gains and flux are integers counted in
//! millionths of a whole.

use vstd::prelude::*;

verus! {

/// One whole: the weight 1, the gain 1, the cosine of the angle 0.
pub const UNIT: u32 = 1_000_000;

/// The largest flux a bin can hold; sums beyond it saturate.
pub const FLUX_MAX: u32 = 0xffff_ffff;

/// `value` multiplied by the fixed-point factor `weight`, rounded down.
pub open spec fn scaled(weight: int, value: int) -> int {
    (weight * value) / (UNIT as int)
}

/// `x` cut off at the largest flux.
pub open spec fn clamp(x: int) -> int {
    if x > FLUX_MAX as int {
        FLUX_MAX as int
    } else {
        x
    }
}

/// Scaling by a weight of at most one whole never grows a value, and never
/// makes it negative.
pub proof fn lemma_scaled_bounds(weight: int, value: int)
    requires
        0 <= weight <= UNIT,
        0 <= value,
    ensures
        0 <= scaled(weight, value) <= value,
{
    assert(0 <= weight * value <= (UNIT as int) * value) by (nonlinear_arith)
        requires
            0 <= weight <= UNIT,
            0 <= value,
    ;
}

/// Scaling never makes a non-negative value negative.
pub proof fn lemma_scaled_nonnegative(weight: int, value: int)
    requires
        0 <= weight,
        0 <= value,
    ensures
        0 <= scaled(weight, value),
{
    assert(0 <= weight * value) by (nonlinear_arith)
        requires
            0 <= weight,
            0 <= value,
    ;
}

/// A quotient of non-negative numbers lies below whatever bounds the
/// numerator's ratio to the denominator.
pub proof fn lemma_quotient_below(num: int, den: int, bound: int)
    by (nonlinear_arith)
    requires
        0 <= num < bound * den,
        0 < den,
    ensures
        0 <= num / den < bound,
{
}

/// A quotient of non-negative numbers is at most whatever bounds the
/// numerator's ratio to the denominator.
pub proof fn lemma_quotient_at_most(num: int, den: int, bound: int)
    by (nonlinear_arith)
    requires
        0 <= num <= bound * den,
        0 < den,
    ensures
        0 <= num / den <= bound,
{
}

/// Saturating sums can be taken step by step or all at once.
pub proof fn lemma_clamp_absorbs(a: int, b: int)
    requires
        0 <= a,
        0 <= b,
    ensures
        clamp(clamp(a) + b) == clamp(a + b),
{
}

/// Multiplies `value` by the fixed-point factor `weight`.
pub fn scale(weight: u32, value: u32) -> (r: u64)
    ensures
        r == scaled(weight as int, value as int),
{
    assert(0 <= weight * value <= 0xffff_ffff * 0xffff_ffff) by (nonlinear_arith)
        requires
            0 <= weight <= 0xffff_ffff,
            0 <= value <= 0xffff_ffff,
    ;
    let product: u64 = (weight as u64) * (value as u64);
    product / (UNIT as u64)
}

/// Cuts a wide value off at the largest flux.
pub fn saturate(x: u64) -> (r: u32)
    ensures
        r == clamp(x as int),
{
    if x > FLUX_MAX as u64 {
        FLUX_MAX
    } else {
        x as u32
    }
}

/// Multiplies a flux by a fixed-point factor, saturating.
pub fn scale_flux(weight: u32, value: u32) -> (r: u32)
    ensures
        r == clamp(scaled(weight as int, value as int)),
        weight <= UNIT ==> r == scaled(weight as int, value as int),
{
    proof {
        if weight <= UNIT {
            lemma_scaled_bounds(weight as int, value as int);
        }
    }
    saturate(scale(weight, value))
}

/// Adds two fluxes, saturating.
pub fn add_flux(a: u32, b: u32) -> (r: u32)
    ensures
        r == clamp(a + b),
{
    let sum: u64 = a as u64 + b as u64;
    saturate(sum)
}

} // verus!
