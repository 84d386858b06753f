//! Division that rounds to the nearest integer.

use vstd::prelude::*;

verus! {

/// The quotient `numerator / denominator` rounded to the nearest integer,
/// a half rounded up.
pub open spec fn rounded_div(numerator: int, denominator: int) -> int {
    (2 * numerator + denominator) / (2 * denominator)
}

/// The rounded quotient lies within half a unit of the exact one.
pub proof fn lemma_rounded_div_is_nearest(numerator: int, denominator: int)
    requires
        numerator >= 0,
        denominator > 0,
    ensures
        rounded_div(numerator, denominator) >= 0,
        (2 * rounded_div(numerator, denominator) - 1) * denominator <= 2 * numerator,
        2 * numerator < (2 * rounded_div(numerator, denominator) + 1) * denominator,
{
    let q = rounded_div(numerator, denominator);
    let a = 2 * numerator + denominator;
    let d = 2 * denominator;
    vstd::arithmetic::div_mod::lemma_fundamental_div_mod(a, d);
    vstd::arithmetic::div_mod::lemma_mod_bound(a, d);
    vstd::arithmetic::div_mod::lemma_div_pos_is_pos(a, d);
    assert(d * q == 2 * (q * denominator)) by (nonlinear_arith)
        requires
            d == 2 * denominator,
    ;
    assert((2 * q - 1) * denominator == 2 * (q * denominator) - denominator) by (nonlinear_arith);
    assert((2 * q + 1) * denominator == 2 * (q * denominator) + denominator) by (nonlinear_arith);
}

/// A rounded quotient is no larger than a bound that the exact quotient does
/// not exceed.
pub proof fn lemma_rounded_div_bounded(numerator: int, denominator: int, bound: int)
    requires
        numerator >= 0,
        denominator > 0,
        numerator <= bound * denominator,
    ensures
        rounded_div(numerator, denominator) <= bound,
{
    let q = rounded_div(numerator, denominator);
    lemma_rounded_div_is_nearest(numerator, denominator);
    if q > bound {
        assert((2 * q - 1) * denominator >= (2 * bound + 1) * denominator) by (nonlinear_arith)
            requires
                q >= bound + 1,
                denominator > 0,
        ;
        assert((2 * bound + 1) * denominator == 2 * (bound * denominator) + denominator)
            by (nonlinear_arith);
    }
}

/// The product `a * b` divided by `divisor` and rounded to the nearest
/// integer, a half rounded up.
pub(crate) fn rounded_ratio(a: u32, b: u32, divisor: u32) -> (q: u64)
    requires
        divisor > 0,
    ensures
        q == rounded_div(a * b, divisor as int),
{
    assert(0 <= a * b <= 0xffff_ffff * 0xffff_ffff) by (nonlinear_arith)
        requires
            0 <= a <= 0xffff_ffff,
            0 <= b <= 0xffff_ffff,
    ;
    let product: u128 = (a as u128) * (b as u128);
    let doubled: u128 = 2 * product + (divisor as u128);
    let q: u128 = doubled / (2 * (divisor as u128));
    proof {
        assert(a * b <= (a * b) * divisor) by (nonlinear_arith)
            requires
                a * b >= 0,
                divisor >= 1,
        ;
        lemma_rounded_div_bounded(a * b, divisor as int, a * b);
        lemma_rounded_div_is_nearest(a * b, divisor as int);
    }
    q as u64
}

} // verus!
