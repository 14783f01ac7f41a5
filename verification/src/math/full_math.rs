//! Multiply-then-divide on 128-bit operands without intermediate overflow.

use crate::math::wide::{wide_checked_mul, wide_div_ceil, wide_div_rem, wide_from_u128, wide_to_u128};
use crate::math::Rounding;
use vstd::arithmetic::div_mod::{lemma_fundamental_div_mod, lemma_mod_bound};
use vstd::prelude::*;

verus! {

/// The quotient `n / d` rounded as `rounding` says, for `d > 0`.
pub open spec fn rounded_div(n: nat, d: nat, rounding: Rounding) -> nat {
    match rounding {
        Rounding::Down => n / d,
        Rounding::Up => if n % d == 0 {
            n / d
        } else {
            n / d + 1
        },
    }
}

/// What `mul_div` returns: the rounded quotient of `x * y` by `denominator`
/// where the denominator is not zero and the quotient fits 128 bits.
pub open spec fn mul_div_spec(x: u128, y: u128, denominator: u128, rounding: Rounding) -> Option<
    u128,
> {
    if denominator == 0 {
        None
    } else {
        let q = rounded_div((x as nat) * (y as nat), denominator as nat, rounding);
        if q <= u128::MAX {
            Some(q as u128)
        } else {
            None
        }
    }
}

/// The product of two 128-bit numbers is below `2^256`.
pub proof fn lemma_product_fits(x: u128, y: u128)
    ensures
        (x as nat) * (y as nat) < crate::math::wide::Wide::modulus(),
{
    assert((x as nat) * (y as nat) <= 0xffff_ffff_ffff_ffff_ffff_ffff_ffff_ffffnat
        * 0xffff_ffff_ffff_ffff_ffff_ffff_ffff_ffffnat) by (nonlinear_arith)
        requires
            x <= 0xffff_ffff_ffff_ffff_ffff_ffff_ffff_ffffnat,
            y <= 0xffff_ffff_ffff_ffff_ffff_ffff_ffff_ffffnat,
    ;
}

/// Rounding down gives the largest integer that is not above `n / d`.
pub proof fn lemma_rounded_down_is_floor(n: nat, d: nat)
    requires
        d > 0,
    ensures
        rounded_div(n, d, Rounding::Down) * d <= n < (rounded_div(n, d, Rounding::Down) + 1) * d,
{
    let q = n / d;
    lemma_fundamental_div_mod(n as int, d as int);
    lemma_mod_bound(n as int, d as int);
    assert((q + 1) * d == q * d + d && q * d == d * q) by (nonlinear_arith);
}

/// Rounding up gives the smallest integer that is not below `n / d`.
pub proof fn lemma_rounded_up_is_ceiling(n: nat, d: nat)
    requires
        d > 0,
    ensures
        rounded_div(n, d, Rounding::Up) * d >= n,
        rounded_div(n, d, Rounding::Up) * d < n + d,
{
    let q = n / d;
    lemma_fundamental_div_mod(n as int, d as int);
    lemma_mod_bound(n as int, d as int);
    assert((q + 1) * d == q * d + d && q * d == d * q) by (nonlinear_arith);
}

/// Where `d` divides `n`, both roundings give the exact quotient.
pub proof fn lemma_rounded_div_exact(n: nat, d: nat, rounding: Rounding)
    requires
        d > 0,
        n % d == 0,
    ensures
        rounded_div(n, d, rounding) * d == n,
        rounded_div(n, d, rounding) == n / d,
{
    let q = n / d;
    lemma_fundamental_div_mod(n as int, d as int);
    assert(q * d == d * q) by (nonlinear_arith);
}

/// A quotient of `n <= k * d` by `d` is at most `k`, whichever way it is
/// rounded.
pub proof fn lemma_rounded_div_bound(n: nat, d: nat, k: nat, rounding: Rounding)
    requires
        d > 0,
        n <= k * d,
    ensures
        rounded_div(n, d, rounding) <= k,
{
    let q = n / d;
    let m = n % d;
    lemma_fundamental_div_mod(n as int, d as int);
    lemma_mod_bound(n as int, d as int);
    assert(q <= k && (m != 0 ==> q + 1 <= k)) by (nonlinear_arith)
        requires
            n == d * q + m,
            0 <= m < d,
            n <= k * d,
            d > 0,
    ;
}

/// The rounding directions of `mul_div`: a result rounded up is never below
/// the exact quotient `x * y / d`, one rounded down is never above it, and
/// where `d` divides `x * y` both are the exact quotient.
pub proof fn lemma_mul_div_rounding(x: u128, y: u128, d: u128)
    requires
        d != 0,
    ensures
        mul_div_spec(x, y, d, Rounding::Up) matches Some(up) ==> up * d >= x * y && up * d < x
            * y + d,
        mul_div_spec(x, y, d, Rounding::Down) matches Some(down) ==> down * d <= x * y && x * y
            < (down + 1) * d,
        (x * y) % (d as int) == 0 ==> (mul_div_spec(x, y, d, Rounding::Up) matches Some(up)
            ==> up * d == x * y) && (mul_div_spec(x, y, d, Rounding::Down) matches Some(down)
            ==> down * d == x * y) && mul_div_spec(x, y, d, Rounding::Up) == mul_div_spec(
            x,
            y,
            d,
            Rounding::Down,
        ),
{
    let n = (x as nat) * (y as nat);
    lemma_rounded_down_is_floor(n, d as nat);
    lemma_rounded_up_is_ceiling(n, d as nat);
    if n % (d as nat) == 0 {
        lemma_rounded_div_exact(n, d as nat, Rounding::Up);
        lemma_rounded_div_exact(n, d as nat, Rounding::Down);
    }
}

/// Computes `x * y / denominator`, rounded as `rounding` says, over a product
/// of full width.
pub fn mul_div(x: u128, y: u128, denominator: u128, rounding: Rounding) -> (r: Option<u128>)
    ensures
        r == mul_div_spec(x, y, denominator, rounding),
{
    if denominator == 0 {
        return None;
    }
    let xw = wide_from_u128(x);
    let yw = wide_from_u128(y);
    let dw = wide_from_u128(denominator);
    proof {
        lemma_product_fits(x, y);
    }
    let prod = match wide_checked_mul(&xw, &yw) {
        Some(p) => p,
        None => { return None; },
    };
    match rounding {
        Rounding::Up => {
            let q = wide_div_ceil(&prod, &dw);
            wide_to_u128(&q)
        },
        Rounding::Down => {
            let (q, _) = wide_div_rem(&prod, &dw);
            wide_to_u128(&q)
        },
    }
}

} // verus!
