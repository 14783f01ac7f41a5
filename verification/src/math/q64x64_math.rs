//! Fixed-point numbers with the binary point at bit 64, and their powers.

use vstd::arithmetic::div_mod::lemma_div_is_ordered_by_denominator;
use vstd::prelude::*;

verus! {

/// Twelve decimal digits of precision.
pub const PRECISION: u128 = 1_000_000_000_000;

/// The position of the binary point.
pub const SCALE_OFFSET: u8 = 64;

/// Exponents of this magnitude and above are refused.
pub const MAX_EXPONENTIAL: u32 = 0x80000;

/// The fixed-point number one: `2^64`.
pub const ONE: u128 = 0x1_0000_0000_0000_0000;

/// The number of exponent bits below `MAX_EXPONENTIAL`.
pub const EXPONENT_BITS: u32 = 19;

/// The fixed-point product of two fixed-point numbers, truncated.
pub open spec fn fixed_mul(a: nat, b: nat) -> nat {
    (a * b) / (ONE as nat)
}

/// `b` squared `i` times over, truncated after each squaring: the
/// fixed-point value of `b^(2^i)`.
pub open spec fn repeated_square(b: nat, i: nat) -> nat
    decreases i,
{
    if i == 0 {
        b
    } else {
        fixed_mul(repeated_square(b, (i - 1) as nat), repeated_square(b, (i - 1) as nat))
    }
}

/// Whether bit `i` of `e` is set.
pub open spec fn bit_is_set(e: u32, i: u32) -> bool {
    e & (1u32 << i) != 0
}

/// The fixed-point product of the repeated squares of `b` that the lowest
/// `n` bits of `e` select, multiplied in from the lowest bit up and truncated
/// after each multiplication.
pub open spec fn partial_power(b: nat, e: u32, n: nat) -> nat
    decreases n,
{
    if n == 0 {
        ONE as nat
    } else if bit_is_set(e, (n - 1) as u32) {
        fixed_mul(partial_power(b, e, (n - 1) as nat), repeated_square(b, (n - 1) as nat))
    } else {
        partial_power(b, e, (n - 1) as nat)
    }
}

/// The magnitude of an exponent.
pub open spec fn magnitude(exp: i32) -> nat {
    if exp < 0 {
        (-exp) as nat
    } else {
        exp as nat
    }
}

/// What `pow` returns. A base of one or more is replaced by its reciprocal
/// first, so that every intermediate value stays below one; the result is
/// turned back at the end, where the exponent's sign and that replacement
/// together ask for it. Exponents of magnitude `2^19` and above, and powers
/// that vanish, have no value.
pub open spec fn pow_spec(base: u128, exp: i32) -> Option<u128> {
    if exp == 0 {
        Some(ONE)
    } else if magnitude(exp) >= MAX_EXPONENTIAL {
        None
    } else {
        let flipped = base >= ONE;
        let b = if flipped {
            (u128::MAX / base) as nat
        } else {
            base as nat
        };
        let r = partial_power(b, magnitude(exp) as u32, EXPONENT_BITS as nat);
        if r == 0 {
            None
        } else if (exp < 0) != flipped {
            Some((u128::MAX as nat / r) as u128)
        } else {
            Some(r as u128)
        }
    }
}

/// A truncated product of two numbers below one is below one.
proof fn lemma_fixed_mul_below_one(a: nat, b: nat)
    requires
        a <= ONE,
        b < ONE,
    ensures
        a * b < 0x1_0000_0000_0000_0000_0000_0000_0000_0000nat,
        fixed_mul(a, b) < ONE,
        fixed_mul(a, b) <= b,
{
    assert(a * b <= 0x1_0000_0000_0000_0000nat * b) by (nonlinear_arith)
        requires
            a <= 0x1_0000_0000_0000_0000nat,
    ;
}

/// Raises the fixed-point number `base` to the power `exp` by repeated
/// squaring.
pub fn pow(base: u128, exp: i32) -> (r: Option<u128>)
    ensures
        r == pow_spec(base, exp),
{
    if exp == 0 {
        return Some(ONE);
    }
    if exp == i32::MIN {
        return None;
    }
    let mut invert: bool = exp < 0;
    let e: u32 = if invert {
        (-exp) as u32
    } else {
        exp as u32
    };
    if e >= MAX_EXPONENTIAL {
        return None;
    }
    let mut squared_base: u128 = base;
    let mut result: u128 = ONE;
    if squared_base >= result {
        squared_base = match u128::MAX.checked_div(squared_base) {
            Some(q) => q,
            None => { return None; },
        };
        invert = !invert;
        proof {
            lemma_div_is_ordered_by_denominator(u128::MAX as int, ONE as int, base as int);
        }
    }
    let ghost b: nat = squared_base as nat;
    let mut i: u32 = 0;
    while i < EXPONENT_BITS
        invariant
            i <= EXPONENT_BITS,
            b < ONE,
            squared_base < ONE,
            result <= ONE,
            i < EXPONENT_BITS ==> squared_base == repeated_square(b, i as nat),
            result == partial_power(b, e, i as nat),
        decreases EXPONENT_BITS - i,
    {
        proof {
            lemma_fixed_mul_below_one(result as nat, squared_base as nat);
            lemma_fixed_mul_below_one(squared_base as nat, squared_base as nat);
        }
        if e & (1u32 << i) > 0 {
            let product: u128 = match result.checked_mul(squared_base) {
                Some(p) => p,
                None => { return None; },
            };
            assert(product >> 64 == product / 0x1_0000_0000_0000_0000) by (bit_vector);
            result = product >> SCALE_OFFSET;
        }
        if i + 1 < EXPONENT_BITS {
            let square: u128 = match squared_base.checked_mul(squared_base) {
                Some(p) => p,
                None => { return None; },
            };
            assert(square >> 64 == square / 0x1_0000_0000_0000_0000) by (bit_vector);
            squared_base = square >> SCALE_OFFSET;
        }
        i = i + 1;
    }
    if result == 0 {
        return None;
    }
    if invert {
        result = match u128::MAX.checked_div(result) {
            Some(q) => q,
            None => { return None; },
        };
    }
    Some(result)
}

} // verus!
