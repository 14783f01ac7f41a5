//! 256-bit unsigned integers, held as four 64-bit limbs and computed on by
//! `ruint`.

use ruint::aliases::U256;
use vstd::prelude::*;

verus! {

/// A 256-bit unsigned integer as its four limbs, least significant first.
pub struct Wide {
    pub limbs: [u64; 4],
}

impl Wide {
    /// The number that the limbs spell.
    pub open spec fn value(self) -> nat {
        (self.limbs[0] as nat) + (self.limbs[1] as nat) * 0x1_0000_0000_0000_0000nat
            + (self.limbs[2] as nat) * 0x1_0000_0000_0000_0000_0000_0000_0000_0000nat
            + (self.limbs[3] as nat)
            * 0x1_0000_0000_0000_0000_0000_0000_0000_0000_0000_0000_0000_0000nat
    }

    /// `2^256`: one more than the largest value.
    pub open spec fn modulus() -> nat {
        0x1_0000_0000_0000_0000_0000_0000_0000_0000_0000_0000_0000_0000_0000_0000_0000_0000nat
    }
}

/// `ruint::Uint::<256, 4>::from` on a `u128`: the 256-bit integer of the same
/// value.
#[verifier::external_body]
pub(crate) fn wide_from_u128(x: u128) -> (w: Wide)
    ensures
        w.value() == x,
{
    Wide { limbs: U256::from(x).into_limbs() }
}

/// `ruint::Uint::checked_mul` at 256 bits: the product where it is below
/// `2^256`, and nothing where it is not.
#[verifier::external_body]
pub(crate) fn wide_checked_mul(a: &Wide, b: &Wide) -> (r: Option<Wide>)
    ensures
        a.value() * b.value() < Wide::modulus() ==> r.is_some() && r.unwrap().value()
            == a.value() * b.value(),
        a.value() * b.value() >= Wide::modulus() ==> r.is_none(),
{
    match U256::from_limbs(a.limbs).checked_mul(U256::from_limbs(b.limbs)) {
        Some(p) => Some(Wide { limbs: p.into_limbs() }),
        None => None,
    }
}

/// `ruint::Uint::div_rem` at 256 bits: quotient and remainder of the
/// truncating division. The divisor is not zero, on which `div_rem` panics.
#[verifier::external_body]
pub(crate) fn wide_div_rem(n: &Wide, d: &Wide) -> (r: (Wide, Wide))
    requires
        d.value() != 0,
    ensures
        r.0.value() == n.value() / d.value(),
        r.1.value() == n.value() % d.value(),
{
    let (q, m) = U256::from_limbs(n.limbs).div_rem(U256::from_limbs(d.limbs));
    (Wide { limbs: q.into_limbs() }, Wide { limbs: m.into_limbs() })
}

/// `ruint::Uint::div_ceil` at 256 bits: the quotient, one larger where the
/// division leaves a remainder. The divisor is not zero, on which `div_ceil`
/// panics.
#[verifier::external_body]
pub(crate) fn wide_div_ceil(n: &Wide, d: &Wide) -> (r: Wide)
    requires
        d.value() != 0,
    ensures
        r.value() == n.value() / d.value() + (if n.value() % d.value() == 0 {
            0nat
        } else {
            1nat
        }),
{
    Wide { limbs: U256::from_limbs(n.limbs).div_ceil(U256::from_limbs(d.limbs)).into_limbs() }
}

/// `u128::try_from` on a `ruint::Uint<256, 4>`: the same value where it fits
/// 128 bits, and nothing where it does not.
#[verifier::external_body]
pub(crate) fn wide_to_u128(w: &Wide) -> (r: Option<u128>)
    ensures
        w.value() <= u128::MAX ==> r == Some(w.value() as u128),
        w.value() > u128::MAX ==> r.is_none(),
{
    u128::try_from(U256::from_limbs(w.limbs)).ok()
}

} // verus!
