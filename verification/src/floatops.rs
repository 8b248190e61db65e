use vstd::prelude::*;

use rustc_apfloat::Float;

verus! {

/// The bit pattern of the IEEE-754 binary64 sum of the two operand bit
/// patterns, rounding to nearest with ties to even.
pub uninterp spec fn fadd(x: u64, y: u64) -> u64;

/// The bit pattern of the IEEE-754 binary64 product of the two operand bit
/// patterns, rounding to nearest with ties to even.
pub uninterp spec fn fmul(x: u64, y: u64) -> u64;

/// Relies on `rustc_apfloat::ieee::Double`'s `+` operator: IEEE-754 binary64
/// addition, a pure function of the two operand bit patterns.
#[verifier::external_body]
pub(crate) fn add_bits(x: u64, y: u64) -> (r: u64)
    ensures
        r == fadd(x, y),
{
    let s = rustc_apfloat::ieee::Double::from_bits(x as u128)
        + rustc_apfloat::ieee::Double::from_bits(y as u128);
    s.value.to_bits() as u64
}

/// Relies on `rustc_apfloat::ieee::Double`'s `*` operator: IEEE-754 binary64
/// multiplication, a pure function of the two operand bit patterns.
#[verifier::external_body]
pub(crate) fn mul_bits(x: u64, y: u64) -> (r: u64)
    ensures
        r == fmul(x, y),
{
    let p = rustc_apfloat::ieee::Double::from_bits(x as u128)
        * rustc_apfloat::ieee::Double::from_bits(y as u128);
    p.value.to_bits() as u64
}

} // verus!
