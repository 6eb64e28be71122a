//! IEEE 754 binary64 arithmetic on bit patterns.
//!
//! The verifier has no model of floating point, so every statistic in this
//! crate is carried as the `u64` bit pattern of an IEEE 754 binary64 value,
//! and the three operations the regression calculator needs are performed in
//! software by the `rustc_apfloat` crate behind the trusted wrappers below.
//! Each operation is deterministic — the result depends on the argument bits
//! alone — so its result is given a name that contracts can speak of.

use vstd::prelude::*;

use rustc_apfloat::Float;

verus! {

/// The bit pattern of the IEEE 754 binary64 sum of two binary64 values,
/// rounded to nearest, ties to even.
pub uninterp spec fn add_bits(a: u64, b: u64) -> u64;

/// The bit pattern of the IEEE 754 binary64 product of two binary64 values,
/// rounded to nearest, ties to even.
pub uninterp spec fn mul_bits(a: u64, b: u64) -> u64;

/// Whether the binary64 value with bit pattern `a` compares strictly greater
/// than the one with bit pattern `b` (false whenever either is a NaN).
pub uninterp spec fn gt_bits(a: u64, b: u64) -> bool;

/// Relies on rustc_apfloat::ieee::Double: IEEE 754 binary64 addition with
/// round to nearest, ties to even; the result depends on the bits alone.
#[verifier::external_body]
pub(crate) fn bits_add(a: u64, b: u64) -> (r: u64)
    ensures
        r == add_bits(a, b),
{
    let x = rustc_apfloat::ieee::Double::from_bits(a as u128);
    let y = rustc_apfloat::ieee::Double::from_bits(b as u128);
    (x + y).value.to_bits() as u64
}

/// Relies on rustc_apfloat::ieee::Double: IEEE 754 binary64 multiplication
/// with round to nearest, ties to even; the result depends on the bits alone.
#[verifier::external_body]
pub(crate) fn bits_mul(a: u64, b: u64) -> (r: u64)
    ensures
        r == mul_bits(a, b),
{
    let x = rustc_apfloat::ieee::Double::from_bits(a as u128);
    let y = rustc_apfloat::ieee::Double::from_bits(b as u128);
    (x * y).value.to_bits() as u64
}

/// Relies on rustc_apfloat::ieee::Double: its `PartialOrd` is the IEEE 754
/// comparison, under which a NaN compares greater than nothing; the result
/// depends on the bits alone.
#[verifier::external_body]
pub(crate) fn bits_gt(a: u64, b: u64) -> (r: bool)
    ensures
        r == gt_bits(a, b),
{
    let x = rustc_apfloat::ieee::Double::from_bits(a as u128);
    let y = rustc_apfloat::ieee::Double::from_bits(b as u128);
    x > y
}

} // verus!
