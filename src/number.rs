//! Numbers are IEEE 754 binary64 values, carried as their bit patterns.
use vstd::prelude::*;

verus! {

/// The bit pattern of positive zero.
pub const ZERO: u64 = 0;

/// The bit pattern of one.
pub const ONE: u64 = 0x3ff0_0000_0000_0000;

/// The bit pattern of the binary64 value nearest to Euler's number.
pub const EULER: u64 = 0x4005_bf0a_8b14_5769;

/// The bit pattern of the binary64 value nearest to pi.
pub const PI: u64 = 0x4009_21fb_5444_2d18;

/// The binary64 sum of two values, rounded to nearest, ties to even.
pub uninterp spec fn sum_of(a: u64, b: u64) -> u64;

/// The binary64 product of two values, rounded to nearest, ties to even.
pub uninterp spec fn product_of(a: u64, b: u64) -> u64;

/// Relies on `rustc_apfloat::Float::add_r` on `ieee::Double` with
/// `Round::NearestTiesToEven`: the IEEE 754 sum, a function of the two
/// operands alone.
#[verifier::external_body]
pub(crate) fn add_bits(a: u64, b: u64) -> (r: u64)
    ensures
        r == sum_of(a, b),
{
    let x = <rustc_apfloat::ieee::Double as rustc_apfloat::Float>::from_bits(a as u128);
    let y = <rustc_apfloat::ieee::Double as rustc_apfloat::Float>::from_bits(b as u128);
    let z = rustc_apfloat::Float::add_r(x, y, rustc_apfloat::Round::NearestTiesToEven).value;
    rustc_apfloat::Float::to_bits(z) as u64
}

/// Relies on `rustc_apfloat::Float::mul_r` on `ieee::Double` with
/// `Round::NearestTiesToEven`: the IEEE 754 product, a function of the two
/// operands alone.
#[verifier::external_body]
pub(crate) fn mul_bits(a: u64, b: u64) -> (r: u64)
    ensures
        r == product_of(a, b),
{
    let x = <rustc_apfloat::ieee::Double as rustc_apfloat::Float>::from_bits(a as u128);
    let y = <rustc_apfloat::ieee::Double as rustc_apfloat::Float>::from_bits(b as u128);
    let z = rustc_apfloat::Float::mul_r(x, y, rustc_apfloat::Round::NearestTiesToEven).value;
    rustc_apfloat::Float::to_bits(z) as u64
}

} // verus!
