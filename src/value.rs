//! Numbers. A value is an IEEE-754 double, carried as its 64-bit pattern.
//! Parsing and the four rounding operations are done by `rustc_apfloat`,
//! a software implementation of IEEE-754 (round to nearest, ties to even).
use rustc_apfloat::ieee::Double;
use rustc_apfloat::Float;
use vstd::prelude::*;
use crate::scanner::is_number_literal;

verus! {

/// The sign bit of a double.
pub const SIGN_BIT: u64 = 0x8000_0000_0000_0000;

/// The double nearest to a decimal literal.
pub uninterp spec fn decimal_to_double(text: Seq<char>) -> u64;

/// The rounded IEEE-754 sum of two doubles.
pub uninterp spec fn double_sum(a: u64, b: u64) -> u64;

/// The rounded IEEE-754 difference of two doubles.
pub uninterp spec fn double_difference(a: u64, b: u64) -> u64;

/// The rounded IEEE-754 product of two doubles.
pub uninterp spec fn double_product(a: u64, b: u64) -> u64;

/// The rounded IEEE-754 quotient of two doubles.
pub uninterp spec fn double_quotient(a: u64, b: u64) -> u64;

/// IEEE-754 negation: the sign bit flips, and nothing else changes.
pub open spec fn negated(a: u64) -> u64 {
    a ^ SIGN_BIT
}

/// Relies on `<Double as FromStr>::from_str` of rustc_apfloat: on digits
/// with at most one dot it does not fail, and it gives the nearest double
/// (ties to even), whose bits `Float::to_bits` gives.
#[verifier::external_body]
pub(crate) fn parse_number(text: &str) -> (r: u64)
    requires
        is_number_literal(text@),
    ensures
        r == decimal_to_double(text@),
{
    text.parse::<Double>().expect("a decimal literal parses").to_bits() as u64
}

/// Relies on `<Double as Add>::add` of rustc_apfloat (ties to even).
#[verifier::external_body]
pub(crate) fn add_values(a: u64, b: u64) -> (r: u64)
    ensures
        r == double_sum(a, b),
{
    (Double::from_bits(a as u128) + Double::from_bits(b as u128)).value.to_bits() as u64
}

/// Relies on `<Double as Sub>::sub` of rustc_apfloat (ties to even).
#[verifier::external_body]
pub(crate) fn subtract_values(a: u64, b: u64) -> (r: u64)
    ensures
        r == double_difference(a, b),
{
    (Double::from_bits(a as u128) - Double::from_bits(b as u128)).value.to_bits() as u64
}

/// Relies on `<Double as Mul>::mul` of rustc_apfloat (ties to even).
#[verifier::external_body]
pub(crate) fn multiply_values(a: u64, b: u64) -> (r: u64)
    ensures
        r == double_product(a, b),
{
    (Double::from_bits(a as u128) * Double::from_bits(b as u128)).value.to_bits() as u64
}

/// Relies on `<Double as Div>::div` of rustc_apfloat (ties to even).
#[verifier::external_body]
pub(crate) fn divide_values(a: u64, b: u64) -> (r: u64)
    ensures
        r == double_quotient(a, b),
{
    (Double::from_bits(a as u128) / Double::from_bits(b as u128)).value.to_bits() as u64
}

/// The negation of a double.
pub fn negate_value(a: u64) -> (r: u64)
    ensures
        r == negated(a),
{
    a ^ SIGN_BIT
}

} // verus!
