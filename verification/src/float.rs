//! Floating-point numbers, held as IEEE-754 binary64 bit patterns.
//!
//! The library never touches a hardware float: a number is the `u64` of its
//! bits, the sign and the zero test are integer operations proved here, and
//! rounding arithmetic is done in software by `rustc_apfloat`.

use rustc_apfloat::ieee::Double;
use rustc_apfloat::Float;
use vstd::prelude::*;

verus! {

/// The bit that holds the sign.
pub const SIGN_BIT: u64 = 0x8000_0000_0000_0000;

/// The bits of `1.0`.
pub const ONE: u64 = 0x3FF0_0000_0000_0000;

/// The bits of the double nearest to π.
pub const PI: u64 = 0x4009_21FB_5444_2D18;

/// The longest float literal that the tokenizer reads, in characters.
pub const MAX_LITERAL_LEN: usize = 0x100_0000;

/// The bits of `a + b`, rounded to nearest, ties to even.
pub uninterp spec fn float_sum(a: u64, b: u64) -> u64;

/// The bits of `a - b`, rounded to nearest, ties to even.
pub uninterp spec fn float_difference(a: u64, b: u64) -> u64;

/// The bits of `a * b`, rounded to nearest, ties to even.
pub uninterp spec fn float_product(a: u64, b: u64) -> u64;

/// The bits of `a / b`, rounded to nearest, ties to even.
pub uninterp spec fn float_quotient(a: u64, b: u64) -> u64;

/// The bits of the double nearest to the decimal number that `text` spells,
/// or `None` where `text` spells none.
pub uninterp spec fn float_literal(text: Seq<char>) -> Option<u64>;

/// Whether `bits` is `+0.0` or `-0.0`.
pub open spec fn is_zero(bits: u64) -> bool {
    bits == 0 || bits == SIGN_BIT
}

/// The bits of `-x`: the sign bit flipped, whatever `x` is.
pub open spec fn negated(bits: u64) -> u64 {
    bits ^ SIGN_BIT
}

/// Calls `Double::from_bits`, `Add::add` of `Double` (which is `add_r` with
/// `Round::NearestTiesToEven`) and `Double::to_bits`. The contract claims
/// only that the result is a function of the two bit patterns.
#[verifier::external_body]
pub(crate) fn add_bits(a: u64, b: u64) -> (r: u64)
    ensures
        r == float_sum(a, b),
{
    (Double::from_bits(a as u128) + Double::from_bits(b as u128)).value.to_bits() as u64
}

/// Calls `Double::from_bits`, `Sub::sub` of `Double` (which is `sub_r` with
/// `Round::NearestTiesToEven`) and `Double::to_bits`. The contract claims
/// only that the result is a function of the two bit patterns.
#[verifier::external_body]
pub(crate) fn sub_bits(a: u64, b: u64) -> (r: u64)
    ensures
        r == float_difference(a, b),
{
    (Double::from_bits(a as u128) - Double::from_bits(b as u128)).value.to_bits() as u64
}

/// Calls `Double::from_bits`, `Mul::mul` of `Double` (which is `mul_r` with
/// `Round::NearestTiesToEven`) and `Double::to_bits`. The contract claims
/// only that the result is a function of the two bit patterns.
#[verifier::external_body]
pub(crate) fn mul_bits(a: u64, b: u64) -> (r: u64)
    ensures
        r == float_product(a, b),
{
    (Double::from_bits(a as u128) * Double::from_bits(b as u128)).value.to_bits() as u64
}

/// Calls `Double::from_bits`, `Div::div` of `Double` (which is `div_r` with
/// `Round::NearestTiesToEven`) and `Double::to_bits`. The contract claims
/// only that the result is a function of the two bit patterns.
#[verifier::external_body]
pub(crate) fn div_bits(a: u64, b: u64) -> (r: u64)
    ensures
        r == float_quotient(a, b),
{
    (Double::from_bits(a as u128) / Double::from_bits(b as u128)).value.to_bits() as u64
}

/// Calls `FromStr::from_str` of `Double` (which is `from_str_r` with
/// `Round::NearestTiesToEven`) and `Double::to_bits`. The contract claims
/// only that the result is a function of the text. Longer texts are left
/// out because the crate sizes its digit buffer by a product in `usize`.
#[verifier::external_body]
pub(crate) fn parse_bits(text: &str) -> (r: Option<u64>)
    requires
        text@.len() <= MAX_LITERAL_LEN,
    ensures
        r == float_literal(text@),
{
    match text.parse::<Double>() {
        Ok(d) => Some(d.to_bits() as u64),
        Err(_) => None,
    }
}

/// Whether `bits` is a zero of either sign.
pub fn zero(bits: u64) -> (r: bool)
    ensures
        r == is_zero(bits),
{
    bits == 0 || bits == SIGN_BIT
}

/// The number with the opposite sign.
pub fn negate(bits: u64) -> (r: u64)
    ensures
        r == negated(bits),
{
    bits ^ SIGN_BIT
}

} // verus!
