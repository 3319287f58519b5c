//! Numbers of the language: IEEE 754 double-precision values, held by their
//! bit pattern.
//!
//! Classification, negation and comparison are decided here on the bit
//! pattern. Rounded arithmetic and the reading of decimal numerals are done
//! by `rustc_apfloat`; their results are named, not described.

use crate::text::characters;
use rustc_apfloat::ieee::Double;
use rustc_apfloat::Float;
use vstd::prelude::*;

verus! {

/// The bit that holds the sign.
pub const SIGN_BIT: u64 = 0x8000_0000_0000_0000;

/// The pattern of positive infinity; every larger magnitude is a NaN.
pub const INFINITY_BITS: u64 = 0x7FF0_0000_0000_0000;

/// A double-precision number, by its bit pattern.
#[derive(Clone, Copy, Debug)]
pub struct Number {
    pub bits: u64,
}

/// The bits of the rounded sum of the doubles with bits `a` and `b`.
pub uninterp spec fn double_sum(a: u64, b: u64) -> u64;

/// The bits of the rounded difference of the doubles with bits `a` and `b`.
pub uninterp spec fn double_difference(a: u64, b: u64) -> u64;

/// The bits of the rounded product of the doubles with bits `a` and `b`.
pub uninterp spec fn double_product(a: u64, b: u64) -> u64;

/// The bits of the rounded quotient of the doubles with bits `a` and `b`.
pub uninterp spec fn double_quotient(a: u64, b: u64) -> u64;

/// The bits of the remainder of the double with bits `a` by that with bits
/// `b`, with the sign of the dividend.
pub uninterp spec fn double_remainder(a: u64, b: u64) -> u64;

/// The bits of the double that is read from the decimal numeral `text`.
pub uninterp spec fn decimal_bits(text: Seq<char>) -> u64;

/// The first position at or after `from` that holds no decimal digit, or the
/// end of the text.
pub open spec fn digits_end(text: Seq<char>, from: int) -> int
    decreases text.len() - from,
{
    if 0 <= from < text.len() && '0' <= text[from] && text[from] <= '9' {
        digits_end(text, from + 1)
    } else {
        from
    }
}

/// The decimal numerals: one digit or more, and after them at most one
/// point with the digits that follow it.
pub open spec fn is_numeral(text: Seq<char>) -> bool {
    let whole = digits_end(text, 0);
    &&& whole > 0
    &&& whole == text.len() || (0 <= whole < text.len() && text[whole] == '.' && digits_end(
        text,
        whole + 1,
    ) == text.len())
}

/// Calls `Double::add` (round to nearest, ties to even) of `rustc_apfloat`
/// on the two bit patterns. The contract only names the result.
#[verifier::external_body]
fn apfloat_add(a: u64, b: u64) -> (r: u64)
    ensures
        r == double_sum(a, b),
{
    (Double::from_bits(a as u128) + Double::from_bits(b as u128)).value.to_bits() as u64
}

/// Calls `Double::sub` (round to nearest, ties to even) of `rustc_apfloat`
/// on the two bit patterns. The contract only names the result.
#[verifier::external_body]
fn apfloat_sub(a: u64, b: u64) -> (r: u64)
    ensures
        r == double_difference(a, b),
{
    (Double::from_bits(a as u128) - Double::from_bits(b as u128)).value.to_bits() as u64
}

/// Calls `Double::mul` (round to nearest, ties to even) of `rustc_apfloat`
/// on the two bit patterns. The contract only names the result.
#[verifier::external_body]
fn apfloat_mul(a: u64, b: u64) -> (r: u64)
    ensures
        r == double_product(a, b),
{
    (Double::from_bits(a as u128) * Double::from_bits(b as u128)).value.to_bits() as u64
}

/// Calls `Double::div` (round to nearest, ties to even) of `rustc_apfloat`
/// on the two bit patterns. The contract only names the result.
#[verifier::external_body]
fn apfloat_div(a: u64, b: u64) -> (r: u64)
    ensures
        r == double_quotient(a, b),
{
    (Double::from_bits(a as u128) / Double::from_bits(b as u128)).value.to_bits() as u64
}

/// Calls `Double::rem` of `rustc_apfloat`, which is its `c_fmod`, on the two
/// bit patterns. The contract only names the result.
#[verifier::external_body]
fn apfloat_rem(a: u64, b: u64) -> (r: u64)
    ensures
        r == double_remainder(a, b),
{
    (Double::from_bits(a as u128) % Double::from_bits(b as u128)).value.to_bits() as u64
}

/// Calls `Double::from_str` of `rustc_apfloat` on a decimal numeral and
/// hands back the bits of the double it read. The contract says that a
/// numeral is read, for the reader refuses only a text without digits, with
/// two points or with another character; the double that is read is only
/// named.
#[verifier::external_body]
fn apfloat_parse(text: &str) -> (r: Option<u64>)
    requires
        is_numeral(text@),
    ensures
        r == Some(decimal_bits(text@)),
{
    match text.parse::<Double>() {
        Ok(value) => Some(value.to_bits() as u64),
        Err(_) => None,
    }
}

impl Number {
    /// Whether the sign bit is set.
    pub open spec fn negative(self) -> bool {
        self.bits >= SIGN_BIT
    }

    /// The bit pattern without its sign bit.
    pub open spec fn magnitude(self) -> int {
        if self.bits >= SIGN_BIT {
            self.bits - SIGN_BIT
        } else {
            self.bits as int
        }
    }

    /// Not a number: all exponent bits set and a fraction that is not zero.
    pub open spec fn nan(self) -> bool {
        self.magnitude() > INFINITY_BITS
    }

    /// Positive or negative zero.
    pub open spec fn zero(self) -> bool {
        self.magnitude() == 0
    }

    /// Where the number stands among those that are not NaN: doubles are
    /// ordered as their sign and magnitude are, the two zeros together.
    pub open spec fn rank(self) -> int {
        if self.negative() {
            -self.magnitude()
        } else {
            self.magnitude()
        }
    }

    /// Numeric equality: no NaN equals anything, the two zeros are equal.
    pub open spec fn equals(self, other: Number) -> bool {
        !self.nan() && !other.nan() && self.rank() == other.rank()
    }

    /// Numeric order: a NaN is below nothing and nothing is below it.
    pub open spec fn below(self, other: Number) -> bool {
        !self.nan() && !other.nan() && self.rank() < other.rank()
    }

    /// The number with its sign flipped.
    pub open spec fn negated(self) -> Number {
        if self.bits >= SIGN_BIT {
            Number { bits: (self.bits - SIGN_BIT) as u64 }
        } else {
            Number { bits: (self.bits + SIGN_BIT) as u64 }
        }
    }

    /// The rounded sum.
    pub open spec fn sum(self, other: Number) -> Number {
        Number { bits: double_sum(self.bits, other.bits) }
    }

    /// The rounded difference.
    pub open spec fn difference(self, other: Number) -> Number {
        Number { bits: double_difference(self.bits, other.bits) }
    }

    /// The rounded product.
    pub open spec fn product(self, other: Number) -> Number {
        Number { bits: double_product(self.bits, other.bits) }
    }

    /// The rounded quotient.
    pub open spec fn quotient(self, other: Number) -> Number {
        Number { bits: double_quotient(self.bits, other.bits) }
    }

    /// The remainder, with the sign of `self`.
    pub open spec fn rest(self, other: Number) -> Number {
        Number { bits: double_remainder(self.bits, other.bits) }
    }

    /// Below or equal, as numbers.
    pub open spec fn at_most(self, other: Number) -> bool {
        self.below(other) || self.equals(other)
    }

    /// The number with the given bit pattern.
    pub fn from_bits(bits: u64) -> (r: Number)
        ensures
            r.bits == bits,
    {
        Number { bits }
    }

    /// The bit pattern of the number.
    pub fn to_bits(self) -> (r: u64)
        ensures
            r == self.bits,
    {
        self.bits
    }

    /// The bit pattern without its sign bit.
    fn magnitude_bits(self) -> (r: u64)
        ensures
            r == self.magnitude(),
    {
        if self.bits >= SIGN_BIT {
            self.bits - SIGN_BIT
        } else {
            self.bits
        }
    }

    /// Whether the number is a NaN.
    pub fn is_nan(self) -> (r: bool)
        ensures
            r == self.nan(),
    {
        self.magnitude_bits() > INFINITY_BITS
    }

    /// Whether the number is a zero, of either sign.
    pub fn is_zero(self) -> (r: bool)
        ensures
            r == self.zero(),
    {
        self.magnitude_bits() == 0
    }

    /// Whether the sign bit is set.
    pub fn is_negative(self) -> (r: bool)
        ensures
            r == self.negative(),
    {
        self.bits >= SIGN_BIT
    }

    /// The number with its sign flipped.
    pub fn negate(self) -> (r: Number)
        ensures
            r == self.negated(),
    {
        if self.bits >= SIGN_BIT {
            Number { bits: self.bits - SIGN_BIT }
        } else {
            Number { bits: self.bits + SIGN_BIT }
        }
    }

    /// Whether two numbers are equal as numbers.
    pub fn is_equal(self, other: Number) -> (r: bool)
        ensures
            r == self.equals(other),
    {
        if self.is_nan() || other.is_nan() {
            false
        } else {
            let a: u64 = self.magnitude_bits();
            let b: u64 = other.magnitude_bits();
            if a == 0 && b == 0 {
                true
            } else {
                a == b && self.is_negative() == other.is_negative()
            }
        }
    }

    /// Whether the number is below the other.
    pub fn is_below(self, other: Number) -> (r: bool)
        ensures
            r == self.below(other),
    {
        if self.is_nan() || other.is_nan() {
            false
        } else {
            let a: u64 = self.magnitude_bits();
            let b: u64 = other.magnitude_bits();
            if self.is_negative() {
                if other.is_negative() {
                    b < a
                } else {
                    a != 0 || b != 0
                }
            } else {
                if other.is_negative() {
                    false
                } else {
                    a < b
                }
            }
        }
    }

    /// Whether the number is below the other or equal to it.
    pub fn is_at_most(self, other: Number) -> (r: bool)
        ensures
            r == self.at_most(other),
    {
        self.is_below(other) || self.is_equal(other)
    }

    /// The rounded sum.
    pub fn plus(self, other: Number) -> (r: Number)
        ensures
            r == self.sum(other),
    {
        Number { bits: apfloat_add(self.bits, other.bits) }
    }

    /// The rounded difference.
    pub fn minus(self, other: Number) -> (r: Number)
        ensures
            r == self.difference(other),
    {
        Number { bits: apfloat_sub(self.bits, other.bits) }
    }

    /// The rounded product.
    pub fn times(self, other: Number) -> (r: Number)
        ensures
            r == self.product(other),
    {
        Number { bits: apfloat_mul(self.bits, other.bits) }
    }

    /// The rounded quotient.
    pub fn divided_by(self, other: Number) -> (r: Number)
        ensures
            r == self.quotient(other),
    {
        Number { bits: apfloat_div(self.bits, other.bits) }
    }

    /// The remainder, with the sign of `self`.
    pub fn remainder(self, other: Number) -> (r: Number)
        ensures
            r == self.rest(other),
    {
        Number { bits: apfloat_rem(self.bits, other.bits) }
    }

    /// Reads a decimal numeral; a text that is none gives no number.
    pub fn parse(text: &str) -> (r: Option<Number>)
        ensures
            r == Number::parsed(text@),
    {
        if !has_numeral_form(text) {
            return None;
        }
        match apfloat_parse(text) {
            Some(bits) => Some(Number { bits }),
            None => None,
        }
    }

    /// The number that a decimal numeral stands for.
    pub open spec fn of_numeral(text: Seq<char>) -> Number {
        Number { bits: decimal_bits(text) }
    }

    /// The number that is read from a text: that of the numeral, and none
    /// where the text is no decimal numeral.
    pub open spec fn parsed(text: Seq<char>) -> Option<Number> {
        if is_numeral(text) {
            Some(Number::of_numeral(text))
        } else {
            None
        }
    }
}

/// The end of the digits from `from` on.
fn pass_digits(chars: &Vec<char>, from: usize) -> (r: usize)
    requires
        from <= chars.len(),
    ensures
        r == digits_end(chars@, from as int),
        from <= r <= chars.len(),
{
    let mut i: usize = from;
    while i < chars.len() && '0' <= chars[i] && chars[i] <= '9'
        invariant
            from <= i <= chars.len(),
            digits_end(chars@, from as int) == digits_end(chars@, i as int),
        decreases chars.len() - i,
    {
        i += 1;
    }
    i
}

/// Whether a text is a decimal numeral.
fn has_numeral_form(text: &str) -> (r: bool)
    ensures
        r == is_numeral(text@),
{
    let chars = characters(text);
    let whole = pass_digits(&chars, 0);
    if whole == 0 {
        false
    } else if whole == chars.len() {
        true
    } else if chars[whole] == '.' {
        pass_digits(&chars, whole + 1) == chars.len()
    } else {
        false
    }
}

impl PartialEq for Number {
    fn eq(&self, other: &Number) -> (r: bool) {
        self.is_equal(*other)
    }
}

impl vstd::std_specs::cmp::PartialEqSpecImpl for Number {
    open spec fn obeys_eq_spec() -> bool {
        true
    }

    open spec fn eq_spec(&self, other: &Number) -> bool {
        self.equals(*other)
    }
}

} // verus!
