//! IEEE 754 binary64 numbers, carried by their 64-bit pattern.
//!
//! Ordering, negation and classification are computed on the bit pattern.
//! Rounded arithmetic and decimal parsing are delegated to `rustc_apfloat`.

use rustc_apfloat::ieee::Double;
use rustc_apfloat::Float;
use vstd::prelude::*;

verus! {

/// The bit pattern of the sign alone.
pub const SIGN_BIT: u64 = 0x8000_0000_0000_0000;

/// The bit pattern of positive infinity.
pub const INFINITY_BITS: u64 = 0x7ff0_0000_0000_0000;

/// The bit pattern of the quiet not-a-number value.
pub const NAN_BITS: u64 = 0x7ff8_0000_0000_0000;

/// The bit pattern of one.
pub const ONE_BITS: u64 = 0x3ff0_0000_0000_0000;

/// The sum of two bit patterns, rounded to nearest with ties to even.
pub uninterp spec fn ieee_add(a: u64, b: u64) -> u64;

/// The difference of two bit patterns, rounded to nearest with ties to even.
pub uninterp spec fn ieee_sub(a: u64, b: u64) -> u64;

/// The product of two bit patterns, rounded to nearest with ties to even.
pub uninterp spec fn ieee_mul(a: u64, b: u64) -> u64;

/// The quotient of two bit patterns, rounded to nearest with ties to even.
pub uninterp spec fn ieee_div(a: u64, b: u64) -> u64;

/// The bit pattern nearest to an unsigned integer.
pub uninterp spec fn ieee_from_int(n: u64) -> u64;

/// The bit pattern nearest to a decimal text, where the text is accepted.
pub uninterp spec fn ieee_parse(text: Seq<u8>) -> Option<u64>;

/// The magnitude part of a bit pattern: everything but the sign.
pub open spec fn magnitude(bits: u64) -> int {
    if bits >= SIGN_BIT {
        bits - SIGN_BIT
    } else {
        bits as int
    }
}

/// Whether a bit pattern is not a number.
pub open spec fn bits_nan(bits: u64) -> bool {
    magnitude(bits) > INFINITY_BITS
}

/// The place of a bit pattern on the number line: patterns that are numbers
/// compare as their keys do, and both zeros share the key 0.
pub open spec fn order_key(bits: u64) -> int {
    if bits >= SIGN_BIT {
        -magnitude(bits)
    } else {
        magnitude(bits)
    }
}

/// `a < b` as IEEE 754 defines it: false when either is not a number.
pub open spec fn bits_lt(a: u64, b: u64) -> bool {
    !bits_nan(a) && !bits_nan(b) && order_key(a) < order_key(b)
}

/// `a == b` as IEEE 754 defines it: false when either is not a number.
pub open spec fn bits_eq(a: u64, b: u64) -> bool {
    !bits_nan(a) && !bits_nan(b) && order_key(a) == order_key(b)
}

/// The bit pattern with its sign flipped.
pub open spec fn bits_neg(bits: u64) -> u64 {
    if bits >= SIGN_BIT {
        (bits - SIGN_BIT) as u64
    } else {
        (bits + SIGN_BIT) as u64
    }
}

/// Whether a byte is an ASCII decimal digit.
pub open spec fn is_digit(b: u8) -> bool {
    0x30 <= b <= 0x39
}

/// The end of the longest run of digits that starts at `i`.
pub open spec fn digits_end(s: Seq<u8>, i: int) -> int
    decreases s.len() - i,
{
    if 0 <= i < s.len() && is_digit(s[i]) {
        digits_end(s, i + 1)
    } else {
        i
    }
}

/// Whether the byte at `i` is one of two given bytes.
pub open spec fn byte_at_is(s: Seq<u8>, i: int, x: u8, y: u8) -> bool {
    0 <= i < s.len() && (s[i] == x || s[i] == y)
}

/// Where the mantissa of a decimal literal ends: an optional sign, digits,
/// and an optional point followed by digits. `None` where the mantissa holds
/// no digit at all.
pub open spec fn mantissa_end(s: Seq<u8>) -> Option<int> {
    let i0: int = if byte_at_is(s, 0, 0x2b, 0x2d) { 1 } else { 0 };
    let i1 = digits_end(s, i0);
    let dot = byte_at_is(s, i1, 0x2e, 0x2e);
    let i2 = if dot { digits_end(s, i1 + 1) } else { i1 };
    let digits = if dot { i2 - i0 - 1 } else { i2 - i0 };
    if digits > 0 {
        Some(i2)
    } else {
        None
    }
}

/// Whether a text is a decimal literal: a mantissa, then nothing more or an
/// exponent made of `e` or `E`, an optional sign and at least one digit.
pub open spec fn is_decimal(s: Seq<u8>) -> bool {
    match mantissa_end(s) {
        None => false,
        Some(i2) => {
            if i2 == s.len() {
                true
            } else if byte_at_is(s, i2, 0x65, 0x45) {
                let i3 = if byte_at_is(s, i2 + 1, 0x2b, 0x2d) { i2 + 2 } else { i2 + 1 };
                let i4 = digits_end(s, i3);
                i4 > i3 && i4 == s.len()
            } else {
                false
            }
        },
    }
}

/// The number that a text denotes: that of a decimal literal, rounded to
/// nearest; none for any other text.
pub open spec fn decimal_value(s: Seq<u8>) -> Option<u64> {
    if is_decimal(s) {
        ieee_parse(s)
    } else {
        None
    }
}

/// A binary64 number.
#[derive(Clone, Copy, Debug, PartialEq, Eq)]
pub struct Binary64 {
    pub bits: u64,
}

/// Calls `rustc_apfloat`'s `Add` on two `ieee::Double` values built from the
/// bit patterns, which rounds to nearest with ties to even. The result is
/// named, not described.
#[verifier::external_body]
fn apfloat_add(a: u64, b: u64) -> (r: u64)
    ensures
        r == ieee_add(a, b),
{
    (Double::from_bits(a as u128) + Double::from_bits(b as u128)).value.to_bits() as u64
}

/// Calls `rustc_apfloat`'s `Sub` on two `ieee::Double` values built from the
/// bit patterns. The result is named, not described.
#[verifier::external_body]
fn apfloat_sub(a: u64, b: u64) -> (r: u64)
    ensures
        r == ieee_sub(a, b),
{
    (Double::from_bits(a as u128) - Double::from_bits(b as u128)).value.to_bits() as u64
}

/// Calls `rustc_apfloat`'s `Mul` on two `ieee::Double` values built from the
/// bit patterns. The result is named, not described.
#[verifier::external_body]
fn apfloat_mul(a: u64, b: u64) -> (r: u64)
    ensures
        r == ieee_mul(a, b),
{
    (Double::from_bits(a as u128) * Double::from_bits(b as u128)).value.to_bits() as u64
}

/// Calls `rustc_apfloat`'s `Div` on two `ieee::Double` values built from the
/// bit patterns; a zero divisor gives an infinity or not-a-number, never a
/// failure. The result is named, not described.
#[verifier::external_body]
fn apfloat_div(a: u64, b: u64) -> (r: u64)
    ensures
        r == ieee_div(a, b),
{
    (Double::from_bits(a as u128) / Double::from_bits(b as u128)).value.to_bits() as u64
}

/// Calls `rustc_apfloat`'s `Float::from_u128` for `ieee::Double`. The result
/// is named, not described.
#[verifier::external_body]
fn apfloat_from_int(n: u64) -> (r: u64)
    ensures
        r == ieee_from_int(n),
{
    Double::from_u128(n as u128).value.to_bits() as u64
}

/// Calls `rustc_apfloat`'s `FromStr` for `ieee::Double` on a decimal
/// literal, which the crate reads in decimal and rounds to nearest; `None`
/// stands for a text that the crate rejects. The result is named, not
/// described.
#[verifier::external_body]
fn apfloat_parse(text: &[u8]) -> (r: Option<u64>)
    requires
        is_decimal(text@),
    ensures
        r == ieee_parse(text@),
{
    match std::str::from_utf8(text) {
        Ok(s) => match s.parse::<Double>() {
            Ok(v) => Some(v.to_bits() as u64),
            Err(_) => None,
        },
        Err(_) => None,
    }
}

impl Binary64 {
    pub fn from_bits(bits: u64) -> (r: Binary64)
        ensures
            r.bits == bits,
    {
        Binary64 { bits }
    }

    pub fn to_bits(self) -> (r: u64)
        ensures
            r == self.bits,
    {
        self.bits
    }

    /// Positive zero.
    pub fn zero() -> (r: Binary64)
        ensures
            r.bits == 0,
    {
        Binary64 { bits: 0 }
    }

    /// One.
    pub fn one() -> (r: Binary64)
        ensures
            r.bits == ONE_BITS,
    {
        Binary64 { bits: ONE_BITS }
    }

    /// Positive infinity.
    pub fn infinity() -> (r: Binary64)
        ensures
            r.bits == INFINITY_BITS,
    {
        Binary64 { bits: INFINITY_BITS }
    }

    /// Negative infinity.
    pub fn neg_infinity() -> (r: Binary64)
        ensures
            r.bits == bits_neg(INFINITY_BITS),
    {
        Binary64 { bits: 0xfff0_0000_0000_0000 }
    }

    /// The quiet not-a-number value.
    pub fn nan() -> (r: Binary64)
        ensures
            r.bits == NAN_BITS,
            bits_nan(r.bits),
    {
        Binary64 { bits: NAN_BITS }
    }

    /// Whether this is not a number.
    pub fn is_nan(self) -> (r: bool)
        ensures
            r == bits_nan(self.bits),
    {
        if self.bits >= SIGN_BIT {
            self.bits - SIGN_BIT > INFINITY_BITS
        } else {
            self.bits > INFINITY_BITS
        }
    }

    /// The same number with the opposite sign.
    pub fn negated(self) -> (r: Binary64)
        ensures
            r.bits == bits_neg(self.bits),
    {
        if self.bits >= SIGN_BIT {
            Binary64 { bits: self.bits - SIGN_BIT }
        } else {
            Binary64 { bits: self.bits + SIGN_BIT }
        }
    }

    /// `self < other`; false when either is not a number.
    pub fn lt(self, other: Binary64) -> (r: bool)
        ensures
            r == bits_lt(self.bits, other.bits),
    {
        if self.is_nan() || other.is_nan() {
            return false;
        }
        let a_neg = self.bits >= SIGN_BIT;
        let b_neg = other.bits >= SIGN_BIT;
        if a_neg {
            let ma: u64 = self.bits - SIGN_BIT;
            if b_neg {
                let mb: u64 = other.bits - SIGN_BIT;
                ma > mb
            } else {
                ma > 0 || other.bits > 0
            }
        } else {
            if b_neg {
                false
            } else {
                self.bits < other.bits
            }
        }
    }

    /// `self > other`; false when either is not a number.
    pub fn gt(self, other: Binary64) -> (r: bool)
        ensures
            r == bits_lt(other.bits, self.bits),
    {
        other.lt(self)
    }

    /// `self <= other`; false when either is not a number.
    pub fn le(self, other: Binary64) -> (r: bool)
        ensures
            r == (bits_lt(self.bits, other.bits) || bits_eq(self.bits, other.bits)),
    {
        if self.is_nan() || other.is_nan() {
            return false;
        }
        !other.lt(self)
    }

    /// `self == other` as numbers; false when either is not a number, true
    /// for the two zeros.
    pub fn same(self, other: Binary64) -> (r: bool)
        ensures
            r == bits_eq(self.bits, other.bits),
    {
        if self.is_nan() || other.is_nan() {
            return false;
        }
        !other.lt(self) && !self.lt(other)
    }

    /// The rounded sum.
    pub fn plus(self, other: Binary64) -> (r: Binary64)
        ensures
            r.bits == ieee_add(self.bits, other.bits),
    {
        Binary64 { bits: apfloat_add(self.bits, other.bits) }
    }

    /// The rounded difference.
    pub fn minus(self, other: Binary64) -> (r: Binary64)
        ensures
            r.bits == ieee_sub(self.bits, other.bits),
    {
        Binary64 { bits: apfloat_sub(self.bits, other.bits) }
    }

    /// The rounded product.
    pub fn times(self, other: Binary64) -> (r: Binary64)
        ensures
            r.bits == ieee_mul(self.bits, other.bits),
    {
        Binary64 { bits: apfloat_mul(self.bits, other.bits) }
    }

    /// The rounded quotient.
    pub fn over(self, other: Binary64) -> (r: Binary64)
        ensures
            r.bits == ieee_div(self.bits, other.bits),
    {
        Binary64 { bits: apfloat_div(self.bits, other.bits) }
    }

    /// The number nearest to an unsigned integer.
    pub fn from_int(n: u64) -> (r: Binary64)
        ensures
            r.bits == ieee_from_int(n),
    {
        Binary64 { bits: apfloat_from_int(n) }
    }
}

/// The end of the longest run of digits that starts at `i`.
fn scan_digits(s: &[u8], i: usize) -> (j: usize)
    requires
        i <= s.len(),
    ensures
        j == digits_end(s@, i as int),
        i <= j <= s.len(),
{
    let mut j: usize = i;
    while j < s.len() && s[j] >= 0x30 && s[j] <= 0x39
        invariant
            i <= j <= s.len(),
            digits_end(s@, j as int) == digits_end(s@, i as int),
        decreases s.len() - j,
    {
        j = j + 1;
    }
    j
}

/// Whether a text is a decimal literal.
pub fn check_decimal(s: &[u8]) -> (r: bool)
    ensures
        r == is_decimal(s@),
{
    let n = s.len();
    let i0: usize = if n > 0 && (s[0] == 0x2b || s[0] == 0x2d) { 1 } else { 0 };
    let i1 = scan_digits(s, i0);
    let dot = i1 < n && s[i1] == 0x2e;
    let i2 = if dot { scan_digits(s, i1 + 1) } else { i1 };
    let digits = if dot { i2 - i0 - 1 } else { i2 - i0 };
    if digits == 0 {
        return false;
    }
    if i2 == n {
        return true;
    }
    if s[i2] != 0x65 && s[i2] != 0x45 {
        return false;
    }
    let i3: usize = if i2 + 1 < n && (s[i2 + 1] == 0x2b || s[i2 + 1] == 0x2d) { i2 + 2 } else { i2 + 1 };
    let i4 = scan_digits(s, i3);
    i4 > i3 && i4 == n
}

impl Binary64 {
    /// Reads a decimal literal; any other text gives `None`.
    pub fn parse_decimal(text: &[u8]) -> (r: Option<Binary64>)
        ensures
            match decimal_value(text@) {
                Some(bits) => r == Some(Binary64 { bits }),
                None => r is None,
            },
    {
        if !check_decimal(text) {
            return None;
        }
        match apfloat_parse(text) {
            Some(bits) => Some(Binary64 { bits }),
            None => None,
        }
    }
}

} // verus!
