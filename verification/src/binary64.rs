//! IEEE 754 binary64 numbers held by their bit patterns, and the
//! comparisons that Rust's `f64` operators perform on them.
use vstd::prelude::*;
use vstd::arithmetic::power2::pow2;

verus! {

/// The exponent field of a binary64 bit pattern.
pub open spec fn exponent_field(b: u64) -> u64 {
    (b >> 52u64) & 0x7ffu64
}

/// The fraction field of a binary64 bit pattern.
pub open spec fn fraction_field(b: u64) -> u64 {
    b & 0xf_ffff_ffff_ffffu64
}

/// The pattern is a NaN: all exponent bits set, fraction not zero.
pub open spec fn is_nan(b: u64) -> bool {
    exponent_field(b) == 0x7ffu64 && fraction_field(b) != 0
}

/// The pattern is a finite number: not an infinity and not a NaN.
pub open spec fn is_finite(b: u64) -> bool {
    exponent_field(b) != 0x7ffu64
}

/// The sign bit is set.
pub open spec fn sign_set(b: u64) -> bool {
    (b >> 63u64) == 1u64
}

/// The pattern without its sign bit.
pub open spec fn magnitude(b: u64) -> u64 {
    b & 0x7fff_ffff_ffff_ffffu64
}

/// The value of a finite pattern, times 2^1074 so that it is an integer:
/// the significand (the fraction with its leading one for normal numbers),
/// times two to the power of the exponent less one for normal numbers, with
/// the sign applied. The real value is this divided by 2^1074.
pub open spec fn scaled_value(b: u64) -> int {
    let e = exponent_field(b);
    let f = fraction_field(b);
    let m: int = if e == 0 {
        f as int
    } else {
        (f + 0x10_0000_0000_0000int) * pow2((e - 1) as nat)
    };
    if sign_set(b) {
        -m
    } else {
        m
    }
}

/// Among numbers that are not NaN, binary64 values are ordered as their
/// magnitudes, with the sign applied: positive and negative zero both get 0.
pub open spec fn order_key(b: u64) -> int {
    if sign_set(b) {
        -(magnitude(b) as int)
    } else {
        magnitude(b) as int
    }
}

/// `a < b` as IEEE 754 compares: false whenever either side is NaN.
pub open spec fn less(a: u64, b: u64) -> bool {
    !is_nan(a) && !is_nan(b) && order_key(a) < order_key(b)
}

/// `a <= b` as IEEE 754 compares.
pub open spec fn less_eq(a: u64, b: u64) -> bool {
    !is_nan(a) && !is_nan(b) && order_key(a) <= order_key(b)
}

/// `a == b` as IEEE 754 compares: NaN equals nothing, and the two zeros are equal.
pub open spec fn equal(a: u64, b: u64) -> bool {
    !is_nan(a) && !is_nan(b) && order_key(a) == order_key(b)
}

/// The bit pattern of positive zero.
pub open spec fn zero() -> u64 {
    0u64
}

/// Whether the pattern is a NaN.
pub fn is_nan_bits(b: u64) -> (r: bool)
    ensures
        r == is_nan(b),
{
    ((b >> 52u64) & 0x7ffu64) == 0x7ffu64 && (b & 0xf_ffff_ffff_ffffu64) != 0
}

/// Whether the pattern is a finite number.
pub fn is_finite_bits(b: u64) -> (r: bool)
    ensures
        r == is_finite(b),
{
    ((b >> 52u64) & 0x7ffu64) != 0x7ffu64
}

fn order_key_of(b: u64) -> (k: i128)
    ensures
        k == order_key(b),
{
    let m = b & 0x7fff_ffff_ffff_ffffu64;
    if (b >> 63u64) == 1u64 {
        -(m as i128)
    } else {
        m as i128
    }
}

/// `a < b` on binary64 values.
pub fn less_bits(a: u64, b: u64) -> (r: bool)
    ensures
        r == less(a, b),
{
    !is_nan_bits(a) && !is_nan_bits(b) && order_key_of(a) < order_key_of(b)
}

/// `a <= b` on binary64 values.
pub fn less_eq_bits(a: u64, b: u64) -> (r: bool)
    ensures
        r == less_eq(a, b),
{
    !is_nan_bits(a) && !is_nan_bits(b) && order_key_of(a) <= order_key_of(b)
}

/// `a == b` on binary64 values.
pub fn equal_bits(a: u64, b: u64) -> (r: bool)
    ensures
        r == equal(a, b),
{
    !is_nan_bits(a) && !is_nan_bits(b) && order_key_of(a) == order_key_of(b)
}

/// Facts about the pattern of positive zero.
pub proof fn lemma_zero()
    ensures
        !is_nan(zero()),
        is_finite(zero()),
        order_key(zero()) == 0,
{
    assert(((0u64 >> 52u64) & 0x7ffu64) == 0u64) by (bit_vector);
    assert((0u64 & 0x7fff_ffff_ffff_ffffu64) == 0u64) by (bit_vector);
    assert((0u64 >> 63u64) == 0u64) by (bit_vector);
}

/// A number held with the text that Rust's `Display` prints for it, which
/// is how rule names and messages show it.
#[derive(Debug)]
pub struct Binary64 {
    /// The IEEE 754 bit pattern.
    pub bits: u64,
    /// The decimal text of the number.
    pub shown: String,
}

impl Binary64 {
    /// A copy of this number.
    pub fn duplicate(&self) -> (r: Binary64)
        ensures
            r.bits == self.bits,
            r.shown@ == self.shown@,
    {
        Binary64 { bits: self.bits, shown: self.shown.clone() }
    }
}

} // verus!
