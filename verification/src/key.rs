//! Order keys for IEEE-754 doubles.
//!
//! The library never computes with floating-point numbers. A plotted number
//! is carried by the `u64` *order key* of its bit pattern, which keeps every
//! bit of it. Keys are compared as the numbers are: NaN compares with
//! nothing, `-0.0` and `+0.0` are equal, and otherwise the order of the keys
//! is the order of the numbers.
use vstd::prelude::*;

verus! {

/// The sign bit of a double's bit pattern.
pub const SIGN_BIT: u64 = 0x8000_0000_0000_0000;

/// The largest magnitude of a bit pattern that is not NaN (that of infinity).
pub const INFINITY_BITS: u64 = 0x7FF0_0000_0000_0000;

/// The order key of `+0.0`.
pub const ZERO_KEY: u64 = 0x8000_0000_0000_0000;

/// The order key of `-0.0`.
pub const NEGATIVE_ZERO_KEY: u64 = 0x7FFF_FFFF_FFFF_FFFF;

/// Whether a bit pattern has its sign bit set.
pub open spec fn is_negative(bits: u64) -> bool {
    bits & SIGN_BIT != 0
}

/// The bit pattern without its sign bit.
pub open spec fn magnitude(bits: u64) -> u64 {
    bits & !SIGN_BIT
}

/// Whether a bit pattern is a NaN: all exponent bits set and a fraction.
pub open spec fn is_nan_bits(bits: u64) -> bool {
    magnitude(bits) > INFINITY_BITS
}

/// Whether two bit patterns stand for equal numbers (neither a NaN): equal
/// patterns, or the two zeros.
pub open spec fn same_number(a: u64, b: u64) -> bool {
    &&& !is_nan_bits(a)
    &&& !is_nan_bits(b)
    &&& a == b || (magnitude(a) == 0 && magnitude(b) == 0)
}

/// The order of doubles on their bit patterns: a sign and a magnitude, the
/// two zeros equal, every negative number below every positive one, a
/// larger magnitude further from zero, and a NaN below or above nothing.
pub open spec fn number_lt(a: u64, b: u64) -> bool {
    if is_nan_bits(a) || is_nan_bits(b) {
        false
    } else if magnitude(a) == 0 && magnitude(b) == 0 {
        false
    } else if !is_negative(a) && !is_negative(b) {
        magnitude(a) < magnitude(b)
    } else if is_negative(a) && is_negative(b) {
        magnitude(b) < magnitude(a)
    } else {
        is_negative(a)
    }
}

/// The order key of a bit pattern.
pub open spec fn spec_order_key(bits: u64) -> u64 {
    if bits & SIGN_BIT != 0 {
        !bits
    } else {
        bits | SIGN_BIT
    }
}

/// The bit pattern that a key stands for.
pub open spec fn spec_key_bits(key: u64) -> u64 {
    if key & SIGN_BIT != 0 {
        key & !SIGN_BIT
    } else {
        !key
    }
}

/// Whether a key stands for a NaN.
pub open spec fn is_nan_key(key: u64) -> bool {
    key > 0xFFF0_0000_0000_0000 || key < 0x000F_FFFF_FFFF_FFFF
}

/// Whether a key stands for one of the two zeros.
pub open spec fn is_zero_key(key: u64) -> bool {
    key == ZERO_KEY || key == NEGATIVE_ZERO_KEY
}

/// The numbers of two keys are equal.
pub open spec fn key_eq(a: u64, b: u64) -> bool {
    &&& !is_nan_key(a)
    &&& !is_nan_key(b)
    &&& a == b || (is_zero_key(a) && is_zero_key(b))
}

/// The number of `a` is below that of `b`.
pub open spec fn key_lt(a: u64, b: u64) -> bool {
    &&& !is_nan_key(a)
    &&& !is_nan_key(b)
    &&& a < b
    &&& !(is_zero_key(a) && is_zero_key(b))
}

/// The number of `a` is at most that of `b`.
pub open spec fn key_le(a: u64, b: u64) -> bool {
    &&& !is_nan_key(a)
    &&& !is_nan_key(b)
    &&& a <= b || (is_zero_key(a) && is_zero_key(b))
}

/// Computes the order key of the bit pattern of a double.
pub fn order_key(bits: u64) -> (key: u64)
    ensures
        key == spec_order_key(bits),
{
    if bits & SIGN_BIT != 0 {
        !bits
    } else {
        bits | SIGN_BIT
    }
}

/// Computes the bit pattern that an order key stands for.
pub fn key_bits(key: u64) -> (bits: u64)
    ensures
        bits == spec_key_bits(key),
{
    if key & SIGN_BIT != 0 {
        key & !SIGN_BIT
    } else {
        !key
    }
}

/// Whether a key stands for a NaN.
pub fn key_is_nan(key: u64) -> (r: bool)
    ensures
        r == is_nan_key(key),
{
    key > 0xFFF0_0000_0000_0000 || key < 0x000F_FFFF_FFFF_FFFF
}

/// Whether a key stands for one of the two zeros.
pub fn key_is_zero(key: u64) -> (r: bool)
    ensures
        r == is_zero_key(key),
{
    key == ZERO_KEY || key == NEGATIVE_ZERO_KEY
}

/// Compares two keys as numbers: `a == b`.
pub fn is_key_eq(a: u64, b: u64) -> (r: bool)
    ensures
        r == key_eq(a, b),
{
    !key_is_nan(a) && !key_is_nan(b) && (a == b || (key_is_zero(a) && key_is_zero(b)))
}

/// Compares two keys as numbers: `a < b`.
pub fn is_key_lt(a: u64, b: u64) -> (r: bool)
    ensures
        r == key_lt(a, b),
{
    !key_is_nan(a) && !key_is_nan(b) && a < b && !(key_is_zero(a) && key_is_zero(b))
}

/// Compares two keys as numbers: `a <= b`.
pub fn is_key_le(a: u64, b: u64) -> (r: bool)
    ensures
        r == key_le(a, b),
{
    !key_is_nan(a) && !key_is_nan(b) && (a <= b || (key_is_zero(a) && key_is_zero(b)))
}

/// Keys compare as the numbers do: a key stands for a NaN exactly when its
/// pattern is one; it is below another exactly when its number is below the
/// other's; and two keys are equal as numbers exactly when their patterns
/// stand for the same number.
pub proof fn lemma_order_key_preserves_order(a: u64, b: u64)
    ensures
        is_nan_key(spec_order_key(a)) <==> is_nan_bits(a),
        key_lt(spec_order_key(a), spec_order_key(b)) <==> number_lt(a, b),
        key_eq(spec_order_key(a), spec_order_key(b)) <==> same_number(a, b),
        key_le(spec_order_key(a), spec_order_key(b)) <==> (number_lt(a, b) || same_number(a, b)),
{
    assert(is_nan_key(spec_order_key(a)) <==> is_nan_bits(a)) by (bit_vector);
    assert(key_lt(spec_order_key(a), spec_order_key(b)) <==> number_lt(a, b)) by (bit_vector);
    assert(key_eq(spec_order_key(a), spec_order_key(b)) <==> same_number(a, b)) by (bit_vector);
    assert(key_le(spec_order_key(a), spec_order_key(b)) <==> (number_lt(a, b) || same_number(a, b)))
        by (bit_vector);
}

/// Turning a bit pattern into its key and back gives the pattern again, and
/// turning a key into its pattern and back gives the key again.
pub proof fn lemma_key_bits_round_trip(bits: u64, key: u64)
    ensures
        spec_key_bits(spec_order_key(bits)) == bits,
        spec_order_key(spec_key_bits(key)) == key,
{
    assert(spec_key_bits(spec_order_key(bits)) == bits) by (bit_vector);
    assert(spec_order_key(spec_key_bits(key)) == key) by (bit_vector);
}

/// The zero keys stand for `+0.0` and `-0.0`.
pub proof fn lemma_zero_keys()
    ensures
        spec_order_key(0) == ZERO_KEY,
        spec_order_key(SIGN_BIT) == NEGATIVE_ZERO_KEY,
{
    assert(spec_order_key(0) == ZERO_KEY) by (bit_vector);
    assert(spec_order_key(SIGN_BIT) == NEGATIVE_ZERO_KEY) by (bit_vector);
}

} // verus!
