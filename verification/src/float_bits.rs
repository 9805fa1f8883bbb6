//! Total order keys for IEEE 754 bit patterns.
//!
//! Float payloads are carried as raw bit patterns (`u32` for 32-bit floats,
//! `u64` for 64-bit floats) so that every comparison is integer arithmetic.
//! `f32_key` / `f64_key` map a bit pattern to an unsigned key whose natural
//! order is the value order required here: negative values below positive
//! ones in numeric order, and every NaN above everything else (NaN is the
//! maximum; all NaNs share the single greatest key).

use vstd::prelude::*;

verus! {

/// The bit pattern encodes a 32-bit NaN: exponent all ones, mantissa nonzero.
pub open spec fn f32_is_nan(bits: u32) -> bool {
    (bits >> 23) & 0xff == 0xff && (bits & 0x7f_ffff) != 0
}

/// The bit pattern encodes a 64-bit NaN.
pub open spec fn f64_is_nan(bits: u64) -> bool {
    (bits >> 52) & 0x7ff == 0x7ff && (bits & 0xf_ffff_ffff_ffff) != 0
}

/// Monotone key for 32-bit float bit patterns: NaN maps to the maximum key;
/// otherwise the sign bit is flipped for non-negative patterns and all bits
/// are flipped for negative ones, which sorts negatives below positives in
/// numeric order.
pub open spec fn f32_key(bits: u32) -> u32 {
    if f32_is_nan(bits) {
        u32::MAX
    } else if bits >> 31 == 1 {
        !bits
    } else {
        bits ^ 0x8000_0000
    }
}

/// Monotone key for 64-bit float bit patterns.
pub open spec fn f64_key(bits: u64) -> u64 {
    if f64_is_nan(bits) {
        u64::MAX
    } else if bits >> 63 == 1 {
        !bits
    } else {
        bits ^ 0x8000_0000_0000_0000
    }
}

/// Executable NaN test for 32-bit patterns.
pub fn f32_bits_is_nan(bits: u32) -> (r: bool)
    ensures
        r == f32_is_nan(bits),
{
    (bits >> 23) & 0xff == 0xff && (bits & 0x7f_ffff) != 0
}

/// Executable NaN test for 64-bit patterns.
pub fn f64_bits_is_nan(bits: u64) -> (r: bool)
    ensures
        r == f64_is_nan(bits),
{
    (bits >> 52) & 0x7ff == 0x7ff && (bits & 0xf_ffff_ffff_ffff) != 0
}

/// Executable order key for 32-bit patterns.
pub fn f32_order_key(bits: u32) -> (r: u32)
    ensures
        r == f32_key(bits),
{
    if f32_bits_is_nan(bits) {
        u32::MAX
    } else if bits >> 31 == 1 {
        !bits
    } else {
        bits ^ 0x8000_0000
    }
}

/// Executable order key for 64-bit patterns.
pub fn f64_order_key(bits: u64) -> (r: u64)
    ensures
        r == f64_key(bits),
{
    if f64_bits_is_nan(bits) {
        u64::MAX
    } else if bits >> 63 == 1 {
        !bits
    } else {
        bits ^ 0x8000_0000_0000_0000
    }
}

/// Only NaN patterns reach the maximum 32-bit key, so NaN is strictly above
/// every other value.
pub proof fn lemma_f32_key_nan_strict(bits: u32)
    ensures
        f32_is_nan(bits) == (f32_key(bits) == u32::MAX),
{
    assert(((bits >> 23) & 0xff == 0xff && (bits & 0x7f_ffff) != 0) || (if bits >> 31 == 1 {
        !bits
    } else {
        bits ^ 0x8000_0000
    }) != 0xffff_ffffu32) by (bit_vector);
}

/// Only NaN patterns reach the maximum 64-bit key.
pub proof fn lemma_f64_key_nan_strict(bits: u64)
    ensures
        f64_is_nan(bits) == (f64_key(bits) == u64::MAX),
{
    assert(((bits >> 52) & 0x7ff == 0x7ff && (bits & 0xf_ffff_ffff_ffff) != 0) || (if bits >> 63
        == 1 {
        !bits
    } else {
        bits ^ 0x8000_0000_0000_0000
    }) != 0xffff_ffff_ffff_ffffu64) by (bit_vector);
}

/// Distinct non-NaN 32-bit patterns have distinct keys.
pub proof fn lemma_f32_key_injective(x: u32, y: u32)
    requires
        !f32_is_nan(x),
        !f32_is_nan(y),
        f32_key(x) == f32_key(y),
    ensures
        x == y,
{
    assert((((x >> 23) & 0xff != 0xff || (x & 0x7f_ffff) == 0) && ((y >> 23) & 0xff != 0xff || (y
        & 0x7f_ffff) == 0) && ((if x >> 31 == 1 {
        !x
    } else {
        x ^ 0x8000_0000
    }) == (if y >> 31 == 1 {
        !y
    } else {
        y ^ 0x8000_0000
    }))) ==> x == y) by (bit_vector);
}

/// Distinct non-NaN 64-bit patterns have distinct keys.
pub proof fn lemma_f64_key_injective(x: u64, y: u64)
    requires
        !f64_is_nan(x),
        !f64_is_nan(y),
        f64_key(x) == f64_key(y),
    ensures
        x == y,
{
    assert((((x >> 52) & 0x7ff != 0x7ff || (x & 0xf_ffff_ffff_ffff) == 0) && ((y >> 52) & 0x7ff
        != 0x7ff || (y & 0xf_ffff_ffff_ffff) == 0) && ((if x >> 63 == 1 {
        !x
    } else {
        x ^ 0x8000_0000_0000_0000
    }) == (if y >> 63 == 1 {
        !y
    } else {
        y ^ 0x8000_0000_0000_0000
    }))) ==> x == y) by (bit_vector);
}

} // verus!
