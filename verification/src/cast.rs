//! Lossless widening of values into the resolved common type.
//!
//! Integer-to-integer widenings are value-preserving casts. Integer-to-float
//! conversions build the IEEE 754 bit pattern directly in integer
//! arithmetic: the magnitude is normalized to `prec` significant bits
//! (53 for 64-bit floats, 24 for 32-bit floats), rounding to nearest with
//! ties to even, exactly as the widening policy prescribes. A 32-bit float
//! pattern widens to the 64-bit pattern exactly, including signed zeros,
//! subnormals, infinities and NaN payloads. Conversion never invents or
//! drops an absent value: `Null` converts to `Null`.

use vstd::prelude::*;

use crate::tags::{spec_coerces_to, TypeTag};
use crate::values::{
    all_have_type, clone_bytes, clone_list, has_type, lemma_vals_of, vals_of,
    TypedValue, Val,
};
use vstd::arithmetic::div_mod::{
    lemma_div_by_multiple, lemma_div_is_ordered, lemma_fundamental_div_mod,
    lemma_multiply_divide_lt,
};
use vstd::arithmetic::mul::{lemma_mul_inequality, lemma_mul_strict_inequality};
use vstd::arithmetic::power2::{
    lemma2_to64, lemma2_to64_rest, lemma_pow2_adds, lemma_pow2_pos, lemma_pow2_strictly_increases,
    pow2,
};

verus! {

/// Position of the highest set bit: the floor of the base-2 logarithm.
pub open spec fn floor_log2(m: nat) -> nat
    decreases m,
{
    if m < 2 {
        0
    } else {
        1 + floor_log2(m / 2)
    }
}

/// The defining bounds of `floor_log2`.
pub proof fn lemma_floor_log2_bounds(m: nat)
    requires
        m >= 1,
    ensures
        pow2(floor_log2(m)) <= m < pow2(floor_log2(m) + 1),
    decreases m,
{
    lemma2_to64();
    if m >= 2 {
        lemma_floor_log2_bounds(m / 2);
        lemma_fundamental_div_mod(m as int, 2);
        let f = floor_log2(m / 2);
        lemma_pow2_adds(f, 1);
        lemma_pow2_adds(f + 1, 1);
    }
}

/// Exponent and mantissa fields of the float encoding of magnitude `m`,
/// with `prec` significant bits (hidden bit included) and exponent bias
/// `bias`: the magnitude is normalized and rounded to nearest, ties to
/// even. Meaningful for `m >= 1` and `floor_log2(m) + bias` within the
/// exponent range of the format.
pub open spec fn float_fields_of_mag(m: nat, prec: nat, bias: nat) -> int
    recommends
        m >= 1,
        prec >= 2,
{
    let e = floor_log2(m);
    if e < prec {
        (e + bias) * pow2((prec - 1) as nat) + (m * pow2((prec - 1 - e) as nat) - pow2(
            (prec - 1) as nat,
        ))
    } else {
        let shift = (e - (prec - 1)) as nat;
        let q = m / pow2(shift);
        let rem = m % pow2(shift);
        let half = pow2((shift - 1) as nat);
        let q2: nat = if rem > half || (rem == half && q % 2 == 1) {
            q + 1
        } else {
            q
        };
        if q2 == pow2(prec) {
            ((e + 1 + bias) * pow2((prec - 1) as nat)) as int
        } else {
            (e + bias) * pow2((prec - 1) as nat) + (q2 - pow2((prec - 1) as nat))
        }
    }
}

/// The 64-bit float pattern of a sign and an integer magnitude.
pub open spec fn f64_bits_of_sign_mag(neg: bool, m: nat) -> u64
    recommends
        m < pow2(64),
{
    if m == 0 {
        0
    } else {
        (((if neg {
            pow2(63) as int
        } else {
            0
        })) + float_fields_of_mag(m, 53, 1023)) as u64
    }
}

/// The 32-bit float pattern of a sign and an integer magnitude.
pub open spec fn f32_bits_of_sign_mag(neg: bool, m: nat) -> u32
    recommends
        m < pow2(64),
{
    if m == 0 {
        0
    } else {
        (((if neg {
            pow2(31) as int
        } else {
            0
        })) + float_fields_of_mag(m, 24, 127)) as u32
    }
}

/// The 64-bit float pattern nearest to the integer `i`, ties to even.
pub open spec fn f64_bits_of_int(i: int) -> u64
    recommends
        -pow2(64) < i < pow2(64),
{
    if i >= 0 {
        f64_bits_of_sign_mag(false, i as nat)
    } else {
        f64_bits_of_sign_mag(true, (-i) as nat)
    }
}

/// The 32-bit float pattern nearest to the integer `i`, ties to even.
pub open spec fn f32_bits_of_int(i: int) -> u32
    recommends
        -pow2(64) < i < pow2(64),
{
    if i >= 0 {
        f32_bits_of_sign_mag(false, i as nat)
    } else {
        f32_bits_of_sign_mag(true, (-i) as nat)
    }
}

/// Executable power of two.
pub fn pow2_u64(k: u64) -> (r: u64)
    requires
        k <= 63,
    ensures
        r as nat == pow2(k as nat),
{
    proof {
        lemma2_to64();
        lemma2_to64_rest();
    }
    let mut r: u64 = 1;
    let mut i: u64 = 0;
    while i < k
        invariant
            i <= k,
            k <= 63,
            r as nat == pow2(i as nat),
        decreases k - i,
    {
        proof {
            lemma_pow2_adds(i as nat, 1);
            lemma2_to64();
            if i + 1 < 64 {
                lemma_pow2_strictly_increases((i + 1) as nat, 64);
            }
            lemma2_to64_rest();
        }
        r = r * 2;
        i = i + 1;
    }
    r
}

/// Executable floor of the base-2 logarithm.
pub fn floor_log2_u64(m: u64) -> (r: u64)
    requires
        m >= 1,
    ensures
        r == floor_log2(m as nat),
        r <= 63,
        pow2(r as nat) <= m as nat,
        (m as nat) < pow2((r + 1) as nat),
{
    proof {
        lemma_floor_log2_bounds(m as nat);
        lemma2_to64_rest();
        let f = floor_log2(m as nat);
        if f >= 64 {
            if f > 64 {
                lemma_pow2_strictly_increases(64, f);
            }
            assert(pow2(f) >= pow2(64));
            assert(false);
        }
    }
    let mut v: u64 = m;
    let mut e: u64 = 0;
    while v >= 2
        invariant
            v >= 1,
            floor_log2(m as nat) == e + floor_log2(v as nat),
            floor_log2(m as nat) <= 63,
        decreases v,
    {
        v = v / 2;
        e = e + 1;
    }
    e
}

/// Build the 64-bit float pattern of a sign and magnitude.
pub fn f64_encode(neg: bool, m: u64) -> (r: u64)
    ensures
        r == f64_bits_of_sign_mag(neg, m as nat),
{
    proof {
        lemma2_to64();
        lemma2_to64_rest();
    }
    if m == 0 {
        return 0;
    }
    let e = floor_log2_u64(m);
    let sign: u64 = if neg {
        0x8000_0000_0000_0000
    } else {
        0
    };
    if e < 53 {
        let scale = pow2_u64(52 - e);
        proof {
            lemma_pow2_adds((e + 1) as nat, (52 - e) as nat);
            lemma_pow2_adds(e as nat, (52 - e) as nat);
            lemma_pow2_pos((52 - e) as nat);
            lemma_mul_strict_inequality(
                m as int,
                pow2((e + 1) as nat) as int,
                pow2((52 - e) as nat) as int,
            );
            lemma_mul_inequality(
                pow2(e as nat) as int,
                m as int,
                pow2((52 - e) as nat) as int,
            );
        }
        let sig = m * scale;
        let mant = sig - 0x10_0000_0000_0000;
        let expf = (e + 1023) * 0x10_0000_0000_0000;
        proof {
            lemma_mul_inequality((e + 1023) as int, 1087, 0x10_0000_0000_0000);
        }
        sign + expf + mant
    } else {
        let shift = e - 52;
        let pw = pow2_u64(shift);
        let q = m / pw;
        let rem = m % pw;
        let half = pow2_u64(shift - 1);
        proof {
            lemma_pow2_adds(53, shift as nat);
            lemma_pow2_adds(shift as nat, 53);
            lemma_pow2_adds(52, shift as nat);
            lemma_pow2_pos(shift as nat);
            lemma_multiply_divide_lt(m as int, pow2(shift as nat) as int, pow2(53) as int);
            lemma_div_by_multiple(pow2(52) as int, pow2(shift as nat) as int);
            lemma_div_is_ordered(pow2(e as nat) as int, m as int, pow2(shift as nat) as int);
        }
        let q2 = if rem > half || (rem == half && q % 2 == 1) {
            q + 1
        } else {
            q
        };
        if q2 == 0x20_0000_0000_0000 {
            let expf = (e + 1024) * 0x10_0000_0000_0000;
            proof {
                lemma_mul_inequality((e + 1024) as int, 1088, 0x10_0000_0000_0000);
            }
            sign + expf
        } else {
            let mant = q2 - 0x10_0000_0000_0000;
            let expf = (e + 1023) * 0x10_0000_0000_0000;
            proof {
                lemma_mul_inequality((e + 1023) as int, 1087, 0x10_0000_0000_0000);
            }
            sign + expf + mant
        }
    }
}

/// Build the 32-bit float pattern of a sign and magnitude.
pub fn f32_encode(neg: bool, m: u64) -> (r: u32)
    ensures
        r == f32_bits_of_sign_mag(neg, m as nat),
{
    proof {
        lemma2_to64();
        lemma2_to64_rest();
    }
    if m == 0 {
        return 0;
    }
    let e = floor_log2_u64(m);
    let sign: u32 = if neg {
        0x8000_0000
    } else {
        0
    };
    if e < 24 {
        let scale = pow2_u64(23 - e);
        proof {
            lemma_pow2_adds((e + 1) as nat, (23 - e) as nat);
            lemma_pow2_adds(e as nat, (23 - e) as nat);
            lemma_pow2_pos((23 - e) as nat);
            lemma_mul_strict_inequality(
                m as int,
                pow2((e + 1) as nat) as int,
                pow2((23 - e) as nat) as int,
            );
            lemma_mul_inequality(
                pow2(e as nat) as int,
                m as int,
                pow2((23 - e) as nat) as int,
            );
        }
        let sig = m * scale;
        let mant = (sig - 0x80_0000) as u32;
        let expf = ((e as u32) + 127) * 0x80_0000;
        sign + expf + mant
    } else {
        let shift = e - 23;
        let pw = pow2_u64(shift);
        let q = m / pw;
        let rem = m % pw;
        let half = pow2_u64(shift - 1);
        proof {
            lemma_pow2_adds(24, shift as nat);
            lemma_pow2_adds(shift as nat, 24);
            lemma_pow2_adds(23, shift as nat);
            lemma_pow2_pos(shift as nat);
            lemma_multiply_divide_lt(m as int, pow2(shift as nat) as int, pow2(24) as int);
            lemma_div_by_multiple(pow2(23) as int, pow2(shift as nat) as int);
            lemma_div_is_ordered(pow2(e as nat) as int, m as int, pow2(shift as nat) as int);
        }
        let q2 = if rem > half || (rem == half && q % 2 == 1) {
            q + 1
        } else {
            q
        };
        if q2 == 0x100_0000 {
            let expf = ((e as u32) + 128) * 0x80_0000;
            sign + expf
        } else {
            let mant = (q2 - 0x80_0000) as u32;
            let expf = ((e as u32) + 127) * 0x80_0000;
            sign + expf + mant
        }
    }
}


/// The 64-bit float pattern with the same value as the 32-bit pattern `b`:
/// the widening is exact for every input, subnormals and NaN included.
pub open spec fn f64_bits_of_f32_bits(b: u32) -> u64 {
    let sign: int = if b >> 31 == 1 {
        pow2(63) as int
    } else {
        0
    };
    let ef = ((b >> 23) & 0xff) as nat;
    let mf = (b & 0x7f_ffff) as nat;
    if ef == 0xff {
        (sign + 0x7ff * pow2(52) + mf * pow2(29)) as u64
    } else if ef == 0 {
        if mf == 0 {
            sign as u64
        } else {
            let e = floor_log2(mf);
            (sign + (e + 874) * pow2(52) + (mf - pow2(e)) * pow2((52 - e) as nat)) as u64
        }
    } else {
        (sign + (ef + 896) * pow2(52) + mf * pow2(29)) as u64
    }
}

/// Widen a 32-bit float pattern to the 64-bit pattern of the same value.
pub fn f32_to_f64_bits(b: u32) -> (r: u64)
    ensures
        r == f64_bits_of_f32_bits(b),
{
    proof {
        lemma2_to64();
        lemma2_to64_rest();
        assert(((b >> 23) & 0xff) < 0x100) by (bit_vector);
        assert((b & 0x7f_ffff) < 0x80_0000) by (bit_vector);
    }
    let sign: u64 = if b >> 31 == 1 {
        0x8000_0000_0000_0000
    } else {
        0
    };
    let ef: u32 = (b >> 23) & 0xff;
    let mf: u32 = b & 0x7f_ffff;
    if ef == 0xff {
        sign + 0x7ff0_0000_0000_0000 + (mf as u64) * 0x2000_0000
    } else if ef == 0 {
        if mf == 0 {
            sign
        } else {
            let e = floor_log2_u64(mf as u64);
            proof {
                if e >= 23 {
                    if e > 23 {
                        lemma_pow2_strictly_increases(23, e as nat);
                    }
                    assert(false);
                }
                lemma_pow2_adds(e as nat, (52 - e) as nat);
                lemma_pow2_adds(e as nat, 1);
                lemma_pow2_pos((52 - e) as nat);
                lemma_mul_strict_inequality(
                    mf as int - pow2(e as nat),
                    pow2(e as nat) as int,
                    pow2((52 - e) as nat) as int,
                );
            }
            let scale = pow2_u64(52 - e);
            let p = pow2_u64(e);
            let frac = (mf as u64) - p;
            let mant = frac * scale;
            sign + (e + 874) * 0x10_0000_0000_0000 + mant
        }
    } else {
        sign + ((ef as u64) + 896) * 0x10_0000_0000_0000 + (mf as u64) * 0x2000_0000
    }
}


/// The integer-target conversions of an integer value `i`; `None` when `t`
/// is not a numeric tag (the value is then kept unchanged).
pub open spec fn int_val_of(t: TypeTag, i: int) -> Option<Val> {
    match t {
        TypeTag::Int8 => Some(Val::Int8(i as i8)),
        TypeTag::Int16 => Some(Val::Int16(i as i16)),
        TypeTag::Int32 => Some(Val::Int32(i as i32)),
        TypeTag::Int64 => Some(Val::Int64(i as i64)),
        TypeTag::UInt8 => Some(Val::UInt8(i as u8)),
        TypeTag::UInt16 => Some(Val::UInt16(i as u16)),
        TypeTag::UInt32 => Some(Val::UInt32(i as u32)),
        TypeTag::UInt64 => Some(Val::UInt64(i as u64)),
        TypeTag::Float32 => Some(Val::Float32(f32_bits_of_int(i))),
        TypeTag::Float64 => Some(Val::Float64(f64_bits_of_int(i))),
        _ => None,
    }
}

/// The value `v` expressed at type `t`. Defined for every pair; when `v`
/// cannot coerce to `t` the value is returned unchanged (callers only
/// convert along the coercion relation).
pub open spec fn spec_convert(v: Val, t: TypeTag) -> Val
    decreases v,
{
    match v {
        Val::Null => Val::Null,
        Val::Boolean(_) => v,
        Val::Int8(x) => match int_val_of(t, x as int) {
            Some(w) => w,
            None => v,
        },
        Val::Int16(x) => match int_val_of(t, x as int) {
            Some(w) => w,
            None => v,
        },
        Val::Int32(x) => match int_val_of(t, x as int) {
            Some(w) => w,
            None => v,
        },
        Val::Int64(x) => match int_val_of(t, x as int) {
            Some(w) => w,
            None => v,
        },
        Val::UInt8(x) => match int_val_of(t, x as int) {
            Some(w) => w,
            None => v,
        },
        Val::UInt16(x) => match int_val_of(t, x as int) {
            Some(w) => w,
            None => v,
        },
        Val::UInt32(x) => match int_val_of(t, x as int) {
            Some(w) => w,
            None => v,
        },
        Val::UInt64(x) => match int_val_of(t, x as int) {
            Some(w) => w,
            None => v,
        },
        Val::Float32(b) => if t == TypeTag::Float64 {
            Val::Float64(f64_bits_of_f32_bits(b))
        } else {
            v
        },
        Val::Float64(_) => v,
        Val::Utf8(_) => v,
        Val::Binary(_) => v,
        Val::List(elems) => match t {
            TypeTag::List(et) => Val::List(spec_convert_seq(elems, *et)),
            _ => v,
        },
    }
}

/// Elementwise conversion of a list payload.
pub open spec fn spec_convert_seq(s: Seq<Val>, et: TypeTag) -> Seq<Val>
    decreases s,
{
    if s.len() == 0 {
        Seq::empty()
    } else {
        spec_convert_seq(s.drop_last(), et).push(spec_convert(s.last(), et))
    }
}

/// `spec_convert_seq` maps `spec_convert` over the sequence.
pub proof fn lemma_spec_convert_seq(s: Seq<Val>, et: TypeTag)
    ensures
        spec_convert_seq(s, et).len() == s.len(),
        forall|i: int|
            0 <= i < s.len() ==> spec_convert_seq(s, et)[i] == spec_convert(#[trigger] s[i], et),
    decreases s.len(),
{
    if s.len() > 0 {
        lemma_spec_convert_seq(s.drop_last(), et);
        assert forall|i: int|
            0 <= i < s.len() implies spec_convert_seq(s, et)[i] == spec_convert(
            #[trigger] s[i],
            et,
        ) by {
            if i < s.len() - 1 {
                assert(s.drop_last()[i] == s[i]);
            } else {
                assert(s[i] == s.last());
            }
        }
    }
}

/// Conversion along the coercion relation lands in the target type.
pub proof fn lemma_convert_has_type(v: Val, s: TypeTag, t: TypeTag)
    requires
        has_type(v, s),
        spec_coerces_to(s, t),
    ensures
        has_type(spec_convert(v, t), t),
    decreases v,
{
    match v {
        Val::List(elems) => {
            match (s, t) {
                (TypeTag::List(es), TypeTag::List(et)) => {
                    lemma_convert_seq_has_type(elems, *es, *et);
                },
                _ => {},
            }
        },
        _ => {},
    }
}

/// Elementwise conversion along the coercion relation lands in the target
/// element type.
pub proof fn lemma_convert_seq_has_type(s: Seq<Val>, es: TypeTag, et: TypeTag)
    requires
        all_have_type(s, es),
        spec_coerces_to(es, et),
    ensures
        all_have_type(spec_convert_seq(s, et), et),
    decreases s,
{
    if s.len() > 0 {
        lemma_convert_seq_has_type(s.drop_last(), es, et);
        lemma_convert_has_type(s.last(), es, et);
        let c = spec_convert_seq(s, et);
        assert(c.drop_last() =~= spec_convert_seq(s.drop_last(), et));
        assert(c.last() == spec_convert(s.last(), et));
    }
}

/// Convert a signed integer value to a numeric target tag.
fn convert_signed(x: i64, t: &TypeTag) -> (r: Option<TypedValue>)
    ensures
        (r is Some) == (int_val_of(*t, x as int) is Some),
        r matches Some(rv) ==> rv@ == int_val_of(*t, x as int)->0,
{
    match t {
        TypeTag::Int8 => Some(TypedValue::Int8(x as i8)),
        TypeTag::Int16 => Some(TypedValue::Int16(x as i16)),
        TypeTag::Int32 => Some(TypedValue::Int32(x as i32)),
        TypeTag::Int64 => Some(TypedValue::Int64(x)),
        TypeTag::UInt8 => Some(TypedValue::UInt8(x as u8)),
        TypeTag::UInt16 => Some(TypedValue::UInt16(x as u16)),
        TypeTag::UInt32 => Some(TypedValue::UInt32(x as u32)),
        TypeTag::UInt64 => Some(TypedValue::UInt64(x as u64)),
        TypeTag::Float32 => Some(TypedValue::Float32 { bits: i64_to_f32_bits(x) }),
        TypeTag::Float64 => Some(TypedValue::Float64 { bits: i64_to_f64_bits(x) }),
        _ => None,
    }
}

/// Convert an unsigned integer value to a numeric target tag.
fn convert_unsigned(x: u64, t: &TypeTag) -> (r: Option<TypedValue>)
    ensures
        (r is Some) == (int_val_of(*t, x as int) is Some),
        r matches Some(rv) ==> rv@ == int_val_of(*t, x as int)->0,
{
    match t {
        TypeTag::Int8 => Some(TypedValue::Int8(x as i8)),
        TypeTag::Int16 => Some(TypedValue::Int16(x as i16)),
        TypeTag::Int32 => Some(TypedValue::Int32(x as i32)),
        TypeTag::Int64 => Some(TypedValue::Int64(x as i64)),
        TypeTag::UInt8 => Some(TypedValue::UInt8(x as u8)),
        TypeTag::UInt16 => Some(TypedValue::UInt16(x as u16)),
        TypeTag::UInt32 => Some(TypedValue::UInt32(x as u32)),
        TypeTag::UInt64 => Some(TypedValue::UInt64(x)),
        TypeTag::Float32 => Some(TypedValue::Float32 { bits: f32_encode(false, x) }),
        TypeTag::Float64 => Some(TypedValue::Float64 { bits: f64_encode(false, x) }),
        _ => None,
    }
}

/// The 64-bit float pattern nearest to a signed integer.
pub fn i64_to_f64_bits(x: i64) -> (r: u64)
    ensures
        r == f64_bits_of_int(x as int),
{
    if x >= 0 {
        f64_encode(false, x as u64)
    } else if x == i64::MIN {
        f64_encode(true, 0x8000_0000_0000_0000)
    } else {
        f64_encode(true, (-x) as u64)
    }
}

/// The 32-bit float pattern nearest to a signed integer.
pub fn i64_to_f32_bits(x: i64) -> (r: u32)
    ensures
        r == f32_bits_of_int(x as int),
{
    if x >= 0 {
        f32_encode(false, x as u64)
    } else if x == i64::MIN {
        f32_encode(true, 0x8000_0000_0000_0000)
    } else {
        f32_encode(true, (-x) as u64)
    }
}

/// The value `v` expressed at type `t`.
pub fn convert_value(v: &TypedValue, t: &TypeTag) -> (r: TypedValue)
    ensures
        r@ == spec_convert(v@, *t),
    decreases v,
{
    match v {
        TypedValue::Null => TypedValue::Null,
        TypedValue::Boolean(x) => TypedValue::Boolean(*x),
        TypedValue::Int8(x) => match convert_signed(*x as i64, t) {
            Some(w) => w,
            None => TypedValue::Int8(*x),
        },
        TypedValue::Int16(x) => match convert_signed(*x as i64, t) {
            Some(w) => w,
            None => TypedValue::Int16(*x),
        },
        TypedValue::Int32(x) => match convert_signed(*x as i64, t) {
            Some(w) => w,
            None => TypedValue::Int32(*x),
        },
        TypedValue::Int64(x) => match convert_signed(*x, t) {
            Some(w) => w,
            None => TypedValue::Int64(*x),
        },
        TypedValue::UInt8(x) => match convert_unsigned(*x as u64, t) {
            Some(w) => w,
            None => TypedValue::UInt8(*x),
        },
        TypedValue::UInt16(x) => match convert_unsigned(*x as u64, t) {
            Some(w) => w,
            None => TypedValue::UInt16(*x),
        },
        TypedValue::UInt32(x) => match convert_unsigned(*x as u64, t) {
            Some(w) => w,
            None => TypedValue::UInt32(*x),
        },
        TypedValue::UInt64(x) => match convert_unsigned(*x, t) {
            Some(w) => w,
            None => TypedValue::UInt64(*x),
        },
        TypedValue::Float32 { bits } => {
            if matches!(t, TypeTag::Float64) {
                TypedValue::Float64 { bits: f32_to_f64_bits(*bits) }
            } else {
                TypedValue::Float32 { bits: *bits }
            }
        },
        TypedValue::Float64 { bits } => TypedValue::Float64 { bits: *bits },
        TypedValue::Utf8(s) => TypedValue::Utf8(s.clone()),
        TypedValue::Binary(b) => TypedValue::Binary(clone_bytes(b)),
        TypedValue::List(elems) => match t {
            TypeTag::List(et) => TypedValue::List(convert_list(elems, et)),
            _ => TypedValue::List(clone_list(elems)),
        },
    }
}

/// Elementwise conversion of a list payload.
pub fn convert_list(elems: &Vec<TypedValue>, et: &TypeTag) -> (r: Vec<TypedValue>)
    ensures
        vals_of(r@) == spec_convert_seq(vals_of(elems@), *et),
    decreases elems,
{
    let mut out: Vec<TypedValue> = Vec::new();
    let mut i: usize = 0;
    while i < elems.len()
        invariant
            i <= elems.len(),
            out@.len() == i,
            forall|j: int| 0 <= j < i ==> (#[trigger] out@[j])@ == spec_convert(elems@[j]@, *et),
        decreases elems.len() - i,
    {
        proof {
            assert(decreases_to!(elems@ => elems@[i as int]));
        }
        let c = convert_value(&elems[i], et);
        out.push(c);
        i = i + 1;
    }
    proof {
        lemma_vals_of(out@);
        lemma_vals_of(elems@);
        lemma_spec_convert_seq(vals_of(elems@), *et);
        assert forall|j: int|
            0 <= j < elems@.len() implies vals_of(out@)[j] == spec_convert_seq(
            vals_of(elems@),
            *et,
        )[j] by {
            assert(vals_of(out@)[j] == out@[j]@);
            assert(vals_of(elems@)[j] == elems@[j]@);
        }
        assert(vals_of(out@) =~= spec_convert_seq(vals_of(elems@), *et));
    }
    out
}

} // verus!
