//! Typed values and their mathematical model.
//!
//! `TypedValue` is the executable tagged union over `TypeTag`. Its model
//! `Val` mirrors it at the specification level with `Seq`-based payloads, so
//! that contracts can state deep value equality. `Val::Null` stands for an
//! absent value of any type; a list element may itself be `Val::Null`, and a
//! null list (as opposed to an empty one) is `Val::Null` at the list
//! position. Float payloads are raw bit patterns.

use vstd::prelude::*;

use crate::tags::TypeTag;

verus! {

#[derive(Debug, PartialEq)]
#[allow(inconsistent_fields)]
pub enum TypedValue {
    Null,
    Boolean(bool),
    Int8(i8),
    Int16(i16),
    Int32(i32),
    Int64(i64),
    UInt8(u8),
    UInt16(u16),
    UInt32(u32),
    UInt64(u64),
    Float32 { bits: u32 },
    Float64 { bits: u64 },
    Utf8(String),
    Binary(Vec<u8>),
    List(Vec<TypedValue>),
}

/// Specification-level model of a `TypedValue`.
pub enum Val {
    Null,
    Boolean(bool),
    Int8(i8),
    Int16(i16),
    Int32(i32),
    Int64(i64),
    UInt8(u8),
    UInt16(u16),
    UInt32(u32),
    UInt64(u64),
    Float32(u32),
    Float64(u64),
    Utf8(Seq<char>),
    Binary(Seq<u8>),
    List(Seq<Val>),
}

/// Model of an executable value.
pub open spec fn val_of(v: TypedValue) -> Val
    decreases v,
{
    match v {
        TypedValue::Null => Val::Null,
        TypedValue::Boolean(b) => Val::Boolean(b),
        TypedValue::Int8(x) => Val::Int8(x),
        TypedValue::Int16(x) => Val::Int16(x),
        TypedValue::Int32(x) => Val::Int32(x),
        TypedValue::Int64(x) => Val::Int64(x),
        TypedValue::UInt8(x) => Val::UInt8(x),
        TypedValue::UInt16(x) => Val::UInt16(x),
        TypedValue::UInt32(x) => Val::UInt32(x),
        TypedValue::UInt64(x) => Val::UInt64(x),
        TypedValue::Float32 { bits } => Val::Float32(bits),
        TypedValue::Float64 { bits } => Val::Float64(bits),
        TypedValue::Utf8(s) => Val::Utf8(s@),
        TypedValue::Binary(b) => Val::Binary(b@),
        TypedValue::List(elems) => Val::List(vals_of(elems@)),
    }
}

/// Models of a sequence of executable values, elementwise.
pub open spec fn vals_of(s: Seq<TypedValue>) -> Seq<Val>
    decreases s,
{
    if s.len() == 0 {
        Seq::empty()
    } else {
        vals_of(s.drop_last()).push(val_of(s.last()))
    }
}

impl View for TypedValue {
    type V = Val;

    open spec fn view(&self) -> Val {
        val_of(*self)
    }
}

/// `vals_of` maps `val_of` over the sequence.
pub proof fn lemma_vals_of(s: Seq<TypedValue>)
    ensures
        vals_of(s).len() == s.len(),
        forall|i: int| 0 <= i < s.len() ==> vals_of(s)[i] == val_of(s[i]),
    decreases s.len(),
{
    if s.len() > 0 {
        lemma_vals_of(s.drop_last());
    }
}

/// The value is a well-formed inhabitant of type `t`; an absent value
/// inhabits every type.
pub open spec fn has_type(v: Val, t: TypeTag) -> bool
    decreases v,
{
    match v {
        Val::Null => true,
        Val::Boolean(_) => t == TypeTag::Boolean,
        Val::Int8(_) => t == TypeTag::Int8,
        Val::Int16(_) => t == TypeTag::Int16,
        Val::Int32(_) => t == TypeTag::Int32,
        Val::Int64(_) => t == TypeTag::Int64,
        Val::UInt8(_) => t == TypeTag::UInt8,
        Val::UInt16(_) => t == TypeTag::UInt16,
        Val::UInt32(_) => t == TypeTag::UInt32,
        Val::UInt64(_) => t == TypeTag::UInt64,
        Val::Float32(_) => t == TypeTag::Float32,
        Val::Float64(_) => t == TypeTag::Float64,
        Val::Utf8(_) => t == TypeTag::Utf8,
        Val::Binary(_) => t == TypeTag::Binary,
        Val::List(elems) => t matches TypeTag::List(et) && all_have_type(elems, *et),
    }
}

/// Every element of the sequence inhabits type `t`.
pub open spec fn all_have_type(s: Seq<Val>, t: TypeTag) -> bool
    decreases s,
{
    if s.len() == 0 {
        true
    } else {
        all_have_type(s.drop_last(), t) && has_type(s.last(), t)
    }
}

/// `all_have_type` holds exactly when each element has the type.
pub proof fn lemma_all_have_type(s: Seq<Val>, t: TypeTag)
    ensures
        all_have_type(s, t) == (forall|i: int| 0 <= i < s.len() ==> has_type(#[trigger] s[i], t)),
    decreases s.len(),
{
    if s.len() > 0 {
        lemma_all_have_type(s.drop_last(), t);
        if forall|i: int| 0 <= i < s.drop_last().len() ==> has_type(#[trigger] s.drop_last()[i], t) {
            assert forall|i: int| 0 <= i < s.len() && has_type(s.last(), t)
                && all_have_type(s.drop_last(), t) implies has_type(#[trigger] s[i], t) by {
                if i < s.len() - 1 {
                    assert(s.drop_last()[i] == s[i]);
                }
            }
        }
    }
}

/// The value contains no NaN bit pattern anywhere.
pub open spec fn nan_free(v: Val) -> bool
    decreases v,
{
    match v {
        Val::Float32(bits) => !crate::float_bits::f32_is_nan(bits),
        Val::Float64(bits) => !crate::float_bits::f64_is_nan(bits),
        Val::List(elems) => all_nan_free(elems),
        _ => true,
    }
}

/// No element of the sequence contains a NaN bit pattern.
pub open spec fn all_nan_free(s: Seq<Val>) -> bool
    decreases s,
{
    if s.len() == 0 {
        true
    } else {
        all_nan_free(s.drop_last()) && nan_free(s.last())
    }
}

/// `all_nan_free` holds exactly when each element is NaN-free.
pub proof fn lemma_all_nan_free(s: Seq<Val>)
    ensures
        all_nan_free(s) == (forall|i: int| 0 <= i < s.len() ==> nan_free(#[trigger] s[i])),
    decreases s.len(),
{
    if s.len() > 0 {
        lemma_all_nan_free(s.drop_last());
        if forall|i: int| 0 <= i < s.drop_last().len() ==> nan_free(#[trigger] s.drop_last()[i]) {
            if all_nan_free(s.drop_last()) && nan_free(s.last()) {
                assert forall|i: int| 0 <= i < s.len() implies nan_free(#[trigger] s[i]) by {
                    if i < s.len() - 1 {
                        assert(s.drop_last()[i] == s[i]);
                    }
                }
            }
        }
    }
}

/// Whether the executable value is the absent value.
pub fn value_is_null(v: &TypedValue) -> (r: bool)
    ensures
        r == (v@ == Val::Null),
{
    matches!(v, TypedValue::Null)
}

/// Deep copy of a byte vector.
pub fn clone_bytes(b: &Vec<u8>) -> (r: Vec<u8>)
    ensures
        r@ == b@,
{
    let mut out: Vec<u8> = Vec::new();
    let mut i: usize = 0;
    while i < b.len()
        invariant
            i <= b.len(),
            out@ =~= b@.subrange(0, i as int),
        decreases b.len() - i,
    {
        out.push(b[i]);
        i = i + 1;
    }
    assert(out@ =~= b@);
    out
}

/// Deep copy of a typed value; the copy has the same model.
pub fn clone_value(v: &TypedValue) -> (r: TypedValue)
    ensures
        r@ == v@,
    decreases v,
{
    match v {
        TypedValue::Null => TypedValue::Null,
        TypedValue::Boolean(b) => TypedValue::Boolean(*b),
        TypedValue::Int8(x) => TypedValue::Int8(*x),
        TypedValue::Int16(x) => TypedValue::Int16(*x),
        TypedValue::Int32(x) => TypedValue::Int32(*x),
        TypedValue::Int64(x) => TypedValue::Int64(*x),
        TypedValue::UInt8(x) => TypedValue::UInt8(*x),
        TypedValue::UInt16(x) => TypedValue::UInt16(*x),
        TypedValue::UInt32(x) => TypedValue::UInt32(*x),
        TypedValue::UInt64(x) => TypedValue::UInt64(*x),
        TypedValue::Float32 { bits } => TypedValue::Float32 { bits: *bits },
        TypedValue::Float64 { bits } => TypedValue::Float64 { bits: *bits },
        TypedValue::Utf8(s) => TypedValue::Utf8(s.clone()),
        TypedValue::Binary(b) => TypedValue::Binary(clone_bytes(b)),
        TypedValue::List(elems) => TypedValue::List(clone_list(elems)),
    }
}

/// Deep copy of a list payload, elementwise.
pub fn clone_list(elems: &Vec<TypedValue>) -> (r: Vec<TypedValue>)
    ensures
        vals_of(r@) == vals_of(elems@),
    decreases elems,
{
    let mut out: Vec<TypedValue> = Vec::new();
    let mut i: usize = 0;
    while i < elems.len()
        invariant
            i <= elems.len(),
            out@.len() == i,
            forall|j: int| 0 <= j < i ==> (#[trigger] out@[j])@ == elems@[j]@,
        decreases elems.len() - i,
    {
        proof {
            assert(decreases_to!(elems@ => elems@[i as int]));
        }
        out.push(clone_value(&elems[i]));
        i = i + 1;
    }
    proof {
        lemma_vals_of(out@);
        lemma_vals_of(elems@);
        assert(vals_of(out@) =~= vals_of(elems@));
    }
    out
}

} // verus!
