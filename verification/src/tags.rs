//! Type tags and the lossless-coercion relation between them.
//!
//! `TypeTag` identifies the type of a value: signed and unsigned integers of
//! width 8 to 64, 32- and 64-bit binary floating point, boolean, UTF-8
//! string, opaque byte string, the null type, and list-of (recursive).
//!
//! `spec_coerces_to(a, b)` holds when every value of type `a` can be
//! represented in type `b` under the widening policy: integers widen to
//! strictly wider integers of the same signedness, unsigned integers also
//! widen to strictly wider signed integers, every integer widens to either
//! float width, `Float32` widens to `Float64`, `Null` widens to everything,
//! and lists widen elementwise. Signed and unsigned integers of the same
//! width never coerce to each other in either direction. The relation is
//! reflexive, transitive, and antisymmetric: a partial order.

use vstd::prelude::*;

verus! {

#[derive(Debug, PartialEq, Eq)]
pub enum TypeTag {
    Null,
    Boolean,
    Int8,
    Int16,
    Int32,
    Int64,
    UInt8,
    UInt16,
    UInt32,
    UInt64,
    Float32,
    Float64,
    Utf8,
    Binary,
    List(Box<TypeTag>),
}

/// The eight fixed-width integer tags.
pub open spec fn is_integer_tag(a: TypeTag) -> bool {
    ||| a == TypeTag::Int8
    ||| a == TypeTag::Int16
    ||| a == TypeTag::Int32
    ||| a == TypeTag::Int64
    ||| a == TypeTag::UInt8
    ||| a == TypeTag::UInt16
    ||| a == TypeTag::UInt32
    ||| a == TypeTag::UInt64
}

/// Strict numeric widenings between distinct flat tags.
pub open spec fn numeric_widens(a: TypeTag, b: TypeTag) -> bool {
    match b {
        TypeTag::Int16 => a == TypeTag::Int8 || a == TypeTag::UInt8,
        TypeTag::Int32 => a == TypeTag::Int8 || a == TypeTag::Int16 || a == TypeTag::UInt8
            || a == TypeTag::UInt16,
        TypeTag::Int64 => a == TypeTag::Int8 || a == TypeTag::Int16 || a == TypeTag::Int32
            || a == TypeTag::UInt8 || a == TypeTag::UInt16 || a == TypeTag::UInt32,
        TypeTag::UInt16 => a == TypeTag::UInt8,
        TypeTag::UInt32 => a == TypeTag::UInt8 || a == TypeTag::UInt16,
        TypeTag::UInt64 => a == TypeTag::UInt8 || a == TypeTag::UInt16 || a == TypeTag::UInt32,
        TypeTag::Float32 => is_integer_tag(a),
        TypeTag::Float64 => is_integer_tag(a) || a == TypeTag::Float32,
        _ => false,
    }
}

/// Every value of type `a` is representable in type `b` (widening policy).
pub open spec fn spec_coerces_to(a: TypeTag, b: TypeTag) -> bool
    decreases a,
{
    match (a, b) {
        (TypeTag::Null, _) => true,
        (TypeTag::List(ea), TypeTag::List(eb)) => spec_coerces_to(*ea, *eb),
        _ => a == b || numeric_widens(a, b),
    }
}

/// Executable equality on type tags.
pub fn tag_eq(a: &TypeTag, b: &TypeTag) -> (r: bool)
    ensures
        r == (a == b),
    decreases a,
{
    match (a, b) {
        (TypeTag::Null, TypeTag::Null) => true,
        (TypeTag::Boolean, TypeTag::Boolean) => true,
        (TypeTag::Int8, TypeTag::Int8) => true,
        (TypeTag::Int16, TypeTag::Int16) => true,
        (TypeTag::Int32, TypeTag::Int32) => true,
        (TypeTag::Int64, TypeTag::Int64) => true,
        (TypeTag::UInt8, TypeTag::UInt8) => true,
        (TypeTag::UInt16, TypeTag::UInt16) => true,
        (TypeTag::UInt32, TypeTag::UInt32) => true,
        (TypeTag::UInt64, TypeTag::UInt64) => true,
        (TypeTag::Float32, TypeTag::Float32) => true,
        (TypeTag::Float64, TypeTag::Float64) => true,
        (TypeTag::Utf8, TypeTag::Utf8) => true,
        (TypeTag::Binary, TypeTag::Binary) => true,
        (TypeTag::List(ea), TypeTag::List(eb)) => tag_eq(ea, eb),
        _ => false,
    }
}

/// Executable deep copy of a type tag.
pub fn clone_tag(t: &TypeTag) -> (r: TypeTag)
    ensures
        r == *t,
    decreases t,
{
    match t {
        TypeTag::Null => TypeTag::Null,
        TypeTag::Boolean => TypeTag::Boolean,
        TypeTag::Int8 => TypeTag::Int8,
        TypeTag::Int16 => TypeTag::Int16,
        TypeTag::Int32 => TypeTag::Int32,
        TypeTag::Int64 => TypeTag::Int64,
        TypeTag::UInt8 => TypeTag::UInt8,
        TypeTag::UInt16 => TypeTag::UInt16,
        TypeTag::UInt32 => TypeTag::UInt32,
        TypeTag::UInt64 => TypeTag::UInt64,
        TypeTag::Float32 => TypeTag::Float32,
        TypeTag::Float64 => TypeTag::Float64,
        TypeTag::Utf8 => TypeTag::Utf8,
        TypeTag::Binary => TypeTag::Binary,
        TypeTag::List(e) => TypeTag::List(Box::new(clone_tag(e))),
    }
}

/// Executable test of the coercion relation.
pub fn coerces_to(a: &TypeTag, b: &TypeTag) -> (r: bool)
    ensures
        r == spec_coerces_to(*a, *b),
    decreases a,
{
    match (a, b) {
        (TypeTag::Null, _) => true,
        (TypeTag::List(ea), TypeTag::List(eb)) => coerces_to(ea, eb),
        (TypeTag::List(_), _) => false,
        _ => {
            if tag_eq(a, b) {
                true
            } else {
                match b {
                    TypeTag::Int16 => matches!(a, TypeTag::Int8 | TypeTag::UInt8),
                    TypeTag::Int32 => matches!(
                        a,
                        TypeTag::Int8 | TypeTag::Int16 | TypeTag::UInt8 | TypeTag::UInt16
                    ),
                    TypeTag::Int64 => matches!(
                        a,
                        TypeTag::Int8 | TypeTag::Int16 | TypeTag::Int32 | TypeTag::UInt8
                            | TypeTag::UInt16 | TypeTag::UInt32
                    ),
                    TypeTag::UInt16 => matches!(a, TypeTag::UInt8),
                    TypeTag::UInt32 => matches!(a, TypeTag::UInt8 | TypeTag::UInt16),
                    TypeTag::UInt64 => matches!(
                        a,
                        TypeTag::UInt8 | TypeTag::UInt16 | TypeTag::UInt32
                    ),
                    TypeTag::Float32 => matches!(
                        a,
                        TypeTag::Int8 | TypeTag::Int16 | TypeTag::Int32 | TypeTag::Int64
                            | TypeTag::UInt8 | TypeTag::UInt16 | TypeTag::UInt32 | TypeTag::UInt64
                    ),
                    TypeTag::Float64 => matches!(
                        a,
                        TypeTag::Int8 | TypeTag::Int16 | TypeTag::Int32 | TypeTag::Int64
                            | TypeTag::UInt8 | TypeTag::UInt16 | TypeTag::UInt32 | TypeTag::UInt64
                            | TypeTag::Float32
                    ),
                    _ => false,
                }
            }
        },
    }
}

/// Whether a tag is the null type.
pub fn tag_is_null(t: &TypeTag) -> (r: bool)
    ensures
        r == (*t == TypeTag::Null),
{
    matches!(t, TypeTag::Null)
}

/// Whether a tag is a nested (list) type.
pub fn tag_is_nested(t: &TypeTag) -> (r: bool)
    ensures
        r == (*t matches TypeTag::List(_)),
{
    matches!(t, TypeTag::List(_))
}

/// Coercion is reflexive.
pub proof fn lemma_coerces_to_refl(a: TypeTag)
    ensures
        spec_coerces_to(a, a),
    decreases a,
{
    match a {
        TypeTag::List(e) => {
            lemma_coerces_to_refl(*e);
        },
        _ => {},
    }
}

/// Coercion is transitive.
pub proof fn lemma_coerces_to_trans(a: TypeTag, b: TypeTag, c: TypeTag)
    requires
        spec_coerces_to(a, b),
        spec_coerces_to(b, c),
    ensures
        spec_coerces_to(a, c),
    decreases a,
{
    match (a, b, c) {
        (TypeTag::List(ea), TypeTag::List(eb), TypeTag::List(ec)) => {
            lemma_coerces_to_trans(*ea, *eb, *ec);
        },
        _ => {},
    }
}

/// Coercion is antisymmetric: two distinct types never coerce to each other
/// in both directions.
pub proof fn lemma_coerces_to_antisym(a: TypeTag, b: TypeTag)
    requires
        spec_coerces_to(a, b),
        spec_coerces_to(b, a),
    ensures
        a == b,
    decreases a,
{
    match (a, b) {
        (TypeTag::List(ea), TypeTag::List(eb)) => {
            lemma_coerces_to_antisym(*ea, *eb);
        },
        _ => {},
    }
}

} // verus!
