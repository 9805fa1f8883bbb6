//! The total order used by the reduction.
//!
//! `le(a, b)` compares two values of one common type:
//! - an absent value (`Val::Null`) is less than or equal to everything, and
//!   everything that is less than or equal to `Val::Null` is itself absent;
//! - float values compare by their order keys, which place every NaN
//!   strictly above every other value (see `crate::float_bits`);
//! - strings and byte strings compare lexicographically;
//! - lists compare lexicographically by element: the first position whose
//!   elements are not equivalent decides, an absent element losing to any
//!   present one; if one list runs out first, it is the lesser one,
//!   whatever the other list holds at that position;
//! - every other type compares by plain value order.
//!
//! `equiv(a, b)` holds when neither value is strictly below the other: they
//! are the same value, except that two distinct NaN bit patterns of the same
//! width are also equivalent.
//!
//! Values of different types are never ordered: `le` is total only among
//! values of one type, which is all the reduction ever compares.

use vstd::prelude::*;

use crate::float_bits::{f32_is_nan, f32_key, f64_is_nan, f64_key};
use crate::float_bits::{lemma_f32_key_nan_strict, lemma_f64_key_nan_strict};
use crate::float_bits::{f32_order_key, f64_order_key, lemma_f32_key_injective, lemma_f64_key_injective};
use crate::values::{lemma_all_nan_free, lemma_vals_of, vals_of, TypedValue};
use vstd::string::StrSliceExecFns;
use crate::tags::TypeTag;
use crate::values::{
    all_have_type, all_nan_free, has_type, lemma_all_have_type, nan_free, Val,
};

verus! {

/// Neither value is strictly below the other.
pub open spec fn equiv(a: Val, b: Val) -> bool
    decreases a,
{
    match (a, b) {
        (Val::Null, Val::Null) => true,
        (Val::Boolean(x), Val::Boolean(y)) => x == y,
        (Val::Int8(x), Val::Int8(y)) => x == y,
        (Val::Int16(x), Val::Int16(y)) => x == y,
        (Val::Int32(x), Val::Int32(y)) => x == y,
        (Val::Int64(x), Val::Int64(y)) => x == y,
        (Val::UInt8(x), Val::UInt8(y)) => x == y,
        (Val::UInt16(x), Val::UInt16(y)) => x == y,
        (Val::UInt32(x), Val::UInt32(y)) => x == y,
        (Val::UInt64(x), Val::UInt64(y)) => x == y,
        (Val::Float32(x), Val::Float32(y)) => f32_key(x) == f32_key(y),
        (Val::Float64(x), Val::Float64(y)) => f64_key(x) == f64_key(y),
        (Val::Utf8(x), Val::Utf8(y)) => x == y,
        (Val::Binary(x), Val::Binary(y)) => x == y,
        (Val::List(x), Val::List(y)) => seq_equiv(x, y),
        _ => false,
    }
}

/// Pointwise equivalence of two sequences of equal length.
pub open spec fn seq_equiv(s: Seq<Val>, t: Seq<Val>) -> bool
    decreases s,
{
    s.len() == t.len() && (s.len() == 0 || (equiv(s.first(), t.first()) && seq_equiv(
        s.drop_first(),
        t.drop_first(),
    )))
}

/// Lexicographic order on character sequences.
pub open spec fn str_le(s: Seq<char>, t: Seq<char>) -> bool
    decreases s.len(),
{
    if s.len() == 0 {
        true
    } else if t.len() == 0 {
        false
    } else if s.first() == t.first() {
        str_le(s.drop_first(), t.drop_first())
    } else {
        s.first() < t.first()
    }
}

/// Lexicographic order on byte sequences.
pub open spec fn bytes_le(s: Seq<u8>, t: Seq<u8>) -> bool
    decreases s.len(),
{
    if s.len() == 0 {
        true
    } else if t.len() == 0 {
        false
    } else if s.first() == t.first() {
        bytes_le(s.drop_first(), t.drop_first())
    } else {
        s.first() < t.first()
    }
}

/// `a` is less than or equal to `b` under the reduction's order.
pub open spec fn le(a: Val, b: Val) -> bool
    decreases a,
{
    match (a, b) {
        (Val::Null, _) => true,
        (_, Val::Null) => false,
        (Val::Boolean(x), Val::Boolean(y)) => !x || y,
        (Val::Int8(x), Val::Int8(y)) => x <= y,
        (Val::Int16(x), Val::Int16(y)) => x <= y,
        (Val::Int32(x), Val::Int32(y)) => x <= y,
        (Val::Int64(x), Val::Int64(y)) => x <= y,
        (Val::UInt8(x), Val::UInt8(y)) => x <= y,
        (Val::UInt16(x), Val::UInt16(y)) => x <= y,
        (Val::UInt32(x), Val::UInt32(y)) => x <= y,
        (Val::UInt64(x), Val::UInt64(y)) => x <= y,
        (Val::Float32(x), Val::Float32(y)) => f32_key(x) <= f32_key(y),
        (Val::Float64(x), Val::Float64(y)) => f64_key(x) <= f64_key(y),
        (Val::Utf8(x), Val::Utf8(y)) => str_le(x, y),
        (Val::Binary(x), Val::Binary(y)) => bytes_le(x, y),
        (Val::List(x), Val::List(y)) => lex_le(x, y),
        _ => false,
    }
}

/// Lexicographic order on element sequences: the first position whose
/// elements are not equivalent decides; a sequence that runs out first is
/// the lesser one.
pub open spec fn lex_le(s: Seq<Val>, t: Seq<Val>) -> bool
    decreases s,
{
    if s.len() == 0 {
        true
    } else if t.len() == 0 {
        false
    } else if equiv(s.first(), t.first()) {
        lex_le(s.drop_first(), t.drop_first())
    } else {
        le(s.first(), t.first())
    }
}

/// `a` is greater than or equal to `b`: the order the reduction selects by.
pub open spec fn ge(a: Val, b: Val) -> bool {
    le(b, a)
}

/// The operand a pairwise maximum keeps: the left one when it is greater or
/// equal, else the right one.
pub open spec fn pick(a: Val, b: Val) -> Val {
    if ge(a, b) {
        a
    } else {
        b
    }
}

/// Lexicographic order on characters is reflexive.
pub proof fn lemma_str_le_refl(s: Seq<char>)
    ensures
        str_le(s, s),
    decreases s.len(),
{
    if s.len() > 0 {
        lemma_str_le_refl(s.drop_first());
    }
}

/// Lexicographic order on characters is antisymmetric.
pub proof fn lemma_str_le_antisym(s: Seq<char>, t: Seq<char>)
    requires
        str_le(s, t),
        str_le(t, s),
    ensures
        s == t,
    decreases s.len(),
{
    if s.len() == 0 {
        assert(t.len() == 0);
        assert(s =~= t);
    } else {
        assert(t.len() > 0);
        assert(s.first() == t.first());
        lemma_str_le_antisym(s.drop_first(), t.drop_first());
        assert forall|i: int| 0 <= i < s.len() implies s[i] == t[i] by {
            if i > 0 {
                assert(s.drop_first()[i - 1] == s[i]);
                assert(t.drop_first()[i - 1] == t[i]);
            }
        }
        assert(s =~= t);
    }
}

/// Lexicographic order on bytes is reflexive.
pub proof fn lemma_bytes_le_refl(s: Seq<u8>)
    ensures
        bytes_le(s, s),
    decreases s.len(),
{
    if s.len() > 0 {
        lemma_bytes_le_refl(s.drop_first());
    }
}

/// Lexicographic order on bytes is antisymmetric.
pub proof fn lemma_bytes_le_antisym(s: Seq<u8>, t: Seq<u8>)
    requires
        bytes_le(s, t),
        bytes_le(t, s),
    ensures
        s == t,
    decreases s.len(),
{
    if s.len() == 0 {
        assert(t.len() == 0);
        assert(s =~= t);
    } else {
        assert(t.len() > 0);
        assert(s.first() == t.first());
        lemma_bytes_le_antisym(s.drop_first(), t.drop_first());
        assert forall|i: int| 0 <= i < s.len() implies s[i] == t[i] by {
            if i > 0 {
                assert(s.drop_first()[i - 1] == s[i]);
                assert(t.drop_first()[i - 1] == t[i]);
            }
        }
        assert(s =~= t);
    }
}

/// Equivalence is reflexive.
pub proof fn lemma_equiv_refl(a: Val)
    ensures
        equiv(a, a),
    decreases a,
{
    match a {
        Val::List(x) => {
            lemma_seq_equiv_refl(x);
        },
        _ => {},
    }
}

/// Pointwise equivalence is reflexive.
pub proof fn lemma_seq_equiv_refl(s: Seq<Val>)
    ensures
        seq_equiv(s, s),
    decreases s,
{
    if s.len() > 0 {
        lemma_equiv_refl(s.first());
        lemma_seq_equiv_refl(s.drop_first());
    }
}

/// Equivalence is symmetric.
pub proof fn lemma_equiv_sym(a: Val, b: Val)
    ensures
        equiv(a, b) == equiv(b, a),
    decreases a,
{
    match (a, b) {
        (Val::List(x), Val::List(y)) => {
            lemma_seq_equiv_sym(x, y);
        },
        _ => {},
    }
}

/// Pointwise equivalence is symmetric.
pub proof fn lemma_seq_equiv_sym(s: Seq<Val>, t: Seq<Val>)
    ensures
        seq_equiv(s, t) == seq_equiv(t, s),
    decreases s,
{
    if s.len() > 0 && t.len() > 0 {
        lemma_equiv_sym(s.first(), t.first());
        lemma_seq_equiv_sym(s.drop_first(), t.drop_first());
    }
}

/// Equivalent values are mutually less-or-equal.
pub proof fn lemma_equiv_implies_le(a: Val, b: Val)
    requires
        equiv(a, b),
    ensures
        le(a, b),
        le(b, a),
    decreases a,
{
    match (a, b) {
        (Val::List(x), Val::List(y)) => {
            lemma_seq_equiv_implies_lex_le(x, y);
        },
        (Val::Utf8(x), Val::Utf8(y)) => {
            lemma_str_le_refl(x);
        },
        (Val::Binary(x), Val::Binary(y)) => {
            lemma_bytes_le_refl(x);
        },
        _ => {},
    }
}

/// Pointwise-equivalent sequences are mutually lexicographically ordered.
pub proof fn lemma_seq_equiv_implies_lex_le(s: Seq<Val>, t: Seq<Val>)
    requires
        seq_equiv(s, t),
    ensures
        lex_le(s, t),
        lex_le(t, s),
    decreases s,
{
    if s.len() > 0 {
        lemma_equiv_sym(s.first(), t.first());
        lemma_seq_equiv_implies_lex_le(s.drop_first(), t.drop_first());
    }
}

/// The order is reflexive.
pub proof fn lemma_le_refl(a: Val)
    ensures
        le(a, a),
{
    lemma_equiv_refl(a);
    lemma_equiv_implies_le(a, a);
}

/// Mutually ordered values are equivalent.
pub proof fn lemma_le_both_implies_equiv(a: Val, b: Val)
    requires
        le(a, b),
        le(b, a),
    ensures
        equiv(a, b),
    decreases a,
{
    match (a, b) {
        (Val::List(x), Val::List(y)) => {
            lemma_lex_le_both_implies_seq_equiv(x, y);
        },
        (Val::Utf8(x), Val::Utf8(y)) => {
            lemma_str_le_antisym(x, y);
        },
        (Val::Binary(x), Val::Binary(y)) => {
            lemma_bytes_le_antisym(x, y);
        },
        _ => {},
    }
}

/// Mutually lexicographically ordered sequences are pointwise equivalent.
pub proof fn lemma_lex_le_both_implies_seq_equiv(s: Seq<Val>, t: Seq<Val>)
    requires
        lex_le(s, t),
        lex_le(t, s),
    ensures
        seq_equiv(s, t),
    decreases s,
{
    if s.len() == 0 {
        assert(t.len() == 0);
    } else {
        assert(t.len() > 0);
        lemma_equiv_sym(s.first(), t.first());
        if equiv(s.first(), t.first()) {
            lemma_lex_le_both_implies_seq_equiv(s.drop_first(), t.drop_first());
        } else {
            lemma_le_both_implies_equiv(s.first(), t.first());
            assert(false);
        }
    }
}

/// Pointwise equivalence, characterized by index.
pub proof fn lemma_seq_equiv_index(s: Seq<Val>, t: Seq<Val>)
    ensures
        seq_equiv(s, t) == (s.len() == t.len() && (forall|i: int|
            0 <= i < s.len() ==> equiv(#[trigger] s[i], t[i]))),
    decreases s.len(),
{
    if s.len() > 0 && s.len() == t.len() {
        lemma_seq_equiv_index(s.drop_first(), t.drop_first());
        assert forall|i: int|
            0 <= i < s.drop_first().len() implies (equiv(#[trigger] s.drop_first()[i],
            t.drop_first()[i]) == equiv(s[i + 1], t[i + 1])) by {
            assert(s.drop_first()[i] == s[i + 1]);
            assert(t.drop_first()[i] == t[i + 1]);
        }
        if seq_equiv(s, t) {
            assert forall|i: int| 0 <= i < s.len() implies equiv(#[trigger] s[i], t[i]) by {
                if i > 0 {
                    assert(equiv(s.drop_first()[i - 1], t.drop_first()[i - 1]));
                }
            }
        }
        if s.len() == t.len() && (forall|i: int| 0 <= i < s.len() ==> equiv(#[trigger] s[i], t[i])) {
            assert(equiv(s.first(), t.first()));
            assert forall|i: int|
                0 <= i < s.drop_first().len() implies equiv(#[trigger] s.drop_first()[i],
                t.drop_first()[i]) by {
                assert(equiv(s[i + 1], t[i + 1]));
            }
        }
    }
}

/// Equivalence is transitive.
pub proof fn lemma_equiv_trans(a: Val, b: Val, c: Val)
    requires
        equiv(a, b),
        equiv(b, c),
    ensures
        equiv(a, c),
    decreases a,
{
    match (a, b, c) {
        (Val::List(x), Val::List(y), Val::List(z)) => {
            lemma_seq_equiv_trans(x, y, z);
        },
        _ => {},
    }
}

/// Pointwise equivalence is transitive.
pub proof fn lemma_seq_equiv_trans(s: Seq<Val>, t: Seq<Val>, u: Seq<Val>)
    requires
        seq_equiv(s, t),
        seq_equiv(t, u),
    ensures
        seq_equiv(s, u),
    decreases s,
{
    if s.len() > 0 {
        lemma_equiv_trans(s.first(), t.first(), u.first());
        lemma_seq_equiv_trans(s.drop_first(), t.drop_first(), u.drop_first());
    }
}

/// Lexicographic order on characters is total.
pub proof fn lemma_str_le_total(s: Seq<char>, t: Seq<char>)
    ensures
        str_le(s, t) || str_le(t, s),
    decreases s.len(),
{
    if s.len() > 0 && t.len() > 0 && s.first() == t.first() {
        lemma_str_le_total(s.drop_first(), t.drop_first());
    }
}

/// Lexicographic order on characters is transitive.
pub proof fn lemma_str_le_trans(s: Seq<char>, t: Seq<char>, u: Seq<char>)
    requires
        str_le(s, t),
        str_le(t, u),
    ensures
        str_le(s, u),
    decreases s.len(),
{
    if s.len() > 0 && t.len() > 0 && u.len() > 0 && s.first() == t.first() && t.first()
        == u.first() {
        lemma_str_le_trans(s.drop_first(), t.drop_first(), u.drop_first());
    }
}

/// Lexicographic order on bytes is total.
pub proof fn lemma_bytes_le_total(s: Seq<u8>, t: Seq<u8>)
    ensures
        bytes_le(s, t) || bytes_le(t, s),
    decreases s.len(),
{
    if s.len() > 0 && t.len() > 0 && s.first() == t.first() {
        lemma_bytes_le_total(s.drop_first(), t.drop_first());
    }
}

/// Lexicographic order on bytes is transitive.
pub proof fn lemma_bytes_le_trans(s: Seq<u8>, t: Seq<u8>, u: Seq<u8>)
    requires
        bytes_le(s, t),
        bytes_le(t, u),
    ensures
        bytes_le(s, u),
    decreases s.len(),
{
    if s.len() > 0 && t.len() > 0 && u.len() > 0 && s.first() == t.first() && t.first()
        == u.first() {
        lemma_bytes_le_trans(s.drop_first(), t.drop_first(), u.drop_first());
    }
}

/// Elements of a typed sequence keep their type when the head is dropped.
pub proof fn lemma_all_have_type_drop_first(s: Seq<Val>, t: TypeTag)
    requires
        all_have_type(s, t),
        s.len() > 0,
    ensures
        has_type(s.first(), t),
        all_have_type(s.drop_first(), t),
{
    lemma_all_have_type(s, t);
    lemma_all_have_type(s.drop_first(), t);
    assert forall|i: int| 0 <= i < s.drop_first().len() implies has_type(
        #[trigger] s.drop_first()[i],
        t,
    ) by {
        assert(s.drop_first()[i] == s[i + 1]);
    }
}

/// The order is total among values of one common type.
pub proof fn lemma_le_total(a: Val, b: Val, t: TypeTag)
    requires
        has_type(a, t),
        has_type(b, t),
    ensures
        le(a, b) || le(b, a),
    decreases a,
{
    match (a, b) {
        (Val::Utf8(x), Val::Utf8(y)) => {
            lemma_str_le_total(x, y);
        },
        (Val::Binary(x), Val::Binary(y)) => {
            lemma_bytes_le_total(x, y);
        },
        (Val::List(x), Val::List(y)) => {
            let et = t->List_0;
            lemma_lex_le_total(x, y, *et);
        },
        _ => {},
    }
}

/// Lexicographic order on element sequences is total among sequences of one
/// element type.
pub proof fn lemma_lex_le_total(s: Seq<Val>, t: Seq<Val>, et: TypeTag)
    requires
        all_have_type(s, et),
        all_have_type(t, et),
    ensures
        lex_le(s, t) || lex_le(t, s),
    decreases s,
{
    if s.len() > 0 && t.len() > 0 {
        lemma_all_have_type_drop_first(s, et);
        lemma_all_have_type_drop_first(t, et);
        lemma_equiv_sym(s.first(), t.first());
        if equiv(s.first(), t.first()) {
            lemma_lex_le_total(s.drop_first(), t.drop_first(), et);
        } else {
            lemma_le_total(s.first(), t.first(), et);
        }
    }
}

/// The order is transitive, stated over every role the three values can
/// play so that the induction can reuse one elementwise instance.
pub proof fn lemma_le_trans3(a: Val, b: Val, c: Val)
    ensures
        le(a, b) && le(b, c) ==> le(a, c),
        le(a, c) && le(c, b) ==> le(a, b),
        le(b, a) && le(a, c) ==> le(b, c),
        le(b, c) && le(c, a) ==> le(b, a),
        le(c, a) && le(a, b) ==> le(c, b),
        le(c, b) && le(b, a) ==> le(c, a),
    decreases a,
{
    match (a, b, c) {
        (Val::Utf8(x), Val::Utf8(y), Val::Utf8(z)) => {
            if str_le(x, y) && str_le(y, z) {
                lemma_str_le_trans(x, y, z);
            }
            if str_le(x, z) && str_le(z, y) {
                lemma_str_le_trans(x, z, y);
            }
            if str_le(y, x) && str_le(x, z) {
                lemma_str_le_trans(y, x, z);
            }
            if str_le(y, z) && str_le(z, x) {
                lemma_str_le_trans(y, z, x);
            }
            if str_le(z, x) && str_le(x, y) {
                lemma_str_le_trans(z, x, y);
            }
            if str_le(z, y) && str_le(y, x) {
                lemma_str_le_trans(z, y, x);
            }
        },
        (Val::Binary(x), Val::Binary(y), Val::Binary(z)) => {
            if bytes_le(x, y) && bytes_le(y, z) {
                lemma_bytes_le_trans(x, y, z);
            }
            if bytes_le(x, z) && bytes_le(z, y) {
                lemma_bytes_le_trans(x, z, y);
            }
            if bytes_le(y, x) && bytes_le(x, z) {
                lemma_bytes_le_trans(y, x, z);
            }
            if bytes_le(y, z) && bytes_le(z, x) {
                lemma_bytes_le_trans(y, z, x);
            }
            if bytes_le(z, x) && bytes_le(x, y) {
                lemma_bytes_le_trans(z, x, y);
            }
            if bytes_le(z, y) && bytes_le(y, x) {
                lemma_bytes_le_trans(z, y, x);
            }
        },
        (Val::List(x), Val::List(y), Val::List(z)) => {
            lemma_lex_le_trans3(x, y, z);
        },
        _ => {},
    }
}

/// Lexicographic transitivity over element sequences, in every role.
pub proof fn lemma_lex_le_trans3(s: Seq<Val>, t: Seq<Val>, u: Seq<Val>)
    ensures
        lex_le(s, t) && lex_le(t, u) ==> lex_le(s, u),
        lex_le(s, u) && lex_le(u, t) ==> lex_le(s, t),
        lex_le(t, s) && lex_le(s, u) ==> lex_le(t, u),
        lex_le(t, u) && lex_le(u, s) ==> lex_le(t, s),
        lex_le(u, s) && lex_le(s, t) ==> lex_le(u, t),
        lex_le(u, t) && lex_le(t, s) ==> lex_le(u, s),
    decreases s,
{
    if s.len() > 0 && t.len() > 0 && u.len() > 0 {
        let x = s.first();
        let y = t.first();
        let z = u.first();
        lemma_le_trans3(x, y, z);
        lemma_lex_le_trans3(s.drop_first(), t.drop_first(), u.drop_first());
        lemma_equiv_sym(x, y);
        lemma_equiv_sym(y, z);
        lemma_equiv_sym(x, z);
        if equiv(x, y) && equiv(y, z) {
            lemma_equiv_trans(x, y, z);
        }
        if equiv(y, z) && equiv(z, x) {
            lemma_equiv_trans(y, z, x);
        }
        if equiv(z, x) && equiv(x, y) {
            lemma_equiv_trans(z, x, y);
        }
        if equiv(x, z) && equiv(z, y) {
            lemma_equiv_trans(x, z, y);
        }
        if equiv(y, x) && equiv(x, z) {
            lemma_equiv_trans(y, x, z);
        }
        if equiv(z, y) && equiv(y, x) {
            lemma_equiv_trans(z, y, x);
        }
        if equiv(x, y) {
            lemma_equiv_implies_le(x, y);
        }
        if equiv(y, z) {
            lemma_equiv_implies_le(y, z);
        }
        if equiv(x, z) {
            lemma_equiv_implies_le(x, z);
        }
        if le(x, y) && le(y, x) {
            lemma_le_both_implies_equiv(x, y);
        }
        if le(y, z) && le(z, y) {
            lemma_le_both_implies_equiv(y, z);
        }
        if le(x, z) && le(z, x) {
            lemma_le_both_implies_equiv(x, z);
        }
    }
}

/// Equivalent values are equal unless a NaN payload differs.
pub proof fn lemma_equiv_nan_free_eq(a: Val, b: Val)
    requires
        equiv(a, b),
        nan_free(a),
    ensures
        a == b,
    decreases a,
{
    match (a, b) {
        (Val::Float32(x), Val::Float32(y)) => {
            lemma_f32_key_nan_strict(x);
            lemma_f32_key_nan_strict(y);
            lemma_f32_key_injective(x, y);
        },
        (Val::Float64(x), Val::Float64(y)) => {
            lemma_f64_key_nan_strict(x);
            lemma_f64_key_nan_strict(y);
            lemma_f64_key_injective(x, y);
        },
        (Val::List(x), Val::List(y)) => {
            lemma_seq_equiv_nan_free_eq(x, y);
        },
        _ => {},
    }
}

/// Pointwise-equivalent NaN-free sequences are equal.
pub proof fn lemma_seq_equiv_nan_free_eq(s: Seq<Val>, t: Seq<Val>)
    requires
        seq_equiv(s, t),
        all_nan_free(s),
    ensures
        s == t,
    decreases s,
{
    if s.len() == 0 {
        assert(s =~= t);
    } else {
        lemma_all_nan_free(s);
        lemma_all_nan_free(s.drop_first());
        assert forall|i: int| 0 <= i < s.drop_first().len() implies nan_free(
            #[trigger] s.drop_first()[i],
        ) by {
            assert(s.drop_first()[i] == s[i + 1]);
        }
        lemma_equiv_nan_free_eq(s.first(), t.first());
        lemma_seq_equiv_nan_free_eq(s.drop_first(), t.drop_first());
        assert forall|i: int| 0 <= i < s.len() implies s[i] == t[i] by {
            if i > 0 {
                assert(s.drop_first()[i - 1] == t.drop_first()[i - 1]);
            }
        }
        assert(s =~= t);
    }
}

/// Dropping an equal prefix does not change the lexicographic comparison of
/// character sequences.
pub proof fn lemma_str_le_skip(s: Seq<char>, t: Seq<char>, i: int)
    requires
        0 <= i <= s.len(),
        i <= t.len(),
        forall|j: int| 0 <= j < i ==> s[j] == t[j],
    ensures
        str_le(s, t) == str_le(s.skip(i), t.skip(i)),
    decreases i,
{
    if i == 0 {
        assert(s.skip(0) =~= s);
        assert(t.skip(0) =~= t);
    } else {
        assert(s.first() == t.first());
        assert forall|j: int| 0 <= j < i - 1 implies s.drop_first()[j] == t.drop_first()[j] by {
            assert(s.drop_first()[j] == s[j + 1]);
            assert(t.drop_first()[j] == t[j + 1]);
        }
        lemma_str_le_skip(s.drop_first(), t.drop_first(), i - 1);
        assert(s.drop_first().skip(i - 1) =~= s.skip(i));
        assert(t.drop_first().skip(i - 1) =~= t.skip(i));
    }
}

/// Dropping an equal prefix does not change the lexicographic comparison of
/// byte sequences.
pub proof fn lemma_bytes_le_skip(s: Seq<u8>, t: Seq<u8>, i: int)
    requires
        0 <= i <= s.len(),
        i <= t.len(),
        forall|j: int| 0 <= j < i ==> s[j] == t[j],
    ensures
        bytes_le(s, t) == bytes_le(s.skip(i), t.skip(i)),
    decreases i,
{
    if i == 0 {
        assert(s.skip(0) =~= s);
        assert(t.skip(0) =~= t);
    } else {
        assert(s.first() == t.first());
        assert forall|j: int| 0 <= j < i - 1 implies s.drop_first()[j] == t.drop_first()[j] by {
            assert(s.drop_first()[j] == s[j + 1]);
            assert(t.drop_first()[j] == t[j + 1]);
        }
        lemma_bytes_le_skip(s.drop_first(), t.drop_first(), i - 1);
        assert(s.drop_first().skip(i - 1) =~= s.skip(i));
        assert(t.drop_first().skip(i - 1) =~= t.skip(i));
    }
}

/// Dropping an equivalent prefix does not change the lexicographic
/// comparison of element sequences.
pub proof fn lemma_lex_le_skip(s: Seq<Val>, t: Seq<Val>, i: int)
    requires
        0 <= i <= s.len(),
        i <= t.len(),
        forall|j: int| 0 <= j < i ==> equiv(#[trigger] s[j], t[j]),
    ensures
        lex_le(s, t) == lex_le(s.skip(i), t.skip(i)),
    decreases i,
{
    if i == 0 {
        assert(s.skip(0) =~= s);
        assert(t.skip(0) =~= t);
    } else {
        assert(equiv(s.first(), t.first()));
        assert forall|j: int| 0 <= j < i - 1 implies equiv(
            #[trigger] s.drop_first()[j],
            t.drop_first()[j],
        ) by {
            assert(s.drop_first()[j] == s[j + 1]);
            assert(t.drop_first()[j] == t[j + 1]);
        }
        lemma_lex_le_skip(s.drop_first(), t.drop_first(), i - 1);
        assert(s.drop_first().skip(i - 1) =~= s.skip(i));
        assert(t.drop_first().skip(i - 1) =~= t.skip(i));
    }
}

/// Executable equality of byte vectors.
pub fn bytes_eq(x: &Vec<u8>, y: &Vec<u8>) -> (r: bool)
    ensures
        r == (x@ == y@),
{
    if x.len() != y.len() {
        return false;
    }
    let mut i: usize = 0;
    while i < x.len()
        invariant
            x@.len() == y@.len(),
            i <= x.len(),
            forall|j: int| 0 <= j < i ==> x@[j] == y@[j],
        decreases x.len() - i,
    {
        if x[i] != y[i] {
            return false;
        }
        i = i + 1;
    }
    proof {
        assert(x@ =~= y@);
    }
    true
}

/// Executable lexicographic comparison of strings.
pub fn str_le_value(x: &String, y: &String) -> (r: bool)
    ensures
        r == str_le(x@, y@),
{
    let xs = x.as_str();
    let ys = y.as_str();
    let n1 = xs.unicode_len();
    let n2 = ys.unicode_len();
    let n = if n1 < n2 {
        n1
    } else {
        n2
    };
    let mut i: usize = 0;
    while i < n
        invariant
            n1 == x@.len(),
            n2 == y@.len(),
            n == if n1 < n2 {
                n1
            } else {
                n2
            },
            xs@ == x@,
            ys@ == y@,
            i <= n,
            forall|j: int| 0 <= j < i ==> x@[j] == y@[j],
        decreases n - i,
    {
        let cx = xs.get_char(i);
        let cy = ys.get_char(i);
        if cx != cy {
            proof {
                lemma_str_le_skip(x@, y@, i as int);
            }
            return (cx as u32) < (cy as u32);
        }
        i = i + 1;
    }
    proof {
        lemma_str_le_skip(x@, y@, n as int);
    }
    n1 <= n2
}

/// Executable lexicographic comparison of byte strings.
pub fn bytes_le_value(x: &Vec<u8>, y: &Vec<u8>) -> (r: bool)
    ensures
        r == bytes_le(x@, y@),
{
    let n1 = x.len();
    let n2 = y.len();
    let n = if n1 < n2 {
        n1
    } else {
        n2
    };
    let mut i: usize = 0;
    while i < n
        invariant
            n1 == x@.len(),
            n2 == y@.len(),
            n == if n1 < n2 {
                n1
            } else {
                n2
            },
            i <= n,
            forall|j: int| 0 <= j < i ==> x@[j] == y@[j],
        decreases n - i,
    {
        if x[i] != y[i] {
            proof {
                lemma_bytes_le_skip(x@, y@, i as int);
            }
            return x[i] < y[i];
        }
        i = i + 1;
    }
    proof {
        lemma_bytes_le_skip(x@, y@, n as int);
    }
    n1 <= n2
}

/// Executable equivalence test.
pub fn equiv_value(a: &TypedValue, b: &TypedValue) -> (r: bool)
    ensures
        r == equiv(a@, b@),
    decreases a,
{
    match (a, b) {
        (TypedValue::Null, TypedValue::Null) => true,
        (TypedValue::Boolean(x), TypedValue::Boolean(y)) => *x == *y,
        (TypedValue::Int8(x), TypedValue::Int8(y)) => *x == *y,
        (TypedValue::Int16(x), TypedValue::Int16(y)) => *x == *y,
        (TypedValue::Int32(x), TypedValue::Int32(y)) => *x == *y,
        (TypedValue::Int64(x), TypedValue::Int64(y)) => *x == *y,
        (TypedValue::UInt8(x), TypedValue::UInt8(y)) => *x == *y,
        (TypedValue::UInt16(x), TypedValue::UInt16(y)) => *x == *y,
        (TypedValue::UInt32(x), TypedValue::UInt32(y)) => *x == *y,
        (TypedValue::UInt64(x), TypedValue::UInt64(y)) => *x == *y,
        (TypedValue::Float32 { bits: x }, TypedValue::Float32 { bits: y }) => f32_order_key(*x)
            == f32_order_key(*y),
        (TypedValue::Float64 { bits: x }, TypedValue::Float64 { bits: y }) => f64_order_key(*x)
            == f64_order_key(*y),
        (TypedValue::Utf8(x), TypedValue::Utf8(y)) => *x == *y,
        (TypedValue::Binary(x), TypedValue::Binary(y)) => bytes_eq(x, y),
        (TypedValue::List(x), TypedValue::List(y)) => seq_equiv_value(x, y),
        _ => false,
    }
}

/// Executable pointwise equivalence of list payloads.
pub fn seq_equiv_value(x: &Vec<TypedValue>, y: &Vec<TypedValue>) -> (r: bool)
    ensures
        r == seq_equiv(vals_of(x@), vals_of(y@)),
    decreases x,
{
    proof {
        lemma_vals_of(x@);
        lemma_vals_of(y@);
        lemma_seq_equiv_index(vals_of(x@), vals_of(y@));
    }
    if x.len() != y.len() {
        return false;
    }
    let mut i: usize = 0;
    while i < x.len()
        invariant
            x@.len() == y@.len(),
            i <= x.len(),
            vals_of(x@).len() == x@.len(),
            vals_of(y@).len() == y@.len(),
            forall|j: int| 0 <= j < x@.len() ==> vals_of(x@)[j] == (#[trigger] x@[j])@,
            forall|j: int| 0 <= j < y@.len() ==> vals_of(y@)[j] == (#[trigger] y@[j])@,
            seq_equiv(vals_of(x@), vals_of(y@)) == (forall|j: int|
                0 <= j < x@.len() ==> equiv(vals_of(x@)[j], vals_of(y@)[j])),
            forall|j: int| 0 <= j < i ==> equiv(vals_of(x@)[j], vals_of(y@)[j]),
        decreases x.len() - i,
    {
        proof {
            assert(decreases_to!(x@ => x@[i as int]));
        }
        if !equiv_value(&x[i], &y[i]) {
            return false;
        }
        i = i + 1;
    }
    true
}

/// Executable order test: `a` is less than or equal to `b`.
pub fn le_value(a: &TypedValue, b: &TypedValue) -> (r: bool)
    ensures
        r == le(a@, b@),
    decreases a,
{
    match (a, b) {
        (TypedValue::Null, _) => true,
        (_, TypedValue::Null) => false,
        (TypedValue::Boolean(x), TypedValue::Boolean(y)) => !*x || *y,
        (TypedValue::Int8(x), TypedValue::Int8(y)) => *x <= *y,
        (TypedValue::Int16(x), TypedValue::Int16(y)) => *x <= *y,
        (TypedValue::Int32(x), TypedValue::Int32(y)) => *x <= *y,
        (TypedValue::Int64(x), TypedValue::Int64(y)) => *x <= *y,
        (TypedValue::UInt8(x), TypedValue::UInt8(y)) => *x <= *y,
        (TypedValue::UInt16(x), TypedValue::UInt16(y)) => *x <= *y,
        (TypedValue::UInt32(x), TypedValue::UInt32(y)) => *x <= *y,
        (TypedValue::UInt64(x), TypedValue::UInt64(y)) => *x <= *y,
        (TypedValue::Float32 { bits: x }, TypedValue::Float32 { bits: y }) => f32_order_key(*x)
            <= f32_order_key(*y),
        (TypedValue::Float64 { bits: x }, TypedValue::Float64 { bits: y }) => f64_order_key(*x)
            <= f64_order_key(*y),
        (TypedValue::Utf8(x), TypedValue::Utf8(y)) => str_le_value(x, y),
        (TypedValue::Binary(x), TypedValue::Binary(y)) => bytes_le_value(x, y),
        (TypedValue::List(x), TypedValue::List(y)) => lex_le_value(x, y),
        _ => false,
    }
}

/// Executable lexicographic comparison of list payloads.
pub fn lex_le_value(x: &Vec<TypedValue>, y: &Vec<TypedValue>) -> (r: bool)
    ensures
        r == lex_le(vals_of(x@), vals_of(y@)),
    decreases x,
{
    proof {
        lemma_vals_of(x@);
        lemma_vals_of(y@);
    }
    let n1 = x.len();
    let n2 = y.len();
    let n = if n1 < n2 {
        n1
    } else {
        n2
    };
    let mut i: usize = 0;
    while i < n
        invariant
            n1 == x@.len(),
            n2 == y@.len(),
            n == if n1 < n2 {
                n1
            } else {
                n2
            },
            i <= n,
            vals_of(x@).len() == x@.len(),
            vals_of(y@).len() == y@.len(),
            forall|j: int| 0 <= j < x@.len() ==> vals_of(x@)[j] == (#[trigger] x@[j])@,
            forall|j: int| 0 <= j < y@.len() ==> vals_of(y@)[j] == (#[trigger] y@[j])@,
            forall|j: int| 0 <= j < i ==> equiv(vals_of(x@)[j], vals_of(y@)[j]),
        decreases n - i,
    {
        proof {
            assert(decreases_to!(x@ => x@[i as int]));
        }
        let eqv = equiv_value(&x[i], &y[i]);
        if !eqv {
            proof {
                lemma_lex_le_skip(vals_of(x@), vals_of(y@), i as int);
                assert(vals_of(x@).skip(i as int).first() == vals_of(x@)[i as int]);
                assert(vals_of(y@).skip(i as int).first() == vals_of(y@)[i as int]);
            }
            return le_value(&x[i], &y[i]);
        }
        i = i + 1;
    }
    proof {
        lemma_lex_le_skip(vals_of(x@), vals_of(y@), n as int);
    }
    n1 <= n2
}

/// Executable order test: `a` is greater than or equal to `b`.
pub fn ge_value(a: &TypedValue, b: &TypedValue) -> (r: bool)
    ensures
        r == ge(a@, b@),
{
    le_value(b, a)
}

} // verus!
