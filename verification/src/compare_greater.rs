//! Pairwise selection of the larger value, scalar- and vector-shaped.
//!
//! `keep_larger_scalar` picks the greater of two scalar values under the
//! reduction's order (absent value least, NaN greatest, lists
//! lexicographic), keeping the left one on ties. `get_larger` computes the
//! per-position "keep left" mask of two equal-length columns, and
//! `keep_larger` merges two columns by that mask. On this data model the
//! vectorized comparison of null-free flat columns and the general
//! per-position comparator agree by construction, so one loop serves both;
//! the degenerate case of an entirely absent side short-circuits to the
//! other side and is proved to return the same result as the general path.

use vstd::prelude::*;

use crate::order::{ge, ge_value, pick};
use crate::values::{clone_value, value_is_null, TypedValue, Val};

verus! {

/// Pick the larger of two scalar values; ties keep the left operand.
pub fn keep_larger_scalar(lhs: TypedValue, rhs: TypedValue) -> (r: TypedValue)
    ensures
        r@ == pick(lhs@, rhs@),
{
    if ge_value(&lhs, &rhs) {
        lhs
    } else {
        rhs
    }
}

/// Whether every value of the column is absent.
pub fn column_all_null(v: &Vec<TypedValue>) -> (r: bool)
    ensures
        r == (forall|i: int| 0 <= i < v@.len() ==> (#[trigger] v@[i])@ == Val::Null),
{
    let mut i: usize = 0;
    while i < v.len()
        invariant
            i <= v.len(),
            forall|j: int| 0 <= j < i ==> (#[trigger] v@[j])@ == Val::Null,
        decreases v.len() - i,
    {
        if !value_is_null(&v[i]) {
            return false;
        }
        i = i + 1;
    }
    true
}

/// A copy of a column, position by position.
pub fn clone_column(v: &Vec<TypedValue>) -> (r: Vec<TypedValue>)
    ensures
        r@.len() == v@.len(),
        forall|i: int| 0 <= i < v@.len() ==> (#[trigger] r@[i])@ == v@[i]@,
{
    let mut out: Vec<TypedValue> = Vec::new();
    let mut i: usize = 0;
    while i < v.len()
        invariant
            i <= v.len(),
            out@.len() == i,
            forall|j: int| 0 <= j < i ==> (#[trigger] out@[j])@ == v@[j]@,
        decreases v.len() - i,
    {
        let c = clone_value(&v[i]);
        out.push(c);
        i = i + 1;
    }
    out
}

/// The per-position "keep left" mask: true where the left value is greater
/// or equal, with an absent value below every present one. The mask itself
/// has no absent positions: the comparison is always decided.
pub fn get_larger(lhs: &Vec<TypedValue>, rhs: &Vec<TypedValue>) -> (mask: Vec<bool>)
    requires
        lhs@.len() == rhs@.len(),
    ensures
        mask@.len() == lhs@.len(),
        forall|i: int| 0 <= i < mask@.len() ==> mask@[i] == ge((#[trigger] lhs@[i])@, rhs@[i]@),
{
    let mut mask: Vec<bool> = Vec::new();
    let mut i: usize = 0;
    while i < lhs.len()
        invariant
            lhs@.len() == rhs@.len(),
            i <= lhs.len(),
            mask@.len() == i,
            forall|j: int| 0 <= j < i ==> mask@[j] == ge((#[trigger] lhs@[j])@, rhs@[j]@),
        decreases lhs.len() - i,
    {
        let keep = ge_value(&lhs[i], &rhs[i]);
        mask.push(keep);
        i = i + 1;
    }
    mask
}

/// Merge two columns by a mask: the left value where the mask is true,
/// else the right value.
pub fn zip_select(mask: &Vec<bool>, lhs: &Vec<TypedValue>, rhs: &Vec<TypedValue>) -> (r: Vec<
    TypedValue,
>)
    requires
        mask@.len() == lhs@.len(),
        lhs@.len() == rhs@.len(),
    ensures
        r@.len() == lhs@.len(),
        forall|i: int|
            0 <= i < r@.len() ==> (#[trigger] r@[i])@ == (if mask@[i] {
                lhs@[i]@
            } else {
                rhs@[i]@
            }),
{
    let mut out: Vec<TypedValue> = Vec::new();
    let mut i: usize = 0;
    while i < lhs.len()
        invariant
            mask@.len() == lhs@.len(),
            lhs@.len() == rhs@.len(),
            i <= lhs.len(),
            out@.len() == i,
            forall|j: int|
                0 <= j < i ==> (#[trigger] out@[j])@ == (if mask@[j] {
                    lhs@[j]@
                } else {
                    rhs@[j]@
                }),
        decreases lhs.len() - i,
    {
        let c = if mask[i] {
            clone_value(&lhs[i])
        } else {
            clone_value(&rhs[i])
        };
        out.push(c);
        i = i + 1;
    }
    out
}

/// The column that keeps the larger value at each position, the left one
/// on ties. An entirely absent side returns a copy of the other side, which
/// equals what the mask-and-select path would produce there.
pub fn keep_larger(lhs: &Vec<TypedValue>, rhs: &Vec<TypedValue>) -> (r: Vec<TypedValue>)
    requires
        lhs@.len() == rhs@.len(),
    ensures
        r@.len() == lhs@.len(),
        forall|i: int| 0 <= i < r@.len() ==> (#[trigger] r@[i])@ == pick(lhs@[i]@, rhs@[i]@),
{
    if column_all_null(lhs) {
        let r = clone_column(rhs);
        proof {
            assert forall|i: int| 0 <= i < r@.len() implies (#[trigger] r@[i])@ == pick(
                lhs@[i]@,
                rhs@[i]@,
            ) by {
                assert(lhs@[i]@ == Val::Null);
            }
        }
        return r;
    }
    if column_all_null(rhs) {
        let r = clone_column(lhs);
        proof {
            assert forall|i: int| 0 <= i < r@.len() implies (#[trigger] r@[i])@ == pick(
                lhs@[i]@,
                rhs@[i]@,
            ) by {
                assert(rhs@[i]@ == Val::Null);
            }
        }
        return r;
    }
    let mask = get_larger(lhs, rhs);
    zip_select(&mask, lhs, rhs)
}

} // verus!
