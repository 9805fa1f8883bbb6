//! The general properties of the reduction, stated and proved.
//!
//! `greatest` pins its result, row by row, to `fold_max` over the row's
//! values (see `crate::greatest`). The laws here say what that fold does
//! for every input:
//! - an absent value never wins against anything, and a fold of absent
//!   values stays absent;
//! - a NaN anywhere among the folded values makes the result NaN,
//!   infinities included;
//! - the reduction does not depend on the operand order: any two
//!   arrangements of one multiset of operands resolve to the same common
//!   type or both fail (`lemma_resolve_operands_permutation`), and fold
//!   every row to the same value (`lemma_row_fold_permutation`), as long
//!   as no folded value carries a NaN payload — two different NaN payloads
//!   of one width are tied in the order, and either may win.

use vstd::prelude::*;

use crate::cast::{lemma_convert_has_type, spec_convert};
use crate::float_bits::{f32_is_nan, f64_is_nan, lemma_f32_key_nan_strict, lemma_f64_key_nan_strict};
use crate::coerce::{lemma_resolve_permutation, spec_resolve};
use crate::greatest::{fold_max, lemma_tags_of, row_vals, scalar_vals, tags_of, vector_row, ColumnarOperand};
use crate::greatest::all_wf;
use crate::tags::spec_coerces_to;
use crate::order::{
    ge, le, lemma_equiv_nan_free_eq, lemma_le_both_implies_equiv, lemma_le_refl, lemma_le_total,
    lemma_le_trans3, pick,
};
use crate::tags::TypeTag;
use crate::values::{
    all_have_type, all_nan_free, has_type, lemma_all_have_type, lemma_all_nan_free, nan_free, Val,
};

verus! {

/// The value is a float NaN.
pub open spec fn is_nan_val(v: Val) -> bool {
    match v {
        Val::Float32(b) => f32_is_nan(b),
        Val::Float64(b) => f64_is_nan(b),
        _ => false,
    }
}

/// The fold returns one of its inputs.
pub proof fn lemma_fold_max_in(s: Seq<Val>)
    requires
        s.len() >= 1,
    ensures
        s.contains(fold_max(s)),
    decreases s.len(),
{
    if s.len() == 1 {
        assert(s[0] == fold_max(s));
    } else {
        lemma_fold_max_in(s.drop_last());
        let p = s.drop_last();
        if ge(fold_max(p), s.last()) {
            let k = choose|k: int| 0 <= k < p.len() && p[k] == fold_max(p);
            assert(s[k] == fold_max(s));
        } else {
            assert(s[s.len() - 1] == fold_max(s));
        }
    }
}

/// Every input is less than or equal to the fold, for inputs of one
/// common type.
pub proof fn lemma_fold_max_ub(s: Seq<Val>, t: TypeTag)
    requires
        s.len() >= 1,
        all_have_type(s, t),
    ensures
        forall|k: int| 0 <= k < s.len() ==> le(#[trigger] s[k], fold_max(s)),
    decreases s.len(),
{
    lemma_all_have_type(s, t);
    if s.len() == 1 {
        lemma_le_refl(s[0]);
        assert(s[0] == fold_max(s));
    } else {
        let p = s.drop_last();
        lemma_all_have_type(p, t);
        assert forall|k: int| 0 <= k < p.len() implies has_type(#[trigger] p[k], t) by {
            assert(p[k] == s[k]);
        }
        lemma_fold_max_ub(p, t);
        let f = fold_max(p);
        let x = s.last();
        lemma_fold_max_in(p);
        let k0 = choose|k0: int| 0 <= k0 < p.len() && p[k0] == f;
        assert(has_type(f, t));
        assert(has_type(x, t));
        lemma_le_refl(x);
        lemma_le_refl(f);
        if ge(f, x) {
            assert forall|k: int| 0 <= k < s.len() implies le(#[trigger] s[k], fold_max(s)) by {
                if k < s.len() - 1 {
                    assert(p[k] == s[k]);
                }
            }
        } else {
            lemma_le_total(f, x, t);
            assert forall|k: int| 0 <= k < s.len() implies le(#[trigger] s[k], fold_max(s)) by {
                if k < s.len() - 1 {
                    assert(p[k] == s[k]);
                    assert(le(s[k], f));
                    lemma_le_trans3(s[k], f, x);
                }
            }
        }
    }
}

/// Null absorption: an absent value never wins. Picking against an absent
/// value returns the other value, whatever its type, nested lists
/// included; the greatest of two absent values is absent.
pub proof fn lemma_null_absorption(x: Val)
    ensures
        pick(Val::Null, x) == x,
        pick(x, Val::Null) == x,
        fold_max(seq![Val::Null, x]) == x,
        fold_max(seq![x, Val::Null]) == x,
        fold_max(seq![Val::Null, Val::Null]) == Val::Null,
{
    assert(fold_max(seq![Val::Null]) == Val::Null);
    assert(fold_max(seq![x]) == x);
    let s1 = seq![Val::Null, x];
    assert(s1.drop_last() =~= seq![Val::Null]);
    assert(s1.last() == x);
    assert(fold_max(s1) == pick(fold_max(seq![Val::Null]), x));
    let s2 = seq![x, Val::Null];
    assert(s2.drop_last() =~= seq![x]);
    assert(s2.last() == Val::Null);
    assert(fold_max(s2) == pick(fold_max(seq![x]), Val::Null));
    let s3 = seq![Val::Null, Val::Null];
    assert(s3.drop_last() =~= seq![Val::Null]);
    assert(s3.last() == Val::Null);
    assert(fold_max(s3) == pick(fold_max(seq![Val::Null]), Val::Null));
}

/// Nothing but a NaN sits above a NaN.
pub proof fn lemma_nan_le(x: Val, y: Val)
    requires
        is_nan_val(x),
        le(x, y),
    ensures
        is_nan_val(y),
{
    match (x, y) {
        (Val::Float32(a), Val::Float32(b)) => {
            lemma_f32_key_nan_strict(a);
            lemma_f32_key_nan_strict(b);
        },
        (Val::Float64(a), Val::Float64(b)) => {
            lemma_f64_key_nan_strict(a);
            lemma_f64_key_nan_strict(b);
        },
        _ => {},
    }
}

/// NaN dominance: if any folded value is NaN, the fold is NaN, regardless
/// of infinities among the other values.
pub proof fn lemma_nan_dominance(s: Seq<Val>, k: int, t: TypeTag)
    requires
        0 <= k < s.len(),
        all_have_type(s, t),
        is_nan_val(s[k]),
    ensures
        is_nan_val(fold_max(s)),
{
    lemma_fold_max_ub(s, t);
    lemma_nan_le(s[k], fold_max(s));
}

/// Commutativity under permutation: folding any reordering of one
/// multiset of values of a common type yields the same result, provided no
/// value carries a NaN payload (two NaN payloads of one width are tied in
/// the order, and either of them is an acceptable greatest).
pub proof fn lemma_fold_max_permutation(s1: Seq<Val>, s2: Seq<Val>, t: TypeTag)
    requires
        s1.len() >= 1,
        s1.to_multiset() == s2.to_multiset(),
        all_have_type(s1, t),
        all_nan_free(s1),
    ensures
        fold_max(s1) == fold_max(s2),
{
    broadcast use vstd::seq_lib::group_to_multiset_ensures;

    assert(s1.len() == s1.to_multiset().len());
    assert(s2.len() == s2.to_multiset().len());
    lemma_all_have_type(s1, t);
    lemma_all_nan_free(s1);
    lemma_all_have_type(s2, t);
    assert forall|k: int| 0 <= k < s2.len() implies has_type(#[trigger] s2[k], t) by {
        assert(s2.contains(s2[k]));
        assert(s2.to_multiset().count(s2[k]) > 0);
        assert(s1.to_multiset().count(s2[k]) > 0);
        assert(s1.contains(s2[k]));
        let j = choose|j: int| 0 <= j < s1.len() && s1[j] == s2[k];
        assert(has_type(s1[j], t));
    }
    lemma_fold_max_in(s1);
    lemma_fold_max_in(s2);
    lemma_fold_max_ub(s1, t);
    lemma_fold_max_ub(s2, t);
    let r1 = fold_max(s1);
    let r2 = fold_max(s2);
    assert(s1.contains(r2)) by {
        assert(s2.contains(r2));
        assert(s2.to_multiset().count(r2) > 0);
        assert(s1.to_multiset().count(r2) > 0);
    }
    let j2 = choose|j: int| 0 <= j < s1.len() && s1[j] == r2;
    assert(le(r2, r1));
    assert(s2.contains(r1)) by {
        assert(s1.contains(r1));
        assert(s1.to_multiset().count(r1) > 0);
        assert(s2.to_multiset().count(r1) > 0);
    }
    let j1 = choose|j: int| 0 <= j < s2.len() && s2[j] == r1;
    assert(le(r1, r2));
    lemma_le_both_implies_equiv(r1, r2);
    let j0 = choose|j: int| 0 <= j < s1.len() && s1[j] == r1;
    assert(nan_free(r1));
    lemma_equiv_nan_free_eq(r1, r2);
}


/// The value one operand contributes to row `i`, at the common type.
pub open spec fn contribution(op: ColumnarOperand, ct: TypeTag, i: int) -> Val {
    if op is Vector {
        spec_convert(op.row(i), ct)
    } else {
        spec_convert(op.row(0), ct)
    }
}

/// All operands' contributions to row `i`, in operand order.
pub open spec fn contrib_seq(ops: Seq<ColumnarOperand>, ct: TypeTag, i: int) -> Seq<Val>
    decreases ops.len(),
{
    if ops.len() == 0 {
        Seq::empty()
    } else {
        contrib_seq(ops.drop_last(), ct, i).push(contribution(ops.last(), ct, i))
    }
}

/// A row's folded values are the operands' contributions, as a multiset:
/// the reduction only reorders them (scalars first).
pub proof fn lemma_row_vals_as_contribs(ops: Seq<ColumnarOperand>, ct: TypeTag, i: int)
    ensures
        row_vals(ops, ct, i).to_multiset() == contrib_seq(ops, ct, i).to_multiset(),
    decreases ops.len(),
{
    broadcast use vstd::seq_lib::group_to_multiset_ensures;
    broadcast use vstd::multiset::group_multiset_axioms;

    let s = scalar_vals(ops, ct);
    let t = vector_row(ops, ct, i);
    vstd::seq_lib::lemma_multiset_commutative(s, t);
    if ops.len() > 0 {
        let p = ops.drop_last();
        let sp = scalar_vals(p, ct);
        let tp = vector_row(p, ct, i);
        let c = contribution(ops.last(), ct, i);
        lemma_row_vals_as_contribs(p, ct, i);
        vstd::seq_lib::lemma_multiset_commutative(sp, tp);
        if ops.last() is Vector {
            assert(s == sp && t == tp.push(c));
            assert((sp + tp.push(c)).to_multiset() =~= (sp + tp).to_multiset().insert(c));
        } else {
            assert(s == sp.push(c) && t == tp);
            vstd::seq_lib::lemma_multiset_commutative(sp.push(c), tp);
            assert((sp.push(c) + tp).to_multiset() =~= (sp + tp).to_multiset().insert(c));
        }
        assert(contrib_seq(ops, ct, i).to_multiset() =~= contrib_seq(p, ct, i).to_multiset().insert(
            c,
        ));
    } else {
        assert(row_vals(ops, ct, i) =~= Seq::<Val>::empty());
        assert(row_vals(ops, ct, i).to_multiset() =~= contrib_seq(ops, ct, i).to_multiset());
    }
}

/// Removing one operand removes exactly its contribution.
pub proof fn lemma_contrib_seq_remove(ops: Seq<ColumnarOperand>, j: int, ct: TypeTag, i: int)
    requires
        0 <= j < ops.len(),
    ensures
        contrib_seq(ops.remove(j), ct, i).to_multiset() == contrib_seq(
            ops,
            ct,
            i,
        ).to_multiset().remove(contribution(ops[j], ct, i)),
    decreases ops.len(),
{
    broadcast use vstd::seq_lib::group_to_multiset_ensures;
    broadcast use vstd::multiset::group_multiset_axioms;

    let c_last = contribution(ops.last(), ct, i);
    let c_j = contribution(ops[j], ct, i);
    if j == ops.len() - 1 {
        assert(ops.remove(j) =~= ops.drop_last());
        assert(contrib_seq(ops, ct, i).to_multiset().remove(c_j) =~= contrib_seq(
            ops.drop_last(),
            ct,
            i,
        ).to_multiset());
    } else {
        let p = ops.drop_last();
        lemma_contrib_seq_remove(p, j, ct, i);
        assert(p[j] == ops[j]);
        lemma_contrib_count_positive(p, j, ct, i);
        assert(ops.remove(j).last() == ops.last());
        assert(ops.remove(j).drop_last() =~= p.remove(j));
        assert(contrib_seq(ops.remove(j), ct, i).to_multiset() =~= contrib_seq(
            p.remove(j),
            ct,
            i,
        ).to_multiset().insert(c_last));
        assert(contrib_seq(ops, ct, i).to_multiset() =~= contrib_seq(
            p,
            ct,
            i,
        ).to_multiset().insert(c_last));
        assert(contrib_seq(p.remove(j), ct, i).to_multiset().insert(c_last) =~= contrib_seq(
            ops,
            ct,
            i,
        ).to_multiset().remove(c_j));
    }
}

/// Reordering the operands reorders their contributions.
pub proof fn lemma_contrib_seq_permutation(
    ops1: Seq<ColumnarOperand>,
    ops2: Seq<ColumnarOperand>,
    ct: TypeTag,
    i: int,
)
    requires
        ops1.to_multiset() == ops2.to_multiset(),
    ensures
        contrib_seq(ops1, ct, i).to_multiset() == contrib_seq(ops2, ct, i).to_multiset(),
    decreases ops1.len(),
{
    broadcast use vstd::seq_lib::group_to_multiset_ensures;
    broadcast use vstd::multiset::group_multiset_axioms;

    assert(ops1.len() == ops1.to_multiset().len());
    assert(ops2.len() == ops2.to_multiset().len());
    if ops1.len() == 0 {
        assert(contrib_seq(ops1, ct, i).to_multiset() =~= contrib_seq(ops2, ct, i).to_multiset());
    } else {
        let x = ops1.last();
        let p1 = ops1.drop_last();
        assert(ops1.to_multiset().count(x) > 0) by {
            assert(ops1.contains(x)) by {
                assert(ops1[ops1.len() - 1] == x);
            }
        }
        assert(ops2.to_multiset().count(x) > 0);
        assert(ops2.contains(x));
        let j = choose|j: int| 0 <= j < ops2.len() && ops2[j] == x;
        let p2 = ops2.remove(j);
        assert(p2.to_multiset() == ops2.to_multiset().remove(x));
        assert(p1.to_multiset() =~= p2.to_multiset()) by {
            assert(ops1 =~= p1.push(x));
            assert(ops1.to_multiset() =~= p1.to_multiset().insert(x));
        }
        lemma_contrib_seq_permutation(p1, p2, ct, i);
        lemma_contrib_seq_remove(ops2, j, ct, i);
        assert(contrib_seq(ops1, ct, i).to_multiset() =~= contrib_seq(
            p1,
            ct,
            i,
        ).to_multiset().insert(contribution(x, ct, i)));
        assert(contrib_seq(ops2, ct, i).to_multiset() =~= contrib_seq(
            p2,
            ct,
            i,
        ).to_multiset().insert(contribution(x, ct, i))) by {
            assert(contrib_seq(ops2, ct, i).to_multiset().count(contribution(x, ct, i)) > 0) by {
                lemma_contrib_count_positive(ops2, j, ct, i);
            }
        }
    }
}

/// Some operand's contribution is in the contribution multiset.
proof fn lemma_contrib_count_positive(ops: Seq<ColumnarOperand>, j: int, ct: TypeTag, i: int)
    requires
        0 <= j < ops.len(),
    ensures
        contrib_seq(ops, ct, i).to_multiset().count(contribution(ops[j], ct, i)) > 0,
    decreases ops.len(),
{
    broadcast use vstd::seq_lib::group_to_multiset_ensures;
    broadcast use vstd::multiset::group_multiset_axioms;

    if j == ops.len() - 1 {
    } else {
        lemma_contrib_count_positive(ops.drop_last(), j, ct, i);
        assert(ops.drop_last()[j] == ops[j]);
    }
}

/// Scalar contributions inhabit the common type, for well-formed operands
/// whose declared types coerce into it.
pub proof fn lemma_scalar_vals_have_type(ops: Seq<ColumnarOperand>, ct: TypeTag)
    requires
        all_wf(ops),
        forall|k: int| 0 <= k < ops.len() ==> spec_coerces_to((#[trigger] ops[k]).spec_tag(), ct),
    ensures
        all_have_type(scalar_vals(ops, ct), ct),
    decreases ops.len(),
{
    if ops.len() > 0 {
        let p = ops.drop_last();
        assert forall|k: int| 0 <= k < p.len() implies (#[trigger] p[k]).wf() && spec_coerces_to(
            p[k].spec_tag(),
            ct,
        ) by {
            assert(p[k] == ops[k]);
        }
        lemma_scalar_vals_have_type(p, ct);
        if !(ops.last() is Vector) {
            assert(ops[ops.len() - 1].wf());
            lemma_convert_has_type(ops.last().row(0), ops.last().spec_tag(), ct);
            let c = spec_convert(ops.last().row(0), ct);
            assert(scalar_vals(ops, ct) == scalar_vals(p, ct).push(c));
            assert(scalar_vals(p, ct).push(c).drop_last() =~= scalar_vals(p, ct));
            assert(scalar_vals(p, ct).push(c).last() == c);
        }
    }
}

/// Vector contributions at a row inside every vector's bounds inhabit the
/// common type.
pub proof fn lemma_vector_row_have_type(ops: Seq<ColumnarOperand>, ct: TypeTag, i: int)
    requires
        all_wf(ops),
        forall|k: int| 0 <= k < ops.len() ==> spec_coerces_to((#[trigger] ops[k]).spec_tag(), ct),
        forall|k: int|
            0 <= k < ops.len() && (#[trigger] ops[k]) is Vector ==> 0 <= i < ops[k].spec_len(),
    ensures
        all_have_type(vector_row(ops, ct, i), ct),
    decreases ops.len(),
{
    if ops.len() > 0 {
        let p = ops.drop_last();
        assert forall|k: int| 0 <= k < p.len() implies (#[trigger] p[k]).wf() && spec_coerces_to(
            p[k].spec_tag(),
            ct,
        ) && (p[k] is Vector ==> 0 <= i < p[k].spec_len()) by {
            assert(p[k] == ops[k]);
        }
        lemma_vector_row_have_type(p, ct, i);
        if ops.last() is Vector {
            assert(ops[ops.len() - 1].wf());
            assert(ops[ops.len() - 1] is Vector);
            assert(has_type(ops.last().row(i), ops.last().spec_tag())) by {
                lemma_all_have_type_of_vector(ops.last(), i);
            }
            lemma_convert_has_type(ops.last().row(i), ops.last().spec_tag(), ct);
            let c = spec_convert(ops.last().row(i), ct);
            assert(vector_row(ops, ct, i) == vector_row(p, ct, i).push(c));
            assert(vector_row(p, ct, i).push(c).drop_last() =~= vector_row(p, ct, i));
            assert(vector_row(p, ct, i).push(c).last() == c);
        }
    }
}

/// A well-formed vector's value at an in-bounds row inhabits its type.
proof fn lemma_all_have_type_of_vector(op: ColumnarOperand, i: int)
    requires
        op.wf(),
        op is Vector,
        0 <= i < op.spec_len(),
    ensures
        has_type(op.row(i), op.spec_tag()),
{
}

/// A whole row's values inhabit the common type.
pub proof fn lemma_row_vals_have_type(ops: Seq<ColumnarOperand>, ct: TypeTag, i: int)
    requires
        all_wf(ops),
        forall|k: int| 0 <= k < ops.len() ==> spec_coerces_to((#[trigger] ops[k]).spec_tag(), ct),
        forall|k: int|
            0 <= k < ops.len() && (#[trigger] ops[k]) is Vector ==> 0 <= i < ops[k].spec_len(),
    ensures
        all_have_type(row_vals(ops, ct, i), ct),
{
    lemma_scalar_vals_have_type(ops, ct);
    lemma_vector_row_have_type(ops, ct, i);
    let s = scalar_vals(ops, ct);
    let t = vector_row(ops, ct, i);
    lemma_all_have_type(s, ct);
    lemma_all_have_type(t, ct);
    lemma_all_have_type(s + t, ct);
    assert forall|k: int| 0 <= k < (s + t).len() implies has_type(#[trigger] (s + t)[k], ct) by {
        if k < s.len() {
            assert((s + t)[k] == s[k]);
        } else {
            assert((s + t)[k] == t[k - s.len()]);
        }
    }
}

/// Commutativity under permutation, at the operand level: for one multiset
/// of operands, every arrangement folds each row to the same value, as
/// long as no folded value carries a NaN payload. Together with the row
/// contract of `greatest`, any two arrangements of one operand multiset
/// produce identical rows.
pub proof fn lemma_row_fold_permutation(
    ops1: Seq<ColumnarOperand>,
    ops2: Seq<ColumnarOperand>,
    ct: TypeTag,
    i: int,
)
    requires
        ops1.to_multiset() == ops2.to_multiset(),
        row_vals(ops1, ct, i).len() >= 1,
        all_have_type(row_vals(ops1, ct, i), ct),
        all_nan_free(row_vals(ops1, ct, i)),
    ensures
        fold_max(row_vals(ops1, ct, i)) == fold_max(row_vals(ops2, ct, i)),
{
    lemma_row_vals_as_contribs(ops1, ct, i);
    lemma_row_vals_as_contribs(ops2, ct, i);
    lemma_contrib_seq_permutation(ops1, ops2, ct, i);
    lemma_fold_max_permutation(row_vals(ops1, ct, i), row_vals(ops2, ct, i), ct);
}


/// Type resolution ignores the operand order: any two arrangements of one
/// multiset of operands resolve to the same common type, or both fail.
pub proof fn lemma_resolve_operands_permutation(
    ops1: Seq<ColumnarOperand>,
    ops2: Seq<ColumnarOperand>,
)
    requires
        ops1.to_multiset() == ops2.to_multiset(),
    ensures
        spec_resolve(tags_of(ops1)) == spec_resolve(tags_of(ops2)),
{
    broadcast use vstd::seq_lib::group_to_multiset_ensures;

    lemma_tags_of(ops1);
    lemma_tags_of(ops2);
    assert forall|k: int|
        0 <= k < tags_of(ops1).len() implies tags_of(ops2).contains(
        #[trigger] tags_of(ops1)[k],
    ) by {
        assert(ops1.contains(ops1[k]));
        assert(ops1.to_multiset().count(ops1[k]) > 0);
        assert(ops2.to_multiset().count(ops1[k]) > 0);
        assert(ops2.contains(ops1[k]));
        let j = choose|j: int| 0 <= j < ops2.len() && ops2[j] == ops1[k];
        assert(tags_of(ops2)[j] == tags_of(ops1)[k]);
    }
    assert forall|k: int|
        0 <= k < tags_of(ops2).len() implies tags_of(ops1).contains(
        #[trigger] tags_of(ops2)[k],
    ) by {
        assert(ops2.contains(ops2[k]));
        assert(ops2.to_multiset().count(ops2[k]) > 0);
        assert(ops1.to_multiset().count(ops2[k]) > 0);
        assert(ops1.contains(ops2[k]));
        let j = choose|j: int| 0 <= j < ops1.len() && ops1[j] == ops2[k];
        assert(tags_of(ops1)[j] == tags_of(ops2)[k]);
    }
    lemma_resolve_permutation(tags_of(ops1), tags_of(ops2));
}

} // verus!
