//! The elementwise maximum reduction over columnar operands.
//!
//! An operand is either a scalar (one value, repeated for every row) or a
//! vector of per-row values with a validity bitmap. `greatest` resolves the
//! common type of all operands, widens every value into it, and returns the
//! per-row maximum under the reduction's order: a vector when any input is
//! a vector, else a scalar.
//!
//! The reduction folds left to right with the scalar operands first: all
//! scalars are folded into one before any vector is touched, so only one
//! scalar is ever broadcast to a column; the running column then folds the
//! vector operands in operand order. The contract states the result row by
//! row as `fold_max` over exactly that value sequence.

use vstd::prelude::*;

use crate::cast::{convert_list, convert_value, lemma_convert_has_type, spec_convert};
use crate::cast::lemma_spec_convert_seq;
use crate::coerce::{drop_nulls, find_coerced_type, first_conflict, spec_resolve};
use crate::compare_greater::{keep_larger, keep_larger_scalar};
use crate::errors::GreatestError;
use crate::tags::{clone_tag, spec_coerces_to, TypeTag};
use crate::validity::ValidityBitmap;
use crate::values::{clone_value, has_type, lemma_vals_of, vals_of, value_is_null, TypedValue, Val};
use crate::order::pick;

verus! {

/// Order metadata of an expression, as a host engine tracks it.
#[derive(Debug, PartialEq, Eq, Clone, Copy)]
pub enum SortProperties {
    Ordered { descending: bool, nulls_first: bool },
    Unordered,
    Singleton,
}

/// The reduction keeps whatever order its inputs share: the first input's
/// ordering passes through unchanged.
pub fn output_ordering(input: &Vec<SortProperties>) -> (r: SortProperties)
    requires
        input@.len() >= 1,
    ensures
        r == input@[0],
{
    input[0]
}

/// One input of the reduction: a single repeated value, or a column of
/// per-row values with its validity bitmap.
#[derive(Debug, PartialEq)]
pub enum ColumnarOperand {
    Scalar { tag: TypeTag, value: TypedValue },
    Vector { tag: TypeTag, values: Vec<TypedValue>, validity: ValidityBitmap },
}

impl ColumnarOperand {
    /// Well-formed: every value inhabits the declared type, and a vector's
    /// validity bitmap marks exactly the present values.
    pub open spec fn wf(self) -> bool {
        match self {
            ColumnarOperand::Scalar { tag, value } => has_type(value@, tag),
            ColumnarOperand::Vector { tag, values, validity } => {
                &&& validity@.len() == values@.len()
                &&& forall|i: int|
                    0 <= i < values@.len() ==> has_type((#[trigger] values@[i])@, tag)
                &&& forall|i: int|
                    0 <= i < values@.len() ==> validity@[i] == ((#[trigger] values@[i])@
                        != Val::Null)
            },
        }
    }

    /// The declared type.
    pub open spec fn spec_tag(self) -> TypeTag {
        match self {
            ColumnarOperand::Scalar { tag, .. } => tag,
            ColumnarOperand::Vector { tag, .. } => tag,
        }
    }

    /// The vector length; zero for a scalar.
    pub open spec fn spec_len(self) -> nat {
        match self {
            ColumnarOperand::Scalar { .. } => 0,
            ColumnarOperand::Vector { values, .. } => values@.len(),
        }
    }

    /// The value this operand contributes to row `i`.
    pub open spec fn row(self, i: int) -> Val {
        match self {
            ColumnarOperand::Scalar { value, .. } => value@,
            ColumnarOperand::Vector { values, .. } => values@[i]@,
        }
    }

    /// The declared type.
    pub fn tag(&self) -> (r: &TypeTag)
        ensures
            *r == self.spec_tag(),
    {
        match self {
            ColumnarOperand::Scalar { tag, .. } => tag,
            ColumnarOperand::Vector { tag, .. } => tag,
        }
    }

    /// Whether this operand is a vector.
    pub fn is_vector(&self) -> (r: bool)
        ensures
            r == (*self is Vector),
    {
        matches!(self, ColumnarOperand::Vector { .. })
    }
}

/// Every operand is well-formed.
pub open spec fn all_wf(ops: Seq<ColumnarOperand>) -> bool {
    forall|k: int| 0 <= k < ops.len() ==> (#[trigger] ops[k]).wf()
}

/// All vector operands share one length.
pub open spec fn vectors_same_len(ops: Seq<ColumnarOperand>) -> bool {
    forall|j: int, k: int|
        0 <= j < ops.len() && 0 <= k < ops.len() && (#[trigger] ops[j]) is Vector && (
        #[trigger] ops[k]) is Vector ==> ops[j].spec_len() == ops[k].spec_len()
}

/// Some operand is a vector.
pub open spec fn has_vector(ops: Seq<ColumnarOperand>) -> bool {
    exists|k: int| 0 <= k < ops.len() && (#[trigger] ops[k]) is Vector
}

/// The length of the first vector operand; zero when there is none.
pub open spec fn first_vector_len(ops: Seq<ColumnarOperand>) -> nat
    decreases ops.len(),
{
    if ops.len() == 0 {
        0
    } else if ops.first() is Vector {
        ops.first().spec_len()
    } else {
        first_vector_len(ops.drop_first())
    }
}

/// The declared types of the operands, in order.
pub open spec fn tags_of(ops: Seq<ColumnarOperand>) -> Seq<TypeTag>
    decreases ops.len(),
{
    if ops.len() == 0 {
        Seq::empty()
    } else {
        tags_of(ops.drop_last()).push(ops.last().spec_tag())
    }
}

/// The resolved common type of the operands (meaningful when resolution
/// succeeds).
pub open spec fn common_tag(ops: Seq<ColumnarOperand>) -> TypeTag {
    spec_resolve(tags_of(ops))->0
}

/// The scalar operands' values, converted to the common type, in operand
/// order.
pub open spec fn scalar_vals(ops: Seq<ColumnarOperand>, ct: TypeTag) -> Seq<Val>
    decreases ops.len(),
{
    if ops.len() == 0 {
        Seq::empty()
    } else {
        let prev = scalar_vals(ops.drop_last(), ct);
        if ops.last() is Vector {
            prev
        } else {
            prev.push(spec_convert(ops.last().row(0), ct))
        }
    }
}

/// The vector operands' values at row `i`, converted to the common type,
/// in operand order.
pub open spec fn vector_row(ops: Seq<ColumnarOperand>, ct: TypeTag, i: int) -> Seq<Val>
    decreases ops.len(),
{
    if ops.len() == 0 {
        Seq::empty()
    } else {
        let prev = vector_row(ops.drop_last(), ct, i);
        if ops.last() is Vector {
            prev.push(spec_convert(ops.last().row(i), ct))
        } else {
            prev
        }
    }
}

/// The value sequence the reduction folds for row `i`: scalar operands
/// first, then the vector operands' row values, each converted to the
/// common type.
pub open spec fn row_vals(ops: Seq<ColumnarOperand>, ct: TypeTag, i: int) -> Seq<Val> {
    scalar_vals(ops, ct) + vector_row(ops, ct, i)
}

/// Left fold of the pairwise maximum; ties keep the earlier value.
pub open spec fn fold_max(s: Seq<Val>) -> Val
    recommends
        s.len() >= 1,
    decreases s.len(),
{
    if s.len() <= 1 {
        s.first()
    } else {
        pick(fold_max(s.drop_last()), s.last())
    }
}

/// Folding one more value picks between the fold so far and that value.
pub proof fn lemma_fold_max_push(s: Seq<Val>, x: Val)
    requires
        s.len() >= 1,
    ensures
        fold_max(s.push(x)) == pick(fold_max(s), x),
{
    assert(s.push(x).drop_last() =~= s);
    assert(s.push(x).last() == x);
}

/// A sequence with no scalar contribution holds only vectors.
pub proof fn lemma_scalar_vals_empty(ops: Seq<ColumnarOperand>, ct: TypeTag)
    requires
        scalar_vals(ops, ct).len() == 0,
    ensures
        forall|k: int| 0 <= k < ops.len() ==> (#[trigger] ops[k]) is Vector,
    decreases ops.len(),
{
    if ops.len() > 0 {
        lemma_scalar_vals_empty(ops.drop_last(), ct);
        assert forall|k: int| 0 <= k < ops.len() implies (#[trigger] ops[k]) is Vector by {
            if k < ops.len() - 1 {
                assert(ops.drop_last()[k] == ops[k]);
            } else {
                assert(ops[k] == ops.last());
            }
        }
    }
}

/// Without a vector operand, no row contribution comes from vectors.
pub proof fn lemma_vector_row_empty(ops: Seq<ColumnarOperand>, ct: TypeTag, i: int)
    requires
        !has_vector(ops),
    ensures
        vector_row(ops, ct, i).len() == 0,
    decreases ops.len(),
{
    if ops.len() > 0 {
        assert(!(ops.last() is Vector)) by {
            if ops.last() is Vector {
                assert(ops[ops.len() - 1] is Vector);
            }
        }
        assert(!has_vector(ops.drop_last())) by {
            if has_vector(ops.drop_last()) {
                let k = choose|k: int|
                    0 <= k < ops.drop_last().len() && (#[trigger] ops.drop_last()[k]) is Vector;
                assert(ops[k] is Vector);
            }
        }
        lemma_vector_row_empty(ops.drop_last(), ct, i);
    }
}

/// With a vector operand, every row receives a vector contribution.
pub proof fn lemma_vector_row_nonempty(ops: Seq<ColumnarOperand>, ct: TypeTag, i: int)
    requires
        has_vector(ops),
    ensures
        vector_row(ops, ct, i).len() >= 1,
    decreases ops.len(),
{
    if ops.len() > 0 {
        if ops.last() is Vector {
        } else {
            assert(has_vector(ops.drop_last())) by {
                let k = choose|k: int| 0 <= k < ops.len() && (#[trigger] ops[k]) is Vector;
                assert(ops.drop_last()[k] == ops[k]);
            }
            lemma_vector_row_nonempty(ops.drop_last(), ct, i);
        }
    }
}

/// Some vector operand has the first vector's length.
pub proof fn lemma_first_vector_len_wit(ops: Seq<ColumnarOperand>)
    requires
        has_vector(ops),
    ensures
        exists|j: int|
            0 <= j < ops.len() && (#[trigger] ops[j]) is Vector && ops[j].spec_len()
                == first_vector_len(ops),
    decreases ops.len(),
{
    if ops.len() > 0 {
        if ops.first() is Vector {
            assert(ops[0] is Vector && ops[0].spec_len() == first_vector_len(ops));
        } else {
            assert(has_vector(ops.drop_first())) by {
                let k = choose|k: int| 0 <= k < ops.len() && (#[trigger] ops[k]) is Vector;
                assert(k >= 1);
                assert(ops.drop_first()[k - 1] == ops[k]);
            }
            lemma_first_vector_len_wit(ops.drop_first());
            let j = choose|j: int|
                0 <= j < ops.drop_first().len() && (#[trigger] ops.drop_first()[j]) is Vector
                    && ops.drop_first()[j].spec_len() == first_vector_len(ops.drop_first());
            assert(ops[j + 1] == ops.drop_first()[j]);
            assert(ops[j + 1] is Vector && ops[j + 1].spec_len() == first_vector_len(ops));
        }
    }
}

/// `tags_of` maps each operand to its declared type.
pub proof fn lemma_tags_of(ops: Seq<ColumnarOperand>)
    ensures
        tags_of(ops).len() == ops.len(),
        forall|k: int| 0 <= k < ops.len() ==> tags_of(ops)[k] == (#[trigger] ops[k]).spec_tag(),
    decreases ops.len(),
{
    if ops.len() > 0 {
        lemma_tags_of(ops.drop_last());
        assert forall|k: int|
            0 <= k < ops.len() implies tags_of(ops)[k] == (#[trigger] ops[k]).spec_tag() by {
            if k < ops.len() - 1 {
                assert(ops.drop_last()[k] == ops[k]);
                assert(tags_of(ops)[k] == tags_of(ops.drop_last())[k]);
            }
        }
    }
}

/// The validity bitmap of a column: present exactly where the value is.
pub fn validity_of_column(v: &Vec<TypedValue>) -> (r: ValidityBitmap)
    ensures
        r@.len() == v@.len(),
        forall|i: int| 0 <= i < v@.len() ==> r@[i] == ((#[trigger] v@[i])@ != Val::Null),
{
    let mut bits: Vec<bool> = Vec::new();
    let mut i: usize = 0;
    while i < v.len()
        invariant
            i <= v.len(),
            bits@.len() == i,
            forall|j: int| 0 <= j < i ==> bits@[j] == ((#[trigger] v@[j])@ != Val::Null),
        decreases v.len() - i,
    {
        let p = !value_is_null(&v[i]);
        bits.push(p);
        i = i + 1;
    }
    ValidityBitmap { bits }
}

/// A column that repeats one value.
pub fn broadcast_value(v: &TypedValue, len: usize) -> (r: Vec<TypedValue>)
    ensures
        r@.len() == len,
        forall|i: int| 0 <= i < len ==> (#[trigger] r@[i])@ == v@,
{
    let mut out: Vec<TypedValue> = Vec::new();
    let mut i: usize = 0;
    while i < len
        invariant
            i <= len,
            out@.len() == i,
            forall|j: int| 0 <= j < i ==> (#[trigger] out@[j])@ == v@,
        decreases len - i,
    {
        let c = clone_value(v);
        out.push(c);
        i = i + 1;
    }
    out
}

/// The per-row greatest value of the operands.
///
/// Fails on fewer than two operands, or when the operands' declared types
/// have no common type. On success the result is a vector exactly when
/// some input is a vector (of that vector's length), carries the resolved
/// common type, and holds at each row the `fold_max` of that row's values,
/// scalars first, each converted to the common type.
pub fn greatest(operands: &Vec<ColumnarOperand>) -> (r: Result<ColumnarOperand, GreatestError>)
    requires
        all_wf(operands@),
        vectors_same_len(operands@),
    ensures
        operands@.len() == 0 ==> (r is Err && r->Err_0 == GreatestError::ZeroArguments),
        operands@.len() == 1 ==> (r is Err && r->Err_0 == GreatestError::OneArgument),
        operands@.len() >= 2 ==> ((r is Ok) == (spec_resolve(tags_of(operands@)) is Some)),
        (operands@.len() >= 2 && r is Err) ==> (first_conflict(drop_nulls(tags_of(operands@)))
            is Some && r->Err_0 == (GreatestError::IncompatibleTypes {
            left: (first_conflict(drop_nulls(tags_of(operands@)))->0).0,
            right: (first_conflict(drop_nulls(tags_of(operands@)))->0).1,
        })),
        r is Ok ==> r->Ok_0.wf(),
        r is Ok ==> r->Ok_0.spec_tag() == common_tag(operands@),
        r is Ok ==> ((r->Ok_0 is Vector) == has_vector(operands@)),
        (r is Ok && r->Ok_0 is Vector) ==> r->Ok_0.spec_len() == first_vector_len(operands@),
        (r is Ok && r->Ok_0 is Vector) ==> (forall|i: int|
            0 <= i < r->Ok_0.spec_len() ==> r->Ok_0.row(i) == fold_max(
                row_vals(operands@, common_tag(operands@), i),
            )),
        (r is Ok && !(r->Ok_0 is Vector)) ==> r->Ok_0.row(0) == fold_max(
            row_vals(operands@, common_tag(operands@), 0),
        ),
{
    let ghost ops = operands@;
    let n = operands.len();
    if n == 0 {
        return Err(GreatestError::ZeroArguments);
    }
    if n == 1 {
        return Err(GreatestError::OneArgument);
    }

    let mut tags: Vec<TypeTag> = Vec::new();
    let mut i: usize = 0;
    while i < n
        invariant
            n == ops.len(),
            ops == operands@,
            i <= n,
            tags@ == tags_of(ops.take(i as int)),
        decreases n - i,
    {
        proof {
            assert(ops.take((i + 1) as int).drop_last() =~= ops.take(i as int));
            assert(ops.take((i + 1) as int).last() == ops[i as int]);
        }
        let op = &operands[i];
        let t = clone_tag(op.tag());
        tags.push(t);
        i = i + 1;
    }
    proof {
        assert(ops.take(n as int) =~= ops);
    }

    let ct = match find_coerced_type(&tags) {
        Ok(t) => t,
        Err(e) => {
            return Err(e);
        },
    };
    let ghost gct = ct;
    proof {
        lemma_tags_of(ops);
        assert forall|k: int| 0 <= k < n implies spec_coerces_to(
            (#[trigger] ops[k]).spec_tag(),
            gct,
        ) by {
            assert(tags@[k] == ops[k].spec_tag());
        }
    }

    // Scalar pre-fold: merge every scalar operand into one running value.
    let mut acc: Option<TypedValue> = None;
    let mut i: usize = 0;
    while i < n
        invariant
            n == ops.len(),
            ops == operands@,
            i <= n,
            all_wf(ops),
            ct == gct,
            forall|k: int| 0 <= k < n ==> spec_coerces_to((#[trigger] ops[k]).spec_tag(), gct),
            (acc is Some) == (scalar_vals(ops.take(i as int), gct).len() > 0),
            acc matches Some(a) ==> a@ == fold_max(scalar_vals(ops.take(i as int), gct))
                && has_type(a@, gct),
        decreases n - i,
    {
        proof {
            assert(ops.take((i + 1) as int).drop_last() =~= ops.take(i as int));
            assert(ops.take((i + 1) as int).last() == ops[i as int]);
        }
        let op = &operands[i];
        match op {
            ColumnarOperand::Scalar { value, .. } => {
                let cv = convert_value(value, &ct);
                proof {
                    assert(ops[i as int].wf());
                    lemma_convert_has_type(value@, ops[i as int].spec_tag(), gct);
                }
                acc = match acc {
                    None => Some(cv),
                    Some(a) => {
                        proof {
                            lemma_fold_max_push(scalar_vals(ops.take(i as int), gct), cv@);
                        }
                        Some(keep_larger_scalar(a, cv))
                    },
                };
            },
            ColumnarOperand::Vector { .. } => {},
        }
        i = i + 1;
    }
    proof {
        assert(ops.take(n as int) =~= ops);
    }
    let ghost svals = scalar_vals(ops, gct);

    // Fold the vector operands into a running column, seeding it with the
    // folded scalar broadcast once, if there was any scalar.
    let mut largest: Option<Vec<TypedValue>> = None;
    let mut i: usize = 0;
    while i < n
        invariant
            n == ops.len(),
            ops == operands@,
            i <= n,
            all_wf(ops),
            vectors_same_len(ops),
            ct == gct,
            forall|k: int| 0 <= k < n ==> spec_coerces_to((#[trigger] ops[k]).spec_tag(), gct),
            svals == scalar_vals(ops, gct),
            (acc is Some) == (svals.len() > 0),
            acc matches Some(a) ==> a@ == fold_max(svals) && has_type(a@, gct),
            (largest is Some) == has_vector(ops.take(i as int)),
            largest matches Some(v) ==> exists|j: int|
                0 <= j < i && (#[trigger] ops[j]) is Vector && v@.len() == ops[j].spec_len(),
            largest matches Some(v) ==> (forall|row: int|
                0 <= row < v@.len() ==> (#[trigger] v@[row])@ == fold_max(
                    svals + vector_row(ops.take(i as int), gct, row),
                )),
            largest matches Some(v) ==> (forall|row: int|
                0 <= row < v@.len() ==> has_type((#[trigger] v@[row])@, gct)),
        decreases n - i,
    {
        proof {
            assert(ops.take((i + 1) as int).drop_last() =~= ops.take(i as int));
            assert(ops.take((i + 1) as int).last() == ops[i as int]);
        }
        let op = &operands[i];
        match op {
            ColumnarOperand::Vector { values, .. } => {
                let cvals = convert_list(values, &ct);
                proof {
                    lemma_vals_of(cvals@);
                    lemma_vals_of(values@);
                    lemma_spec_convert_seq(vals_of(values@), gct);
                    assert(ops[i as int].wf());
                    assert forall|row: int| 0 <= row < cvals@.len() implies (
                    #[trigger] cvals@[row])@ == spec_convert(ops[i as int].row(row), gct)
                        && has_type(cvals@[row]@, gct) by {
                        assert(vals_of(cvals@)[row] == spec_convert(vals_of(values@)[row], gct));
                        assert(vals_of(values@)[row] == values@[row]@);
                        assert(vals_of(cvals@)[row] == cvals@[row]@);
                        lemma_convert_has_type(values@[row]@, ops[i as int].spec_tag(), gct);
                    }
                    assert(cvals@.len() == ops[i as int].spec_len());
                }
                largest = match largest {
                    None => {
                        proof {
                            if has_vector(ops.take(i as int)) {
                                assert(false);
                            }
                            lemma_vector_row_empty(ops.take(i as int), gct, 0);
                        }
                        match &acc {
                            None => {
                                proof {
                                    assert forall|row: int|
                                        0 <= row < cvals@.len() implies (#[trigger] cvals@[row])@
                                        == fold_max(
                                        svals + vector_row(ops.take((i + 1) as int), gct, row),
                                    ) by {
                                        lemma_vector_row_empty(ops.take(i as int), gct, row);
                                        assert(svals + vector_row(
                                            ops.take((i + 1) as int),
                                            gct,
                                            row,
                                        ) =~= seq![spec_convert(ops[i as int].row(row), gct)]);
                                    }
                                }
                                Some(cvals)
                            },
                            Some(a) => {
                                let b = broadcast_value(a, cvals.len());
                                let merged = keep_larger(&b, &cvals);
                                proof {
                                    assert forall|row: int|
                                        0 <= row < merged@.len() implies (#[trigger] merged@[row])@
                                        == fold_max(
                                        svals + vector_row(ops.take((i + 1) as int), gct, row),
                                    ) by {
                                        lemma_vector_row_empty(ops.take(i as int), gct, row);
                                        assert(svals + vector_row(
                                            ops.take((i + 1) as int),
                                            gct,
                                            row,
                                        ) =~= svals.push(spec_convert(ops[i as int].row(row), gct)));
                                        lemma_fold_max_push(
                                            svals,
                                            spec_convert(ops[i as int].row(row), gct),
                                        );
                                        assert(merged@[row]@ == pick(b@[row]@, cvals@[row]@));
                                    }
                                }
                                Some(merged)
                            },
                        }
                    },
                    Some(cur) => {
                        proof {
                            let j = choose|j: int|
                                0 <= j < i && (#[trigger] ops[j]) is Vector && cur@.len()
                                    == ops[j].spec_len();
                            assert(ops[i as int].spec_len() == ops[j].spec_len());
                        }
                        let merged = keep_larger(&cur, &cvals);
                        proof {
                            assert forall|row: int|
                                0 <= row < merged@.len() implies (#[trigger] merged@[row])@
                                == fold_max(
                                svals + vector_row(ops.take((i + 1) as int), gct, row),
                            ) by {
                                assert(svals + vector_row(ops.take((i + 1) as int), gct, row) =~= (
                                svals + vector_row(ops.take(i as int), gct, row)).push(
                                    spec_convert(ops[i as int].row(row), gct),
                                ));
                                lemma_vector_row_nonempty(ops.take(i as int), gct, row);
                                lemma_fold_max_push(
                                    svals + vector_row(ops.take(i as int), gct, row),
                                    spec_convert(ops[i as int].row(row), gct),
                                );
                                assert(merged@[row]@ == pick(cur@[row]@, cvals@[row]@));
                            }
                        }
                        Some(merged)
                    },
                };
                proof {
                    assert(ops[i as int] is Vector);
                    assert(has_vector(ops.take((i + 1) as int))) by {
                        assert(ops.take((i + 1) as int)[i as int] is Vector);
                    }
                }
            },
            ColumnarOperand::Scalar { .. } => {
                proof {
                    assert(has_vector(ops.take((i + 1) as int)) == has_vector(
                        ops.take(i as int),
                    )) by {
                        if has_vector(ops.take((i + 1) as int)) {
                            let k = choose|k: int|
                                0 <= k < ops.take((i + 1) as int).len() && (#[trigger] ops.take(
                                    (i + 1) as int,
                                )[k]) is Vector;
                            if k < i {
                                assert(ops.take(i as int)[k] is Vector);
                            } else {
                                assert(ops[i as int] is Vector);
                                assert(false);
                            }
                        }
                        if has_vector(ops.take(i as int)) {
                            let k = choose|k: int|
                                0 <= k < ops.take(i as int).len() && (#[trigger] ops.take(
                                    i as int,
                                )[k]) is Vector;
                            assert(ops.take((i + 1) as int)[k] is Vector);
                        }
                    }
                }
            },
        }
        i = i + 1;
    }
    proof {
        assert(ops.take(n as int) =~= ops);
    }

    match largest {
        Some(vals) => {
            let validity = validity_of_column(&vals);
            proof {
                lemma_first_vector_len_wit(ops);
                let j = choose|j: int|
                    0 <= j < ops.len() && (#[trigger] ops[j]) is Vector && ops[j].spec_len()
                        == first_vector_len(ops);
                let w = choose|w: int|
                    0 <= w < n && (#[trigger] ops[w]) is Vector && vals@.len() == ops[w].spec_len();
                assert(ops[j].spec_len() == ops[w].spec_len());
            }
            Ok(ColumnarOperand::Vector { tag: ct, values: vals, validity })
        },
        None => {
            match acc {
                Some(a) => {
                    proof {
                        lemma_vector_row_empty(ops, gct, 0);
                        assert(row_vals(ops, gct, 0) =~= svals);
                    }
                    Ok(ColumnarOperand::Scalar { tag: ct, value: a })
                },
                None => {
                    proof {
                        lemma_scalar_vals_empty(ops, gct);
                        assert(ops[0] is Vector);
                        assert(has_vector(ops));
                        assert(false);
                    }
                    Err(GreatestError::ZeroArguments)
                },
            }
        },
    }
}

} // verus!
