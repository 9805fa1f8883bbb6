//! Type-coercion resolution.
//!
//! Given the declared types of all operands, `find_coerced_type` returns
//! one type that every operand type losslessly coerces into, or fails
//! naming two conflicting types. `Null` entries are dropped first (the
//! null type is compatible with everything and contributes nothing); if
//! nothing remains the common type is `Null` itself.
//!
//! The search is order-independent: a candidate wins when it dominates
//! (accepts coercions from) every remaining type, and the first dominating
//! candidate in operand order is returned. Since the coercion relation is a
//! partial order, any two dominators coerce into each other and are equal,
//! so the result does not depend on the operand order. When no candidate
//! dominates, some pair of types is incomparable — this is proved, not
//! assumed — and the first such pair in operand order is reported.

use vstd::prelude::*;

use crate::errors::GreatestError;
use crate::tags::{
    clone_tag, coerces_to, lemma_coerces_to_antisym, lemma_coerces_to_refl, lemma_coerces_to_trans,
    spec_coerces_to, tag_is_null, TypeTag,
};

verus! {

/// The sequence without its `Null` entries, in order.
pub open spec fn drop_nulls(s: Seq<TypeTag>) -> Seq<TypeTag>
    decreases s.len(),
{
    if s.len() == 0 {
        Seq::empty()
    } else if s.last() == TypeTag::Null {
        drop_nulls(s.drop_last())
    } else {
        drop_nulls(s.drop_last()).push(s.last())
    }
}

/// Every type in `s` coerces into `t`.
pub open spec fn dominates(s: Seq<TypeTag>, t: TypeTag) -> bool {
    forall|j: int| 0 <= j < s.len() ==> spec_coerces_to(#[trigger] s[j], t)
}

/// The first entry at or after `i` that dominates the whole sequence.
pub open spec fn first_dominator_from(s: Seq<TypeTag>, i: int) -> Option<TypeTag>
    decreases s.len() - i,
{
    if i < 0 || i >= s.len() {
        None
    } else if dominates(s, s[i]) {
        Some(s[i])
    } else {
        first_dominator_from(s, i + 1)
    }
}

/// The first entry that dominates the whole sequence.
pub open spec fn first_dominator(s: Seq<TypeTag>) -> Option<TypeTag> {
    first_dominator_from(s, 0)
}

/// Neither type coerces into the other.
pub open spec fn incomparable(a: TypeTag, b: TypeTag) -> bool {
    !spec_coerces_to(a, b) && !spec_coerces_to(b, a)
}

/// The first entry after `j - 1` that is incomparable with entry `i`.
pub open spec fn first_conflict_with(s: Seq<TypeTag>, i: int, j: int) -> Option<
    (TypeTag, TypeTag),
>
    decreases s.len() - j,
{
    if j < 0 || j >= s.len() || i < 0 || i >= s.len() {
        None
    } else if incomparable(s[i], s[j]) {
        Some((s[i], s[j]))
    } else {
        first_conflict_with(s, i, j + 1)
    }
}

/// The first incomparable pair, scanning pairs in order.
pub open spec fn first_conflict_from(s: Seq<TypeTag>, i: int) -> Option<(TypeTag, TypeTag)>
    decreases s.len() - i,
{
    if i < 0 || i >= s.len() {
        None
    } else {
        match first_conflict_with(s, i, i + 1) {
            Some(p) => Some(p),
            None => first_conflict_from(s, i + 1),
        }
    }
}

/// The first incomparable pair of the sequence.
pub open spec fn first_conflict(s: Seq<TypeTag>) -> Option<(TypeTag, TypeTag)> {
    first_conflict_from(s, 0)
}

/// The resolved common type: `Null` when every entry is `Null`, else the
/// first dominating non-null entry, if any.
pub open spec fn spec_resolve(types: Seq<TypeTag>) -> Option<TypeTag> {
    let nn = drop_nulls(types);
    if nn.len() == 0 {
        Some(TypeTag::Null)
    } else {
        first_dominator(nn)
    }
}

/// What `drop_nulls` keeps: exactly the non-null entries.
pub proof fn lemma_drop_nulls_props(s: Seq<TypeTag>)
    ensures
        forall|i: int|
            0 <= i < drop_nulls(s).len() ==> s.contains(#[trigger] drop_nulls(s)[i]) && drop_nulls(
                s,
            )[i] != TypeTag::Null,
        forall|i: int| 0 <= i < s.len() && s[i] != TypeTag::Null ==> drop_nulls(s).contains(
            #[trigger] s[i],
        ),
    decreases s.len(),
{
    if s.len() > 0 {
        let p = s.drop_last();
        lemma_drop_nulls_props(p);
        assert forall|i: int|
            0 <= i < drop_nulls(s).len() implies s.contains(#[trigger] drop_nulls(s)[i])
            && drop_nulls(s)[i] != TypeTag::Null by {
            if i < drop_nulls(p).len() {
                assert(drop_nulls(s)[i] == drop_nulls(p)[i]);
                assert(p.contains(drop_nulls(p)[i]));
                let k = choose|k: int| 0 <= k < p.len() && p[k] == drop_nulls(p)[i];
                assert(s[k] == drop_nulls(p)[i]);
            } else {
                assert(drop_nulls(s)[i] == s.last());
                assert(s[s.len() - 1] == s.last());
            }
        }
        assert forall|i: int|
            0 <= i < s.len() && s[i] != TypeTag::Null implies drop_nulls(s).contains(
            #[trigger] s[i],
        ) by {
            if i < s.len() - 1 {
                assert(p[i] == s[i]);
                assert(drop_nulls(p).contains(s[i]));
                let k = choose|k: int| 0 <= k < drop_nulls(p).len() && drop_nulls(p)[k] == s[i];
                if s.last() == TypeTag::Null {
                    assert(drop_nulls(s)[k] == s[i]);
                } else {
                    assert(drop_nulls(s)[k] == s[i]);
                }
            } else {
                assert(drop_nulls(s).last() == s[i]);
            }
        }
    }
}

/// In a nonempty set of pairwise comparable types, some type dominates all
/// the others: comparability chains a finite set up to a maximum.
pub proof fn lemma_pairwise_comparable_has_dominator(s: Seq<TypeTag>)
    requires
        s.len() > 0,
        forall|i: int, j: int| 0 <= i < j < s.len() ==> !incomparable(s[i], s[j]),
    ensures
        exists|k: int| 0 <= k < s.len() && dominates(s, #[trigger] s[k]),
    decreases s.len(),
{
    if s.len() == 1 {
        lemma_coerces_to_refl(s[0]);
        assert(dominates(s, s[0]));
    } else {
        let p = s.drop_last();
        let x = s.last();
        assert forall|i: int, j: int| 0 <= i < j < p.len() implies !incomparable(p[i], p[j]) by {
            assert(p[i] == s[i]);
            assert(p[j] == s[j]);
        }
        lemma_pairwise_comparable_has_dominator(p);
        let k = choose|k: int| 0 <= k < p.len() && dominates(p, #[trigger] p[k]);
        let m = p[k];
        assert(!incomparable(s[k], s[s.len() - 1]));
        lemma_coerces_to_refl(x);
        if spec_coerces_to(m, x) {
            assert forall|j: int| 0 <= j < s.len() implies spec_coerces_to(#[trigger] s[j], x) by {
                if j < s.len() - 1 {
                    assert(p[j] == s[j]);
                    assert(spec_coerces_to(p[j], m));
                    lemma_coerces_to_trans(s[j], m, x);
                }
            }
            assert(dominates(s, s[s.len() - 1]));
        } else {
            assert(spec_coerces_to(x, m));
            assert forall|j: int| 0 <= j < s.len() implies spec_coerces_to(#[trigger] s[j], m) by {
                if j < s.len() - 1 {
                    assert(p[j] == s[j]);
                }
            }
            assert(dominates(s, s[k]));
        }
    }
}

/// Whether `t` dominates every entry of `s`.
pub fn dominates_all(s: &Vec<TypeTag>, t: &TypeTag) -> (r: bool)
    ensures
        r == dominates(s@, *t),
{
    let mut j: usize = 0;
    while j < s.len()
        invariant
            j <= s.len(),
            forall|k: int| 0 <= k < j ==> spec_coerces_to(#[trigger] s@[k], *t),
        decreases s.len() - j,
    {
        if !coerces_to(&s[j], t) {
            proof {
                assert(!spec_coerces_to(s@[j as int], *t));
            }
            return false;
        }
        j = j + 1;
    }
    true
}

/// Find the common type that every given type coerces into.
///
/// Returns `Ok(Null)` when every entry is `Null`; otherwise `Ok(t)` where
/// `t` is the first non-null entry that dominates all the others; fails
/// with the first incomparable pair when no entry dominates.
pub fn find_coerced_type(types: &Vec<TypeTag>) -> (r: Result<TypeTag, GreatestError>)
    ensures
        spec_resolve(types@) matches Some(t) ==> r matches Ok(rt) && rt == t,
        spec_resolve(types@) is None ==> r is Err,
        r is Err ==> spec_resolve(types@) is None,
        r matches Err(e) ==> first_conflict(drop_nulls(types@)) matches Some(p) && e == (
        GreatestError::IncompatibleTypes { left: p.0, right: p.1 }),
        r matches Ok(t) ==> forall|i: int|
            0 <= i < types@.len() ==> spec_coerces_to(#[trigger] types@[i], t),
{
    let ghost all = types@;
    let mut nn: Vec<TypeTag> = Vec::new();
    let mut i: usize = 0;
    while i < types.len()
        invariant
            i <= types@.len(),
            nn@ == drop_nulls(all.take(i as int)),
            all == types@,
        decreases types@.len() - i,
    {
        proof {
            assert(all.take(i + 1 as int).drop_last() =~= all.take(i as int));
            assert(all.take(i + 1 as int).last() == all[i as int]);
        }
        if !tag_is_null(&types[i]) {
            let t = clone_tag(&types[i]);
            nn.push(t);
        }
        i = i + 1;
    }
    proof {
        assert(all.take(all.len() as int) =~= all);
    }
    let ghost nns = nn@;
    proof {
        assert(nns == drop_nulls(all));
        lemma_drop_nulls_props(all);
    }

    if nn.len() == 0 {
        proof {
            assert forall|k: int| 0 <= k < all.len() implies spec_coerces_to(
                #[trigger] all[k],
                TypeTag::Null,
            ) by {
                assert(all[k] == TypeTag::Null);
            }
        }
        return Ok(TypeTag::Null);
    }

    let n = nn.len();
    let mut i: usize = 0;
    while i < n
        invariant
            n == nn@.len(),
            nn@ == nns,
            i <= n,
            all == types@,
            nns == drop_nulls(all),
            forall|k: int| 0 <= k < i ==> !dominates(nns, #[trigger] nns[k]),
            first_dominator(nns) == first_dominator_from(nns, i as int),
        decreases n - i,
    {
        if dominates_all(&nn, &nn[i]) {
            proof {
                assert(first_dominator_from(nns, i as int) == Some(nns[i as int]));
                lemma_drop_nulls_props(all);
                assert forall|k: int| 0 <= k < all.len() implies spec_coerces_to(
                    #[trigger] all[k],
                    nns[i as int],
                ) by {
                    if all[k] == TypeTag::Null {
                    } else {
                        assert(nns.contains(all[k]));
                        let w = choose|w: int| 0 <= w < nns.len() && nns[w] == all[k];
                        assert(spec_coerces_to(nns[w], nns[i as int]));
                    }
                }
            }
            let t = clone_tag(&nn[i]);
            return Ok(t);
        }
        i = i + 1;
    }
    proof {
        assert(first_dominator(nns) is None);
    }

    let mut i: usize = 0;
    while i < n
        invariant
            n == nn@.len(),
            nn@ == nns,
            i <= n,
            n > 0,
            all == types@,
            nns == drop_nulls(all),
            forall|k: int, l: int| 0 <= k < l < n && k < i ==> !incomparable(nns[k], nns[l]),
            first_conflict(nns) == first_conflict_from(nns, i as int),
            first_dominator(nns) is None,
            forall|k: int| 0 <= k < n ==> !dominates(nns, #[trigger] nns[k]),
        decreases n - i,
    {
        let mut j: usize = i + 1;
        while j < n
            invariant
                n == nn@.len(),
                nn@ == nns,
                i < n,
                i < j,
                j <= n,
                all == types@,
                nns == drop_nulls(all),
                first_dominator(nns) is None,
                first_conflict(nns) == first_conflict_from(nns, i as int),
                forall|l: int| i < l < j ==> !incomparable(nns[i as int], #[trigger] nns[l]),
                first_conflict_with(nns, i as int, (i + 1) as int) == first_conflict_with(
                    nns,
                    i as int,
                    j as int,
                ),
            decreases n - j,
        {
            let fwd = coerces_to(&nn[i], &nn[j]);
            let bwd = coerces_to(&nn[j], &nn[i]);
            if !fwd && !bwd {
                proof {
                    assert(first_conflict_with(nns, i as int, j as int) == Some(
                        (nns[i as int], nns[j as int]),
                    ));
                    assert(first_conflict_from(nns, i as int) == Some(
                        (nns[i as int], nns[j as int]),
                    ));
                }
                let left = clone_tag(&nn[i]);
                let right = clone_tag(&nn[j]);
                return Err(GreatestError::IncompatibleTypes { left, right });
            }
            j = j + 1;
        }
        i = i + 1;
    }
    proof {
        assert forall|k: int, l: int| 0 <= k < l < nns.len() implies !incomparable(
            nns[k],
            nns[l],
        ) by {}
        lemma_pairwise_comparable_has_dominator(nns);
        assert(false);
    }
    Ok(TypeTag::Null)
}

/// Resolve the common type of at least two declared operand types.
///
/// Fails with the matching arity error on fewer than two entries, and with
/// the first incomparable pair when no common type exists.
pub fn resolve_common_type(types: &Vec<TypeTag>) -> (r: Result<TypeTag, GreatestError>)
    ensures
        types@.len() == 0 ==> (r is Err && r->Err_0 == GreatestError::ZeroArguments),
        types@.len() == 1 ==> (r is Err && r->Err_0 == GreatestError::OneArgument),
        (types@.len() >= 2 && spec_resolve(types@) is Some) ==> (r is Ok && r->Ok_0
            == spec_resolve(types@)->0),
        (types@.len() >= 2 && spec_resolve(types@) is None) ==> r is Err,
        (types@.len() >= 2 && r is Err) ==> (first_conflict(drop_nulls(types@)) is Some
            && r->Err_0 == (GreatestError::IncompatibleTypes {
            left: (first_conflict(drop_nulls(types@))->0).0,
            right: (first_conflict(drop_nulls(types@))->0).1,
        })),
        r is Ok ==> forall|i: int|
            0 <= i < types@.len() ==> spec_coerces_to(#[trigger] types@[i], r->Ok_0),
{
    if types.len() == 0 {
        return Err(GreatestError::ZeroArguments);
    }
    if types.len() == 1 {
        return Err(GreatestError::OneArgument);
    }
    find_coerced_type(types)
}

/// The list of types the operands must be converted to: the resolved
/// common type, repeated once per operand.
pub fn coerce_types(types: &Vec<TypeTag>) -> (r: Result<Vec<TypeTag>, GreatestError>)
    ensures
        types@.len() == 0 ==> (r is Err && r->Err_0 == GreatestError::ZeroArguments),
        types@.len() == 1 ==> (r is Err && r->Err_0 == GreatestError::OneArgument),
        types@.len() >= 2 ==> ((r is Ok) == (spec_resolve(types@) is Some)),
        r is Ok ==> (spec_resolve(types@) is Some && r->Ok_0@.len() == types@.len() && (forall|
            k: int,
        | 0 <= k < r->Ok_0@.len() ==> r->Ok_0@[k] == spec_resolve(types@)->0)),
        (types@.len() >= 2 && r is Err) ==> (first_conflict(drop_nulls(types@)) is Some
            && r->Err_0 == (GreatestError::IncompatibleTypes {
            left: (first_conflict(drop_nulls(types@))->0).0,
            right: (first_conflict(drop_nulls(types@))->0).1,
        })),
{
    let t = match resolve_common_type(types) {
        Ok(t) => t,
        Err(e) => {
            return Err(e);
        },
    };
    let ghost ct = t;
    let n = types.len();
    let mut v: Vec<TypeTag> = Vec::new();
    let mut i: usize = 0;
    while i < n
        invariant
            i <= n,
            t == ct,
            v@.len() == i,
            forall|k: int| 0 <= k < i ==> v@[k] == ct,
        decreases n - i,
    {
        let c = clone_tag(&t);
        v.push(c);
        i = i + 1;
    }
    Ok(v)
}


/// A successful search returns a dominating entry of the sequence.
pub proof fn lemma_first_dominator_some(s: Seq<TypeTag>, i: int)
    requires
        first_dominator_from(s, i) is Some,
    ensures
        s.contains(first_dominator_from(s, i)->0),
        dominates(s, first_dominator_from(s, i)->0),
    decreases s.len() - i,
{
    if 0 <= i < s.len() {
        if dominates(s, s[i]) {
            assert(s.contains(s[i]));
        } else {
            lemma_first_dominator_some(s, i + 1);
        }
    }
}

/// A failed search means no entry dominates.
pub proof fn lemma_first_dominator_none(s: Seq<TypeTag>, i: int)
    requires
        i >= 0,
        first_dominator_from(s, i) is None,
    ensures
        forall|k: int| i <= k < s.len() ==> !dominates(s, #[trigger] s[k]),
    decreases s.len() - i,
{
    if 0 <= i < s.len() {
        lemma_first_dominator_none(s, i + 1);
    }
}

/// If some entry dominates, the search succeeds.
pub proof fn lemma_dominator_found(s: Seq<TypeTag>)
    requires
        exists|k: int| 0 <= k < s.len() && dominates(s, #[trigger] s[k]),
    ensures
        first_dominator(s) is Some,
{
    if first_dominator(s) is None {
        lemma_first_dominator_none(s, 0);
        let k = choose|k: int| 0 <= k < s.len() && dominates(s, #[trigger] s[k]);
        assert(false);
    }
}

/// Resolution is order-independent: two type lists made of the same types
/// (each entry of one occurring in the other) resolve alike — to the same
/// common type, or both to a failure.
pub proof fn lemma_resolve_permutation(t1: Seq<TypeTag>, t2: Seq<TypeTag>)
    requires
        forall|k: int| 0 <= k < t1.len() ==> t2.contains(#[trigger] t1[k]),
        forall|k: int| 0 <= k < t2.len() ==> t1.contains(#[trigger] t2[k]),
    ensures
        spec_resolve(t1) == spec_resolve(t2),
{
    let nn1 = drop_nulls(t1);
    let nn2 = drop_nulls(t2);
    lemma_drop_nulls_props(t1);
    lemma_drop_nulls_props(t2);
    assert forall|k: int| 0 <= k < nn1.len() implies nn2.contains(#[trigger] nn1[k]) by {
        assert(t1.contains(nn1[k]));
        let a = choose|a: int| 0 <= a < t1.len() && t1[a] == nn1[k];
        assert(t2.contains(t1[a]));
        let b = choose|b: int| 0 <= b < t2.len() && t2[b] == nn1[k];
        assert(nn2.contains(t2[b]));
    }
    assert forall|k: int| 0 <= k < nn2.len() implies nn1.contains(#[trigger] nn2[k]) by {
        assert(t2.contains(nn2[k]));
        let a = choose|a: int| 0 <= a < t2.len() && t2[a] == nn2[k];
        assert(t1.contains(t2[a]));
        let b = choose|b: int| 0 <= b < t1.len() && t1[b] == nn2[k];
        assert(nn1.contains(t1[b]));
    }
    if nn1.len() == 0 {
        if nn2.len() > 0 {
            assert(nn1.contains(nn2[0]));
            assert(false);
        }
    } else if nn2.len() == 0 {
        assert(nn2.contains(nn1[0]));
        assert(false);
    } else {
        match (first_dominator(nn1), first_dominator(nn2)) {
            (Some(r1), Some(r2)) => {
                lemma_first_dominator_some(nn1, 0);
                lemma_first_dominator_some(nn2, 0);
                let a = choose|a: int| 0 <= a < nn1.len() && nn1[a] == r2;
                assert(spec_coerces_to(r2, r1));
                let b = choose|b: int| 0 <= b < nn2.len() && nn2[b] == r1;
                assert(spec_coerces_to(r1, r2));
                lemma_coerces_to_antisym(r1, r2);
            },
            (Some(r1), None) => {
                lemma_first_dominator_some(nn1, 0);
                let b = choose|b: int| 0 <= b < nn2.len() && nn2[b] == r1;
                assert forall|k: int| 0 <= k < nn2.len() implies spec_coerces_to(
                    #[trigger] nn2[k],
                    r1,
                ) by {
                    let a = choose|a: int| 0 <= a < nn1.len() && nn1[a] == nn2[k];
                }
                assert(dominates(nn2, nn2[b]));
                lemma_dominator_found(nn2);
                assert(false);
            },
            (None, Some(r2)) => {
                lemma_first_dominator_some(nn2, 0);
                let b = choose|b: int| 0 <= b < nn1.len() && nn1[b] == r2;
                assert forall|k: int| 0 <= k < nn1.len() implies spec_coerces_to(
                    #[trigger] nn1[k],
                    r2,
                ) by {
                    let a = choose|a: int| 0 <= a < nn2.len() && nn2[a] == nn1[k];
                }
                assert(dominates(nn1, nn1[b]));
                lemma_dominator_found(nn1);
                assert(false);
            },
            (None, None) => {},
        }
    }
}

} // verus!
