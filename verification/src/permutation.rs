//! Enumeration of duplicate-free arrangements, a test-support utility.
//!
//! `permutation(v, len)` returns the arrangements of length `len` whose
//! entries are drawn from `v` without reusing a value. The contract states
//! soundness — every returned arrangement has the requested length, draws
//! each entry from `v`, and repeats no value — completeness — every such
//! arrangement is returned (for a positive `len`; the enumeration reports
//! nothing for length zero) — and, for an input of pairwise-distinct
//! values, that the returned arrangements are pairwise distinct, so each
//! one occurs exactly once. (With duplicated input values the enumeration
//! revisits the same arrangement once per duplicate, since entries are
//! tracked by value.)

use vstd::prelude::*;

verus! {

/// Whether the vector holds the value.
pub fn contains_value(v: &Vec<i64>, x: i64) -> (r: bool)
    ensures
        r == v@.contains(x),
{
    let mut i: usize = 0;
    while i < v.len()
        invariant
            i <= v@.len(),
            forall|j: int| 0 <= j < i ==> v@[j] != x,
        decreases v.len() - i,
    {
        if v[i] == x {
            return true;
        }
        i = i + 1;
    }
    proof {
        if v@.contains(x) {
            let j = choose|j: int| 0 <= j < v@.len() && v@[j] == x;
        }
    }
    false
}

/// An arrangement drawn from `v`: every entry occurs in `v` and no value
/// repeats.
pub open spec fn drawn_from(c: Seq<i64>, v: Seq<i64>) -> bool {
    &&& forall|p: int| 0 <= p < c.len() ==> v.contains(#[trigger] c[p])
    &&& forall|p: int, q: int| 0 <= p < q < c.len() ==> c[p] != c[q]
}

/// The arrangement occurs among the collected ones.
pub open spec fn appears_in(out: Seq<Vec<i64>>, c: Seq<i64>) -> bool {
    exists|k: int| 0 <= k < out.len() && (#[trigger] out[k])@ == c
}

/// No two entries of the sequence hold the same value.
pub open spec fn distinct_vals(v: Seq<i64>) -> bool {
    forall|p: int, q: int| 0 <= p < q < v.len() ==> v[p] != v[q]
}

/// Extend one partial arrangement in every possible way, collecting every
/// completed arrangement that starts with it, each exactly once when the
/// input values are pairwise distinct.
fn extend_arrangements(v: &Vec<i64>, len: usize, current: Vec<i64>, out: &mut Vec<Vec<i64>>)
    requires
        current@.len() <= len,
        drawn_from(current@, v@),
    ensures
        final(out)@.len() >= old(out)@.len(),
        forall|k: int| 0 <= k < old(out)@.len() ==> final(out)@[k] == old(out)@[k],
        forall|k: int|
            old(out)@.len() <= k < final(out)@.len() ==> (#[trigger] final(out)@[k])@.len() == len
                && drawn_from(final(out)@[k]@, v@),
        forall|k: int|
            old(out)@.len() <= k < final(out)@.len() ==> (#[trigger] final(out)@[k])@.subrange(
                0,
                current@.len() as int,
            ) == current@,
        forall|c: Seq<i64>|
            (c.len() == len && drawn_from(c, v@) && #[trigger] c.subrange(
                0,
                current@.len() as int,
            ) == current@) ==> appears_in(final(out)@, c),
        distinct_vals(v@) ==> (forall|k: int, l: int|
            old(out)@.len() <= k < l < final(out)@.len() ==> (#[trigger] final(out)@[k])@ != (
            #[trigger] final(out)@[l])@),
    decreases len - current@.len(),
{
    if current.len() == len {
        let ghost cur = current@;
        out.push(current);
        proof {
            assert(out@[out@.len() - 1]@ == cur);
            assert(cur.subrange(0, cur.len() as int) =~= cur);
            assert forall|c: Seq<i64>|
                (c.len() == len && drawn_from(c, v@) && #[trigger] c.subrange(
                    0,
                    cur.len() as int,
                ) == cur) implies appears_in(out@, c) by {
                assert(c.subrange(0, c.len() as int) =~= c);
                assert(out@[out@.len() - 1]@ == c);
            }
        }
        return ;
    }
    let ghost cur = current@;
    let mut i: usize = 0;
    while i < v.len()
        invariant
            current@ == cur,
            cur.len() < len,
            drawn_from(cur, v@),
            i <= v@.len(),
            out@.len() >= old(out)@.len(),
            forall|k: int| 0 <= k < old(out)@.len() ==> out@[k] == old(out)@[k],
            forall|k: int|
                old(out)@.len() <= k < out@.len() ==> (#[trigger] out@[k])@.len() == len
                    && drawn_from(out@[k]@, v@),
            forall|k: int|
                old(out)@.len() <= k < out@.len() ==> (#[trigger] out@[k])@.subrange(
                    0,
                    cur.len() as int,
                ) == cur,
            forall|k: int|
                old(out)@.len() <= k < out@.len() ==> (exists|i0: int|
                    0 <= i0 < i && (#[trigger] out@[k])@[cur.len() as int] == v@[i0]),
            forall|c: Seq<i64>|
                (c.len() == len && drawn_from(c, v@) && #[trigger] c.subrange(
                    0,
                    cur.len() as int,
                ) == cur && (exists|i0: int| 0 <= i0 < i && v@[i0] == c[cur.len() as int]))
                    ==> appears_in(out@, c),
            distinct_vals(v@) ==> (forall|k: int, l: int|
                old(out)@.len() <= k < l < out@.len() ==> (#[trigger] out@[k])@ != (
                #[trigger] out@[l])@),
        decreases v.len() - i,
    {
        let ghost out_before = out@;
        if !contains_value(&current, v[i]) {
            let mut next: Vec<i64> = Vec::new();
            let mut p: usize = 0;
            while p < current.len()
                invariant
                    p <= current@.len(),
                    next@ =~= current@.subrange(0, p as int),
                decreases current.len() - p,
            {
                next.push(current[p]);
                p = p + 1;
            }
            proof {
                assert(next@ =~= current@);
            }
            next.push(v[i]);
            proof {
                assert(v@.contains(v@[i as int]));
                assert forall|a: int, b: int| 0 <= a < b < next@.len() implies next@[a]
                    != next@[b] by {
                    if b < next@.len() - 1 {
                        assert(current@[a] != current@[b]);
                    } else {
                        assert(!current@.contains(v@[i as int]));
                        assert(next@[a] == current@[a]);
                    }
                }
            }
            let ghost nxt = next@;
            extend_arrangements(v, len, next, out);
            proof {
                // every entry this call added starts with `cur` and holds
                // `v[i]` right after it
                assert forall|k: int|
                    out_before.len() <= k < out@.len() implies (#[trigger] out@[k])@.subrange(
                    0,
                    cur.len() as int,
                ) == cur && out@[k]@[cur.len() as int] == v@[i as int] by {
                    assert(out@[k]@.subrange(0, nxt.len() as int) == nxt);
                    assert forall|idx: int|
                        0 <= idx < cur.len() implies out@[k]@.subrange(0, cur.len() as int)[idx]
                        == cur[idx] by {
                        assert(out@[k]@.subrange(0, nxt.len() as int)[idx] == out@[k]@[idx]);
                        assert(out@[k]@.subrange(0, cur.len() as int)[idx] == out@[k]@[idx]);
                        assert(nxt[idx] == cur[idx]);
                    }
                    assert(out@[k]@.subrange(0, cur.len() as int) =~= cur);
                    assert(out@[k]@.subrange(0, nxt.len() as int)[cur.len() as int]
                        == out@[k]@[cur.len() as int]);
                    assert(nxt[cur.len() as int] == v@[i as int]);
                }
                // candidates whose next value is one of v[0..i + 1] are all
                // collected now
                assert forall|c: Seq<i64>|
                    (c.len() == len && drawn_from(c, v@) && #[trigger] c.subrange(
                        0,
                        cur.len() as int,
                    ) == cur && (exists|i0: int| 0 <= i0 < i + 1 && v@[i0] == c[cur.len() as int]))
                        implies appears_in(out@, c) by {
                    if c[cur.len() as int] == v@[i as int] {
                        assert(c.subrange(0, cur.len() + 1 as int) =~= c.subrange(
                            0,
                            cur.len() as int,
                        ).push(c[cur.len() as int]));
                        assert(c.subrange(0, nxt.len() as int) == nxt);
                    } else {
                        let i0 = choose|i0: int|
                            0 <= i0 < i + 1 && v@[i0] == c[cur.len() as int];
                        assert(0 <= i0 < i);
                        assert(appears_in(out_before, c));
                        let k = choose|k: int|
                            0 <= k < out_before.len() && (#[trigger] out_before[k])@ == c;
                        assert(out@[k]@ == c);
                    }
                }
                // entries from different loop iterations differ right
                // after the shared prefix, when the input values are
                // pairwise distinct
                if distinct_vals(v@) {
                    assert forall|k: int, l: int|
                        old(out)@.len() <= k < l < out@.len() implies (#[trigger] out@[k])@ != (
                        #[trigger] out@[l])@ by {
                        if l < out_before.len() {
                        } else if k >= out_before.len() {
                        } else {
                            let i0 = choose|i0: int|
                                0 <= i0 < i && (#[trigger] out_before[k])@[cur.len() as int]
                                    == v@[i0];
                            assert(out@[k]@[cur.len() as int] == v@[i0]);
                            assert(out@[l]@[cur.len() as int] == v@[i as int]);
                            assert(v@[i0] != v@[i as int]);
                        }
                    }
                }
            }
        } else {
            proof {
                assert forall|c: Seq<i64>|
                    (c.len() == len && drawn_from(c, v@) && #[trigger] c.subrange(
                        0,
                        cur.len() as int,
                    ) == cur && (exists|i0: int| 0 <= i0 < i + 1 && v@[i0] == c[cur.len() as int]))
                        implies appears_in(out@, c) by {
                    if c[cur.len() as int] == v@[i as int] {
                        assert(cur.contains(v@[i as int]));
                        let p = choose|p: int| 0 <= p < cur.len() && cur[p] == v@[i as int];
                        assert(c.subrange(0, cur.len() as int)[p] == c[p]);
                        assert(c[p] == c[cur.len() as int]);
                        assert(false);
                    } else {
                        let i0 = choose|i0: int|
                            0 <= i0 < i + 1 && v@[i0] == c[cur.len() as int];
                        assert(0 <= i0 < i);
                    }
                }
            }
        }
        i = i + 1;
    }
    proof {
        assert forall|c: Seq<i64>|
            (c.len() == len && drawn_from(c, v@) && #[trigger] c.subrange(0, cur.len() as int)
                == cur) implies appears_in(out@, c) by {
            assert(v@.contains(c[cur.len() as int]));
            let i0 = choose|i0: int| 0 <= i0 < v@.len() && v@[i0] == c[cur.len() as int];
        }
    }
}

/// All arrangements of length `len` drawn from `v` without reuse: the
/// output holds only such arrangements, and every such arrangement occurs
/// in it — exactly once when the values of `v` are pairwise distinct. The
/// enumeration reports nothing for length zero.
pub fn permutation(v: &Vec<i64>, len: usize) -> (r: Vec<Vec<i64>>)
    ensures
        len == 0 ==> r@.len() == 0,
        forall|k: int|
            0 <= k < r@.len() ==> (#[trigger] r@[k])@.len() == len && drawn_from(r@[k]@, v@),
        len > 0 ==> (forall|c: Seq<i64>|
            (c.len() == len && drawn_from(c, v@)) ==> appears_in(r@, c)),
        distinct_vals(v@) ==> (forall|k: int, l: int|
            0 <= k < l < r@.len() ==> (#[trigger] r@[k])@ != (#[trigger] r@[l])@),
{
    let mut out: Vec<Vec<i64>> = Vec::new();
    if len == 0 {
        return out;
    }
    let start: Vec<i64> = Vec::new();
    extend_arrangements(v, len, start, &mut out);
    proof {
        assert forall|c: Seq<i64>| (c.len() == len && drawn_from(c, v@)) implies appears_in(
            out@,
            c,
        ) by {
            assert(c.subrange(0, 0) =~= Seq::<i64>::empty());
        }
    }
    out
}

} // verus!
