//! Matrix transposition, column by column.
//!
//! `transpose` turns a sequence of rows into a sequence of columns. There
//! are as many columns as the longest row is wide, and column `j`
//! collects, in row order, the `j`-th entry of every row that is long
//! enough (`column_of`). On a rectangular input this is the usual
//! transpose, which the contract also states directly: entry `(i, j)`
//! moves to `(j, i)`.

use vstd::prelude::*;

verus! {

/// Every row has length `cols`.
pub open spec fn rectangular<T>(m: Seq<Vec<T>>, cols: nat) -> bool {
    forall|i: int| 0 <= i < m.len() ==> (#[trigger] m[i])@.len() == cols
}

/// The length of the longest row.
pub open spec fn spec_max_row_len<T>(m: Seq<Vec<T>>) -> nat
    decreases m.len(),
{
    if m.len() == 0 {
        0
    } else {
        let p = spec_max_row_len(m.drop_last());
        if m.last()@.len() > p {
            m.last()@.len()
        } else {
            p
        }
    }
}

/// Column `j`: the `j`-th entry of every row that is long enough, in row
/// order.
pub open spec fn column_of<T>(m: Seq<Vec<T>>, j: int) -> Seq<T>
    decreases m.len(),
{
    if m.len() == 0 {
        Seq::empty()
    } else {
        let prev = column_of(m.drop_last(), j);
        if 0 <= j < m.last()@.len() {
            prev.push(m.last()@[j])
        } else {
            prev
        }
    }
}

/// On a rectangular matrix every row reaches column `j`, in row order.
pub proof fn lemma_column_of_rectangular<T>(m: Seq<Vec<T>>, cols: nat, j: int)
    requires
        rectangular(m, cols),
        0 <= j < cols,
    ensures
        column_of(m, j).len() == m.len(),
        forall|i: int| 0 <= i < m.len() ==> column_of(m, j)[i] == (#[trigger] m[i])@[j],
    decreases m.len(),
{
    if m.len() > 0 {
        let p = m.drop_last();
        assert forall|i: int| 0 <= i < p.len() implies (#[trigger] p[i])@.len() == cols by {
            assert(p[i] == m[i]);
        }
        lemma_column_of_rectangular(p, cols, j);
        assert(m[m.len() - 1] == m.last());
        assert forall|i: int| 0 <= i < m.len() implies column_of(m, j)[i] == (
        #[trigger] m[i])@[j] by {
            if i < m.len() - 1 {
                assert(p[i] == m[i]);
            }
        }
    }
}

/// On a nonempty rectangular matrix the longest row has the common width.
pub proof fn lemma_max_row_len_rectangular<T>(m: Seq<Vec<T>>, cols: nat)
    requires
        rectangular(m, cols),
        m.len() > 0,
    ensures
        spec_max_row_len(m) == cols,
    decreases m.len(),
{
    if m.len() == 1 {
        assert(spec_max_row_len(m.drop_last()) == 0);
        assert(m[0] == m.last());
    } else {
        let p = m.drop_last();
        assert forall|i: int| 0 <= i < p.len() implies (#[trigger] p[i])@.len() == cols by {
            assert(p[i] == m[i]);
        }
        lemma_max_row_len_rectangular(p, cols);
        assert(m[m.len() - 1] == m.last());
    }
}

/// The length of the longest row.
pub fn max_row_len<T>(m: &Vec<Vec<T>>) -> (r: usize)
    ensures
        r == spec_max_row_len(m@),
{
    let mut r: usize = 0;
    let mut i: usize = 0;
    while i < m.len()
        invariant
            i <= m@.len(),
            r == spec_max_row_len(m@.take(i as int)),
        decreases m.len() - i,
    {
        proof {
            assert(m@.take((i + 1) as int).drop_last() =~= m@.take(i as int));
            assert(m@.take((i + 1) as int).last() == m@[i as int]);
        }
        if m[i].len() > r {
            r = m[i].len();
        }
        i = i + 1;
    }
    proof {
        assert(m@.take(m@.len() as int) =~= m@);
    }
    r
}

/// Transpose a matrix of copyable entries. The result has one column per
/// position of the longest row; column `j` holds the `j`-th entry of every
/// row that has one, in row order. On a rectangular input, entry `(i, j)`
/// moves to `(j, i)`.
pub fn transpose<T: Copy>(m: &Vec<Vec<T>>) -> (r: Vec<Vec<T>>)
    ensures
        r@.len() == spec_max_row_len(m@),
        forall|j: int| 0 <= j < r@.len() ==> (#[trigger] r@[j])@ == column_of(m@, j),
        (m@.len() > 0 && rectangular(m@, m@[0]@.len())) ==> {
            &&& r@.len() == m@[0]@.len()
            &&& (forall|j: int| 0 <= j < r@.len() ==> (#[trigger] r@[j])@.len() == m@.len())
            &&& (forall|j: int, i: int|
                0 <= j < r@.len() && 0 <= i < m@.len() ==> (#[trigger] r@[j]@[i]) == m@[i]@[j])
        },
{
    let cols = max_row_len(m);
    let mut out: Vec<Vec<T>> = Vec::new();
    let mut j: usize = 0;
    while j < cols
        invariant
            cols == spec_max_row_len(m@),
            out@.len() == j,
            j <= cols,
            forall|q: int| 0 <= q < j ==> (#[trigger] out@[q])@ == column_of(m@, q),
        decreases cols - j,
    {
        let mut col: Vec<T> = Vec::new();
        let mut i: usize = 0;
        while i < m.len()
            invariant
                i <= m@.len(),
                col@ == column_of(m@.take(i as int), j as int),
            decreases m.len() - i,
        {
            proof {
                assert(m@.take((i + 1) as int).drop_last() =~= m@.take(i as int));
                assert(m@.take((i + 1) as int).last() == m@[i as int]);
            }
            if j < m[i].len() {
                col.push(m[i][j]);
            }
            i = i + 1;
        }
        proof {
            assert(m@.take(m@.len() as int) =~= m@);
        }
        out.push(col);
        j = j + 1;
    }
    proof {
        if m@.len() > 0 && rectangular(m@, m@[0]@.len()) {
            lemma_max_row_len_rectangular(m@, m@[0]@.len());
            assert forall|q: int, i: int|
                0 <= q < out@.len() && 0 <= i < m@.len() implies (#[trigger] out@[q]@[i])
                == m@[i]@[q] by {
                lemma_column_of_rectangular(m@, m@[0]@.len(), q);
            }
            assert forall|q: int| 0 <= q < out@.len() implies (#[trigger] out@[q])@.len()
                == m@.len() by {
                lemma_column_of_rectangular(m@, m@[0]@.len(), q);
            }
        }
    }
    out
}

} // verus!
