//! Validity bitmaps and their combinators.
//!
//! A `ValidityBitmap` is the per-position presence vector of a vector
//! operand: `true` means a value is present at that position. A bitmap
//! argument of `None` means "no bitmap": every position is valid.
//!
//! Two combinators are provided, differing exactly in how an absent bitmap
//! propagates:
//! - `union_prefer_not_null`: absent wins (an absent side makes the result
//!   absent); present bitmaps are joined with bitwise or, so a position is
//!   valid when it is valid on either side;
//! - `intersect`: present wins (an absent side returns the other side
//!   unchanged); present bitmaps are joined with bitwise and.

use vstd::prelude::*;

verus! {

#[derive(Debug, PartialEq)]
pub struct ValidityBitmap {
    pub bits: Vec<bool>,
}

impl View for ValidityBitmap {
    type V = Seq<bool>;

    open spec fn view(&self) -> Seq<bool> {
        self.bits@
    }
}

impl ValidityBitmap {
    /// A bitmap of `len` positions, all invalid.
    pub fn new_null(len: usize) -> (r: ValidityBitmap)
        ensures
            r@.len() == len,
            forall|i: int| 0 <= i < len ==> !r@[i],
    {
        let mut bits: Vec<bool> = Vec::new();
        let mut i: usize = 0;
        while i < len
            invariant
                i <= len,
                bits@.len() == i,
                forall|j: int| 0 <= j < i ==> !bits@[j],
            decreases len - i,
        {
            bits.push(false);
            i = i + 1;
        }
        ValidityBitmap { bits }
    }

    /// A bitmap of `len` positions, all valid.
    pub fn new_valid(len: usize) -> (r: ValidityBitmap)
        ensures
            r@.len() == len,
            forall|i: int| 0 <= i < len ==> r@[i],
    {
        let mut bits: Vec<bool> = Vec::new();
        let mut i: usize = 0;
        while i < len
            invariant
                i <= len,
                bits@.len() == i,
                forall|j: int| 0 <= j < i ==> bits@[j],
            decreases len - i,
        {
            bits.push(true);
            i = i + 1;
        }
        ValidityBitmap { bits }
    }

    /// A copy of this bitmap.
    pub fn duplicate(&self) -> (r: ValidityBitmap)
        ensures
            r@ == self@,
    {
        let mut bits: Vec<bool> = Vec::new();
        let mut i: usize = 0;
        while i < self.bits.len()
            invariant
                i <= self.bits.len(),
                bits@ =~= self.bits@.subrange(0, i as int),
            decreases self.bits.len() - i,
        {
            bits.push(self.bits[i]);
            i = i + 1;
        }
        proof {
            assert(bits@ =~= self.bits@);
        }
        ValidityBitmap { bits }
    }

    /// Join two optional bitmaps preferring presence of values, with an
    /// absent bitmap absorbing the result: if either side carries no
    /// bitmap, the result carries none; otherwise a position is valid when
    /// it is valid on either side.
    pub fn union_prefer_not_null(lhs: Option<&ValidityBitmap>, rhs: Option<&ValidityBitmap>) -> (r:
        Option<ValidityBitmap>)
        requires
            (lhs is Some && rhs is Some) ==> lhs->0@.len() == rhs->0@.len(),
        ensures
            (lhs is None || rhs is None) ==> r is None,
            (lhs is Some && rhs is Some) ==> (r is Some && r->0@.len() == lhs->0@.len() && (forall|
                i: int,
            | 0 <= i < lhs->0@.len() ==> r->0@[i] == (lhs->0@[i] || rhs->0@[i]))),
    {
        match (lhs, rhs) {
            (Some(a), Some(b)) => {
                let mut bits: Vec<bool> = Vec::new();
                let mut i: usize = 0;
                while i < a.bits.len()
                    invariant
                        a.bits@.len() == b.bits@.len(),
                        i <= a.bits.len(),
                        bits@.len() == i,
                        forall|j: int| 0 <= j < i ==> bits@[j] == (a.bits@[j] || b.bits@[j]),
                    decreases a.bits.len() - i,
                {
                    bits.push(a.bits[i] || b.bits[i]);
                    i = i + 1;
                }
                Some(ValidityBitmap { bits })
            },
            _ => None,
        }
    }

    /// Join two optional bitmaps by intersection: an absent side returns
    /// the other side unchanged; a position of two present bitmaps is valid
    /// only when it is valid on both sides.
    pub fn intersect(lhs: Option<&ValidityBitmap>, rhs: Option<&ValidityBitmap>) -> (r: Option<
        ValidityBitmap,
    >)
        requires
            (lhs is Some && rhs is Some) ==> lhs->0@.len() == rhs->0@.len(),
        ensures
            (lhs is None && rhs is None) ==> r is None,
            (lhs is Some && rhs is None) ==> (r is Some && r->0@ == lhs->0@),
            (lhs is None && rhs is Some) ==> (r is Some && r->0@ == rhs->0@),
            (lhs is Some && rhs is Some) ==> (r is Some && r->0@.len() == lhs->0@.len() && (forall|
                i: int,
            | 0 <= i < lhs->0@.len() ==> r->0@[i] == (lhs->0@[i] && rhs->0@[i]))),
    {
        match (lhs, rhs) {
            (Some(a), Some(b)) => {
                let mut bits: Vec<bool> = Vec::new();
                let mut i: usize = 0;
                while i < a.bits.len()
                    invariant
                        a.bits@.len() == b.bits@.len(),
                        i <= a.bits.len(),
                        bits@.len() == i,
                        forall|j: int| 0 <= j < i ==> bits@[j] == (a.bits@[j] && b.bits@[j]),
                    decreases a.bits.len() - i,
                {
                    bits.push(a.bits[i] && b.bits[i]);
                    i = i + 1;
                }
                Some(ValidityBitmap { bits })
            },
            (Some(a), None) => Some(a.duplicate()),
            (None, Some(b)) => Some(b.duplicate()),
            (None, None) => None,
        }
    }
}

} // verus!
