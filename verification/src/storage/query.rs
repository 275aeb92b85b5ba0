//! Binary-search queries over the sorted selection storage.

use vstd::prelude::*;

use crate::position::{pos_le, pos_lt, pos_weak_eq, Position};
use crate::storage::{
    find_id, lemma_find_id_props, lemma_pairwise_disjoint, overlaps, well_formed,
    SelectionStorage,
};

verus! {

impl SelectionStorage {
    /// The least index whose selection does not end strictly before `p`
    /// (equivalently: the number of selections entirely before `p`).
    pub(crate) fn lower_bound_by_to(&self, p: &Position) -> (r: usize)
        requires
            well_formed(self@),
        ensures
            r <= self@.len(),
            forall|j: int| 0 <= j < r ==> pos_lt(#[trigger] self@[j].to, *p),
            forall|j: int| r <= j < self@.len() ==> !pos_lt(#[trigger] self@[j].to, *p),
    {
        proof {
            lemma_pairwise_disjoint(self@);
        }
        let mut low: usize = 0;
        let mut high: usize = self.selections.len();
        while low < high
            invariant
                low <= high <= self@.len(),
                forall|j: int| 0 <= j < low ==> pos_lt(#[trigger] self@[j].to, *p),
                forall|j: int| high <= j < self@.len() ==> !pos_lt(#[trigger] self@[j].to, *p),
                forall|i: int, j: int|
                    0 <= i < j < self@.len() ==> pos_lt(
                        #[trigger] self@[i].to,
                        #[trigger] self@[j].to,
                    ),
            decreases high - low,
        {
            let mid = low + (high - low) / 2;
            if self.selections[mid].to.precedes(p) {
                low = mid + 1;
            } else {
                high = mid;
            }
        }
        low
    }

    /// The least index whose selection begins strictly after `p`.
    pub(crate) fn upper_bound_by_from(&self, p: &Position) -> (r: usize)
        requires
            well_formed(self@),
        ensures
            r <= self@.len(),
            forall|j: int| 0 <= j < r ==> !pos_lt(*p, #[trigger] self@[j].from),
            forall|j: int| r <= j < self@.len() ==> pos_lt(*p, #[trigger] self@[j].from),
    {
        proof {
            lemma_pairwise_disjoint(self@);
        }
        let mut low: usize = 0;
        let mut high: usize = self.selections.len();
        while low < high
            invariant
                low <= high <= self@.len(),
                forall|j: int| 0 <= j < low ==> !pos_lt(*p, #[trigger] self@[j].from),
                forall|j: int| high <= j < self@.len() ==> pos_lt(*p, #[trigger] self@[j].from),
                forall|i: int, j: int|
                    0 <= i < j < self@.len() ==> pos_lt(
                        #[trigger] self@[i].from,
                        #[trigger] self@[j].from,
                    ),
            decreases high - low,
        {
            let mid = low + (high - low) / 2;
            if p.precedes(&self.selections[mid].from) {
                high = mid;
            } else {
                low = mid + 1;
            }
        }
        low
    }

    /// Find a selection by its `from` component, compared ignoring sticky
    /// columns.
    pub fn find_index_by_id(&self, from: &Position) -> (r: Option<usize>)
        requires
            well_formed(self@),
        ensures
            r == (if find_id(self@, *from) >= 0 {
                Some(find_id(self@, *from) as usize)
            } else {
                None::<usize>
            }),
            r matches Some(i) ==> i < self@.len() && pos_weak_eq(self@[i as int].from, *from),
            r is None ==> forall|j: int|
                0 <= j < self@.len() ==> !pos_weak_eq(#[trigger] self@[j].from, *from),
    {
        proof {
            lemma_pairwise_disjoint(self@);
            lemma_find_id_props(self@, *from);
        }
        let k = self.lower_bound_by_from(from);
        if k < self.selections.len() && self.selections[k].from.weak_eq(from) {
            proof {
                if find_id(self@, *from) != k {
                    assert(!pos_weak_eq(self@[k as int].from, *from));
                }
            }
            Some(k)
        } else {
            proof {
                if find_id(self@, *from) >= 0 {
                    let i = find_id(self@, *from);
                    assert(pos_weak_eq(self@[i].from, *from));
                    if i < k {
                        assert(pos_lt(self@[i].from, *from));
                    }
                }
            }
            None
        }
    }

    /// The least index whose selection's `from` is not strictly before `p`.
    fn lower_bound_by_from(&self, p: &Position) -> (r: usize)
        requires
            well_formed(self@),
        ensures
            r <= self@.len(),
            forall|j: int| 0 <= j < r ==> pos_lt(#[trigger] self@[j].from, *p),
            forall|j: int| r <= j < self@.len() ==> !pos_lt(#[trigger] self@[j].from, *p),
    {
        proof {
            lemma_pairwise_disjoint(self@);
        }
        let mut low: usize = 0;
        let mut high: usize = self.selections.len();
        while low < high
            invariant
                low <= high <= self@.len(),
                forall|j: int| 0 <= j < low ==> pos_lt(#[trigger] self@[j].from, *p),
                forall|j: int| high <= j < self@.len() ==> !pos_lt(#[trigger] self@[j].from, *p),
                forall|i: int, j: int|
                    0 <= i < j < self@.len() ==> pos_lt(
                        #[trigger] self@[i].from,
                        #[trigger] self@[j].from,
                    ),
            decreases high - low,
        {
            let mid = low + (high - low) / 2;
            if self.selections[mid].from.precedes(p) {
                low = mid + 1;
            } else {
                high = mid;
            }
        }
        low
    }

    /// Find the inclusive index range of selections that overlap the span
    /// `[from, to]`.  The `Err` case means no overlaps and carries the index
    /// at which a selection spanning `[from, to]` would be inserted.
    pub fn find_overlapping_indicies(&self, from: &Position, to: &Position) -> (r: Result<
        (usize, usize),
        usize,
    >)
        requires
            well_formed(self@),
            pos_le(*from, *to),
        ensures
            match r {
                Ok((a, b)) => {
                    &&& a <= b < self@.len()
                    &&& forall|i: int|
                        0 <= i < self@.len() ==> (overlaps(#[trigger] self@[i], *from, *to) <==> a
                            <= i <= b)
                },
                Err(i) => {
                    &&& i <= self@.len()
                    &&& forall|j: int|
                        0 <= j < self@.len() ==> !overlaps(#[trigger] self@[j], *from, *to)
                    &&& forall|j: int| 0 <= j < i ==> pos_lt(#[trigger] self@[j].to, *from)
                    &&& forall|j: int| i <= j < self@.len() ==> pos_lt(*to, #[trigger] self@[j].from)
                },
            },
    {
        let lo = self.lower_bound_by_to(from);
        let hi = self.upper_bound_by_from(to);
        proof {
            if hi < lo {
                assert(pos_lt(self@[hi as int].to, *from));
                assert(pos_lt(*to, self@[hi as int].from));
            }
        }
        if lo < hi {
            Ok((lo, hi - 1))
        } else {
            Err(lo)
        }
    }

    /// As [`SelectionStorage::find_overlapping_indicies`], but discounting
    /// the selection at index `exclude`: when that selection is the only
    /// overlap, or an edge of the overlap range, the range shrinks past it.
    pub fn find_overlapping_indicies_exlude(
        &self,
        from: &Position,
        to: &Position,
        exclude: usize,
    ) -> (r: Result<(usize, usize), usize>)
        requires
            well_formed(self@),
            pos_le(*from, *to),
        ensures
            match r {
                Ok((a, b)) => {
                    &&& a <= b < self@.len()
                    &&& forall|i: int| a <= i <= b ==> overlaps(#[trigger] self@[i], *from, *to)
                    &&& forall|i: int|
                        0 <= i < self@.len() && !(a <= i <= b) && i != exclude ==> !overlaps(
                            #[trigger] self@[i],
                            *from,
                            *to,
                        )
                    &&& (a <= exclude <= b ==> a < exclude < b)
                },
                Err(i) => {
                    &&& i <= self@.len()
                    &&& forall|j: int|
                        0 <= j < self@.len() && j != exclude ==> !overlaps(
                            #[trigger] self@[j],
                            *from,
                            *to,
                        )
                    &&& forall|j: int|
                        0 <= j < i && j != exclude ==> pos_lt(#[trigger] self@[j].to, *from)
                    &&& forall|j: int|
                        i <= j < self@.len() && j != exclude ==> pos_lt(
                            *to,
                            #[trigger] self@[j].from,
                        )
                },
            },
    {
        proof {
            lemma_pairwise_disjoint(self@);
        }
        match self.find_overlapping_indicies(from, to) {
            Ok((a, b)) => {
                if a == b && a == exclude {
                    proof {
                        let e = exclude as int;
                        assert(overlaps(self@[e], *from, *to));
                        assert forall|j: int| 0 <= j < e implies pos_lt(
                            #[trigger] self@[j].to,
                            *from,
                        ) by {
                            assert(!overlaps(self@[j], *from, *to));
                            assert(pos_lt(self@[j].to, self@[e].to));
                            assert(pos_le(self@[j].from, self@[j].to));
                        }
                        assert forall|j: int| e < j < self@.len() implies pos_lt(
                            *to,
                            #[trigger] self@[j].from,
                        ) by {
                            assert(!overlaps(self@[j], *from, *to));
                            assert(pos_lt(self@[e].from, self@[j].from));
                            assert(pos_le(self@[j].from, self@[j].to));
                        }
                    }
                    Err(exclude)
                } else if a == exclude {
                    Ok((a + 1, b))
                } else if b == exclude {
                    Ok((a, b - 1))
                } else {
                    Ok((a, b))
                }
            },
            Err(i) => Err(i),
        }
    }
}

} // verus!
