//! Operations that hand selections out of the storage.

use vstd::prelude::*;

use crate::position::{pos_lt, Position};
use crate::selection::Selection;
use crate::storage::{well_formed, SelectionStorage};

verus! {

impl SelectionStorage {
    /// Returns all selections in the storage, in storage order.
    pub fn iter_all(&self) -> (r: Vec<Selection>)
        ensures
            r@ == self@,
    {
        let mut out: Vec<Selection> = Vec::new();
        let mut i: usize = 0;
        while i < self.selections.len()
            invariant
                i <= self@.len(),
                out@ == self@.subrange(0, i as int),
            decreases self@.len() - i,
        {
            out.push(self.selections[i]);
            proof {
                assert(out@ =~= self@.subrange(0, i + 1));
            }
            i = i + 1;
        }
        proof {
            assert(out@ =~= self@);
        }
        out
    }

    /// Returns the selections from the first one whose span intersects or
    /// follows the beginning of `line`, in storage order.
    pub fn iter_from_line(&self, line: usize) -> (r: Vec<Selection>)
        requires
            well_formed(self@),
        ensures
            exists|k: int|
                {
                    &&& 0 <= k <= self@.len()
                    &&& (forall|j: int|
                        0 <= j < k ==> pos_lt(
                            #[trigger] self@[j].to,
                            Position { line, column: 0, sticky_column: None },
                        ))
                    &&& (forall|j: int|
                        k <= j < self@.len() ==> !pos_lt(
                            #[trigger] self@[j].to,
                            Position { line, column: 0, sticky_column: None },
                        ))
                    &&& r@ == self@.subrange(k, self@.len() as int)
                },
    {
        let line_beginning = Position::new(line, 0);
        let start = self.lower_bound_by_to(&line_beginning);
        let mut out: Vec<Selection> = Vec::new();
        let mut i: usize = start;
        while i < self.selections.len()
            invariant
                start <= i <= self@.len(),
                out@ == self@.subrange(start as int, i as int),
            decreases self@.len() - i,
        {
            out.push(self.selections[i]);
            proof {
                assert(out@ =~= self@.subrange(start as int, i + 1));
            }
            i = i + 1;
        }
        proof {
            assert(0 <= start as int <= self@.len());
        }
        out
    }
}

} // verus!
