//! [`SelectionStorage`]: the sorted, non-overlapping set of selections.

mod batch;
mod delete;
mod get;
mod insert;
mod movement;
mod query;

pub use batch::{InsertCommand, MoveCommand, MovementDirection, SelectionCommandsBatch};

use vstd::prelude::*;

use crate::position::{pos_le, pos_lt, pos_weak_eq, Position};
use crate::selection::{default_selection, sel_valid, Selection};

verus! {

/// Multiselection storage.
///
/// The selections are kept sorted by their `from` position and pairwise
/// disjoint ([`well_formed`]); a storage created through
/// [`SelectionStorage::new`] also always holds at least one selection.
pub struct SelectionStorage {
    /// Selections sorted by `from` position in the buffer.
    selections: Vec<Selection>,
}

impl View for SelectionStorage {
    type V = Seq<Selection>;

    closed spec fn view(&self) -> Seq<Selection> {
        self.selections@
    }
}

/// Consecutive selections are disjoint: each ends strictly before the next
/// one begins.
pub open spec fn sels_disjoint(ss: Seq<Selection>) -> bool {
    forall|i: int| 0 <= i && i + 1 < ss.len() ==> pos_lt(#[trigger] ss[i].to, ss[i + 1].from)
}

/// Every selection has ordered endpoints.
pub open spec fn sels_valid(ss: Seq<Selection>) -> bool {
    forall|i: int| 0 <= i < ss.len() ==> sel_valid(#[trigger] ss[i])
}

/// The storage invariant: valid selections, consecutive ones disjoint.
pub open spec fn well_formed(ss: Seq<Selection>) -> bool {
    sels_disjoint(ss) && sels_valid(ss)
}

/// Whether the selection `s` intersects the span `[from, to]`.
pub open spec fn overlaps(s: Selection, from: Position, to: Position) -> bool {
    pos_le(s.from, to) && pos_le(from, s.to)
}

/// The index of the selection whose `from` weakly equals `p`, or `-1` when
/// there is none.
pub open spec fn find_id(ss: Seq<Selection>, p: Position) -> int
    decreases ss.len(),
{
    if ss.len() == 0 {
        -1
    } else if pos_weak_eq(ss[0].from, p) {
        0
    } else {
        let r = find_id(ss.drop_first(), p);
        if r < 0 {
            -1
        } else {
            r + 1
        }
    }
}

/// In a well-formed storage any two selections, not only consecutive ones,
/// are disjoint, and both endpoints are strictly sorted.  (The storage is
/// sorted and non-overlapping as a whole.)
pub proof fn lemma_pairwise_disjoint(ss: Seq<Selection>)
    requires
        well_formed(ss),
    ensures
        forall|i: int, j: int| 0 <= i < j < ss.len() ==> pos_lt(#[trigger] ss[i].to, #[trigger] ss[j].from),
        forall|i: int, j: int| 0 <= i < j < ss.len() ==> pos_lt(#[trigger] ss[i].from, #[trigger] ss[j].from),
        forall|i: int, j: int| 0 <= i < j < ss.len() ==> pos_lt(#[trigger] ss[i].to, #[trigger] ss[j].to),
{
    assert forall|i: int, j: int| 0 <= i < j < ss.len() implies pos_lt(
        #[trigger] ss[i].to,
        #[trigger] ss[j].from,
    ) by {
        lemma_span_chain(ss, i, j);
    }
}

/// Disjointness chains across any distance: selection `i` ends strictly
/// before selection `j` begins, for `i < j`.
proof fn lemma_span_chain(ss: Seq<Selection>, i: int, j: int)
    requires
        well_formed(ss),
        0 <= i < j < ss.len(),
    ensures
        pos_lt(ss[i].to, ss[j].from),
    decreases j - i,
{
    if i + 1 < j {
        lemma_span_chain(ss, i, j - 1);
    }
}

/// Removing one selection keeps the storage well formed.
pub proof fn lemma_wf_remove(ss: Seq<Selection>, i: int)
    requires
        well_formed(ss),
        0 <= i < ss.len(),
    ensures
        well_formed(ss.remove(i)),
{
    lemma_pairwise_disjoint(ss);
    ss.remove_ensures(i);
}

/// What [`find_id`] finds: the unique selection whose `from` weakly equals
/// `p`, when the storage is well formed.
pub proof fn lemma_find_id_props(ss: Seq<Selection>, p: Position)
    requires
        well_formed(ss),
    ensures
        find_id(ss, p) < 0 ==> forall|j: int|
            0 <= j < ss.len() ==> !pos_weak_eq(#[trigger] ss[j].from, p),
        find_id(ss, p) >= 0 ==> {
            &&& 0 <= find_id(ss, p) < ss.len()
            &&& pos_weak_eq(ss[find_id(ss, p)].from, p)
            &&& forall|j: int|
                0 <= j < ss.len() && j != find_id(ss, p) ==> !pos_weak_eq(
                    #[trigger] ss[j].from,
                    p,
                )
        },
    decreases ss.len(),
{
    if ss.len() > 0 {
        let tail = ss.drop_first();
        assert(well_formed(tail)) by {
            assert forall|k: int| 0 <= k && k + 1 < tail.len() implies pos_lt(
                #[trigger] tail[k].to,
                tail[k + 1].from,
            ) by {
                assert(tail[k] == ss[k + 1] && tail[k + 1] == ss[k + 2]);
            }
            assert forall|k: int| 0 <= k < tail.len() implies sel_valid(#[trigger] tail[k]) by {
                assert(tail[k] == ss[k + 1]);
            }
        }
        lemma_find_id_props(tail, p);
        lemma_pairwise_disjoint(ss);
        if pos_weak_eq(ss[0].from, p) {
            assert forall|j: int| 0 <= j < ss.len() && j != 0 implies !pos_weak_eq(
                #[trigger] ss[j].from,
                p,
            ) by {
                assert(pos_lt(ss[0].from, ss[j].from));
            }
        } else {
            assert forall|j: int| 0 <= j < ss.len() && j != find_id(ss, p) implies !pos_weak_eq(
                #[trigger] ss[j].from,
                p,
            ) by {
                if j != 0 {
                    assert(ss[j] == tail[j - 1]);
                }
            }
        }
    }
}

impl SelectionStorage {
    /// Create a selection storage holding one initial selection at the buffer
    /// beginning.
    pub fn new() -> (r: SelectionStorage)
        ensures
            r@ == seq![default_selection()],
            well_formed(r@),
            r@.len() == 1,
    {
        let mut selections: Vec<Selection> = Vec::new();
        selections.push(Selection::default());
        proof {
            assert(selections@ =~= seq![default_selection()]);
        }
        SelectionStorage { selections }
    }

    /// Create a selection storage with no selection at all.  Mutations keep
    /// it sorted and disjoint, and [`SelectionStorage::delete`] restores the
    /// default selection the moment the storage would stay empty.
    pub fn new_empty() -> (r: SelectionStorage)
        ensures
            r@ == Seq::<Selection>::empty(),
            well_formed(r@),
    {
        SelectionStorage { selections: Vec::new() }
    }

    /// Check that the selections are sorted, pairwise disjoint, and that at
    /// least one is present.
    pub fn is_state_correct(&self) -> (r: bool)
        ensures
            r == (sels_disjoint(self@) && self@.len() >= 1),
    {
        let n = self.selections.len();
        if n == 0 {
            return false;
        }
        let mut i: usize = 0;
        while i + 1 < n
            invariant
                n == self@.len(),
                i < n,
                forall|j: int| 0 <= j && j + 1 <= i ==> pos_lt(#[trigger] self@[j].to, self@[j + 1].from),
            decreases n - i,
        {
            if !self.selections[i].to.precedes(&self.selections[i + 1].from) {
                return false;
            }
            i = i + 1;
        }
        true
    }
}

impl Default for SelectionStorage {
    /// Builds the same storage as [`SelectionStorage::new`].
    fn default() -> (r: Self)
        ensures
            r@ == seq![default_selection()],
    {
        SelectionStorage::new()
    }
}

} // verus!
