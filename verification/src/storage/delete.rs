//! Deletion of selections from the storage.

use vstd::multiset::Multiset;
use vstd::prelude::*;

use crate::deltas::{deltas_sorted, SelectionDelta, SelectionDeltas};
use crate::position::Position;
use crate::selection::{default_selection, Selection};
use crate::storage::{
    find_id, lemma_find_id_props, lemma_wf_remove, well_formed, SelectionStorage,
};
use crate::storage::insert::deltas_faithful;

verus! {

/// Exactly what a deletion does: the selection whose `from` weakly equals
/// `id` leaves the storage and is logged as deleted; an unknown id changes
/// nothing; and when the last selection leaves, the default selection takes
/// its place and is logged as created.
pub open spec fn delete_outcome(
    ss: Seq<Selection>,
    id: Position,
    ss2: Seq<Selection>,
    ds: Seq<SelectionDelta>,
) -> bool {
    let fi = find_id(ss, id);
    let mid = if fi >= 0 {
        ss.remove(fi)
    } else {
        ss
    };
    if mid.len() == 0 {
        &&& ss2 == seq![default_selection()]
        &&& ds.to_multiset() == (if fi >= 0 {
            Multiset::<SelectionDelta>::empty().insert(
                SelectionDelta::Created(default_selection()),
            ).insert(SelectionDelta::Deleted(ss[fi]))
        } else {
            Multiset::<SelectionDelta>::empty().insert(
                SelectionDelta::Created(default_selection()),
            )
        })
    } else {
        &&& ss2 == mid
        &&& ds == (if fi >= 0 {
            seq![SelectionDelta::Deleted(ss[fi])]
        } else {
            Seq::<SelectionDelta>::empty()
        })
    }
}

impl SelectionStorage {
    /// Deletes the selection whose `from` weakly equals `id`.  If the storage
    /// would become empty, the default selection is restored, so at least one
    /// selection always remains.
    pub fn delete(&mut self, id: &Position) -> (deltas: SelectionDeltas)
        requires
            well_formed(old(self)@),
        ensures
            well_formed(final(self)@),
            final(self)@.len() >= 1,
            deltas_sorted(deltas@),
            delete_outcome(old(self)@, *id, final(self)@, deltas@),
            deltas_faithful(old(self)@, final(self)@, deltas@),
    {
        let ghost ss = self@;
        proof {
            lemma_find_id_props(ss, *id);
        }
        let mut deltas = self.delete_internal(id);
        let ghost mid = self@;

        if self.selections.len() == 0 {
            let restored = Selection::default();
            self.selections.push(restored);
            deltas.push_created(restored);
            proof {
                broadcast use vstd::multiset::group_multiset_axioms;
                broadcast use vstd::seq_lib::group_to_multiset_ensures;

                assert(mid.len() == 0);
                assert(self@ =~= seq![default_selection()]);
                assert(Seq::<Selection>::empty().push(restored) =~= self@);
                let fi = find_id(ss, *id);
                if fi >= 0 {
                    assert(ss.remove(fi).len() == 0);
                    assert(ss.len() == 1 && fi == 0);
                    assert(ss =~= seq![ss[0]]);
                    assert(Seq::<Selection>::empty().push(ss[0]) =~= ss);
                    assert(Seq::<SelectionDelta>::empty().push(SelectionDelta::Deleted(ss[0]))
                        =~= seq![SelectionDelta::Deleted(ss[0])]);
                    assert(deltas@.to_multiset() =~= Multiset::<SelectionDelta>::empty().insert(
                        SelectionDelta::Created(default_selection()),
                    ).insert(SelectionDelta::Deleted(ss[fi])));
                    assert(self@.to_multiset() =~= ss.to_multiset().sub(
                        Multiset::<Selection>::empty().insert(ss[0]),
                    ).add(Multiset::<Selection>::empty().insert(default_selection())));
                } else {
                    assert(ss.len() == 0);
                    assert(ss.to_multiset() =~= Multiset::<Selection>::empty()) by {
                        assert forall|x: Selection| ss.to_multiset().count(x) == 0 by {
                            assert(!ss.contains(x));
                        }
                    }
                    assert(Seq::<SelectionDelta>::empty().to_multiset() =~= Multiset::<
                        SelectionDelta,
                    >::empty()) by {
                        assert forall|x: SelectionDelta|
                            Seq::<SelectionDelta>::empty().to_multiset().count(x) == 0 by {
                            assert(!Seq::<SelectionDelta>::empty().contains(x));
                        }
                    }
                    assert(deltas@.to_multiset() =~= Multiset::<SelectionDelta>::empty().insert(
                        SelectionDelta::Created(default_selection()),
                    ));
                    assert(self@.to_multiset() =~= ss.to_multiset().sub(
                        Multiset::<Selection>::empty(),
                    ).add(Multiset::<Selection>::empty().insert(default_selection())));
                }
            }
        }
        deltas
    }

    /// Deletes a selection without restoring the default one when the storage
    /// empties; the building block of [`SelectionStorage::delete`] and of
    /// batched deletion.
    pub(crate) fn delete_internal(&mut self, id: &Position) -> (deltas: SelectionDeltas)
        requires
            well_formed(old(self)@),
        ensures
            well_formed(final(self)@),
            deltas_sorted(deltas@),
            ({
                let fi = find_id(old(self)@, *id);
                if fi >= 0 {
                    final(self)@ == old(self)@.remove(fi) && deltas@ == seq![
                        SelectionDelta::Deleted(old(self)@[fi]),
                    ]
                } else {
                    final(self)@ == old(self)@ && deltas@ == Seq::<SelectionDelta>::empty()
                }
            }),
            crate::deltas::deltas_removed(deltas@) == (if find_id(old(self)@, *id) >= 0 {
                Multiset::<Selection>::empty().insert(old(self)@[find_id(old(self)@, *id)])
            } else {
                Multiset::<Selection>::empty()
            }),
            crate::deltas::deltas_added(deltas@) == Multiset::<Selection>::empty(),
            deltas_faithful(old(self)@, final(self)@, deltas@),
    {
        let ghost ss = self@;
        proof {
            lemma_find_id_props(ss, *id);
        }
        let mut deltas = SelectionDeltas::with_capacity(2);
        if let Some(idx) = self.find_index_by_id(id) {
            let deleted = self.selections.remove(idx);
            deltas.push_deleted(deleted);
            proof {
                lemma_wf_remove(ss, idx as int);
                let kk = choose|kk: int|
                    0 <= kk <= 0 && deltas@ == Seq::<SelectionDelta>::empty().insert(
                        kk,
                        SelectionDelta::Deleted(deleted),
                    );
                assert(deltas@ =~= seq![SelectionDelta::Deleted(deleted)]);
                broadcast use vstd::seq_lib::to_multiset_remove;
                broadcast use vstd::multiset::group_multiset_axioms;

                assert(self@.to_multiset() =~= ss.to_multiset().sub(
                    Multiset::<Selection>::empty().insert(deleted),
                ).add(Multiset::<Selection>::empty()));
            }
        } else {
            proof {
                broadcast use vstd::multiset::group_multiset_axioms;

                assert(self@.to_multiset() =~= ss.to_multiset().sub(
                    Multiset::<Selection>::empty(),
                ).add(Multiset::<Selection>::empty()));
            }
        }
        deltas
    }
}

} // verus!
