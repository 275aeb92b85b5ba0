//! Batched commands for the selection storage.

use vstd::multiset::Multiset;
use vstd::prelude::*;

use crate::deltas::{
    deltas_added, deltas_removed, deltas_sorted, SelectionDelta, SelectionDeltas,
};
use crate::position::{pos_weak_eq, Position};
use crate::selection::{default_selection, Selection};
use crate::storage::insert::deltas_faithful;
use crate::storage::{find_id, lemma_find_id_props, lemma_wf_remove, well_formed, SelectionStorage};

verus! {

/// Possible movement directions for a two-dimensional text editor.
#[derive(Debug, Clone, Copy, PartialEq, Eq, Structural)]
pub enum MovementDirection {
    /// Left movement.
    Left,
    /// Right movement.
    Right,
    /// Up movement.
    Up,
    /// Down movement.
    Down,
}

impl MovementDirection {
    /// Whether the direction heads towards the buffer beginning; most
    /// movement behaviour differs between the two ways.
    pub open spec fn towards_beginning(self) -> bool {
        self is Left || self is Up
    }

    /// Exec twin of [`MovementDirection::towards_beginning`].
    pub fn is_towards_beginning(&self) -> (r: bool)
        ensures
            r == self.towards_beginning(),
    {
        match self {
            MovementDirection::Left | MovementDirection::Up => true,
            MovementDirection::Right | MovementDirection::Down => false,
        }
    }
}

/// A batch of operations to apply to the selection storage in one call.
pub struct SelectionCommandsBatch {
    /// Ids (`from` positions) of selections to delete.
    pub to_delete: Option<Vec<Position>>,
    /// A movement to apply to a set of selections.
    pub to_move: Option<MoveCommand>,
    /// Selections to insert.
    pub to_insert: Vec<InsertCommand>,
}

/// A movement over several selections, named by their ids.
pub struct MoveCommand {
    /// Ids (`from` positions) of the selections to move.
    pub query: Vec<Position>,
    /// The direction to move in.
    pub direction: MovementDirection,
    /// Whether the moves keep their anchors.
    pub extending: bool,
}

/// One insertion, with its overlap policy.
pub struct InsertCommand {
    /// The selection to insert.
    pub selection: Selection,
    /// Replace overlapped selections instead of merging with them.
    pub replacing: bool,
}

/// The ids a batch asks to delete.
pub open spec fn batch_delete_ids(batch: SelectionCommandsBatch) -> Seq<Position> {
    match batch.to_delete {
        Some(ids) => ids@,
        None => Seq::<Position>::empty(),
    }
}

/// The storage left after deleting each id of `ids` in order.
pub open spec fn batch_delete_seq(ss: Seq<Selection>, ids: Seq<Position>) -> Seq<Selection>
    decreases ids.len(),
{
    if ids.len() == 0 {
        ss
    } else {
        let fi = find_id(ss, ids[0]);
        let next = if fi >= 0 {
            ss.remove(fi)
        } else {
            ss
        };
        batch_delete_seq(next, ids.drop_first())
    }
}

/// The selections those deletions remove.
pub open spec fn batch_deleted_ms(ss: Seq<Selection>, ids: Seq<Position>) -> Multiset<Selection>
    decreases ids.len(),
{
    if ids.len() == 0 {
        Multiset::empty()
    } else {
        let fi = find_id(ss, ids[0]);
        if fi >= 0 {
            batch_deleted_ms(ss.remove(fi), ids.drop_first()).insert(ss[fi])
        } else {
            batch_deleted_ms(ss, ids.drop_first())
        }
    }
}

/// The same deletions as a multiset of log entries.
pub open spec fn batch_deleted_delta_ms(ss: Seq<Selection>, ids: Seq<Position>) -> Multiset<
    SelectionDelta,
>
    decreases ids.len(),
{
    if ids.len() == 0 {
        Multiset::empty()
    } else {
        let fi = find_id(ss, ids[0]);
        if fi >= 0 {
            batch_deleted_delta_ms(ss.remove(fi), ids.drop_first()).insert(
                SelectionDelta::Deleted(ss[fi]),
            )
        } else {
            batch_deleted_delta_ms(ss, ids.drop_first())
        }
    }
}

/// Exactly what applying a batch does: each requested id is deleted in
/// order, and the default selection is restored if nothing remains.
pub open spec fn apply_batch_outcome(
    ss: Seq<Selection>,
    ids: Seq<Position>,
    ss2: Seq<Selection>,
    ds: Seq<SelectionDelta>,
) -> bool {
    let mid = batch_delete_seq(ss, ids);
    if mid.len() == 0 {
        &&& ss2 == seq![default_selection()]
        &&& ds.to_multiset() == batch_deleted_delta_ms(ss, ids).insert(
            SelectionDelta::Created(default_selection()),
        )
    } else {
        &&& ss2 == mid
        &&& ds.to_multiset() == batch_deleted_delta_ms(ss, ids)
    }
}

impl SelectionStorage {
    /// Applies a batch of commands to the selection storage.
    ///
    /// Only the batch's deletions are applied: movement lacks the line
    /// metrics it would need here, and insertions are left to the dedicated
    /// entry points, so both are ignored.  As with a plain deletion, the
    /// default selection is restored when the storage would stay empty.
    pub fn apply_batch(&mut self, batch: SelectionCommandsBatch) -> (deltas: SelectionDeltas)
        requires
            well_formed(old(self)@),
        ensures
            well_formed(final(self)@),
            final(self)@.len() >= 1,
            deltas_sorted(deltas@),
            apply_batch_outcome(old(self)@, batch_delete_ids(batch), final(self)@, deltas@),
            deltas_faithful(old(self)@, final(self)@, deltas@),
    {
        let ghost ss = self@;
        let ghost all_ids = batch_delete_ids(batch);
        let mut deltas = SelectionDeltas::new();
        proof {
            broadcast use vstd::multiset::group_multiset_axioms;

        }
        let ids: Vec<Position> = match batch.to_delete {
            Some(v) => v,
            None => Vec::new(),
        };
        proof {
            assert(ids@ == all_ids || all_ids == Seq::<Position>::empty());
            if all_ids != ids@ {
                assert(ids@ =~= all_ids);
            }
        }
        proof {
            assert(all_ids.skip(0) =~= all_ids);
            assert(deltas@.to_multiset() =~= Multiset::<SelectionDelta>::empty()) by {
                broadcast use vstd::seq_lib::group_to_multiset_ensures;

                assert forall|x: SelectionDelta| deltas@.to_multiset().count(x) == 0 by {
                    assert(!deltas@.contains(x));
                }
            }
            assert(batch_deleted_ms(ss, all_ids) =~= deltas_removed(deltas@).add(
                batch_deleted_ms(ss, all_ids),
            ));
            assert(batch_deleted_delta_ms(ss, all_ids) =~= deltas@.to_multiset().add(
                batch_deleted_delta_ms(ss, all_ids),
            ));
            assert(ss.to_multiset() =~= ss.to_multiset().sub(deltas_removed(deltas@)));
        }
        let mut i: usize = 0;
        while i < ids.len()
            invariant
                ids@ == all_ids,
                i <= all_ids.len(),
                well_formed(self@),
                deltas_sorted(deltas@),
                batch_delete_seq(ss, all_ids) == batch_delete_seq(
                    self@,
                    all_ids.skip(i as int),
                ),
                batch_deleted_ms(ss, all_ids) == deltas_removed(deltas@).add(
                    batch_deleted_ms(self@, all_ids.skip(i as int)),
                ),
                batch_deleted_delta_ms(ss, all_ids) == deltas@.to_multiset().add(
                    batch_deleted_delta_ms(self@, all_ids.skip(i as int)),
                ),
                deltas_added(deltas@) == Multiset::<Selection>::empty(),
                self@.to_multiset() == ss.to_multiset().sub(deltas_removed(deltas@)),
                forall|x: SelectionDelta| #[trigger]
                    deltas@.contains(x) ==> x is Deleted && (forall|j: int|
                        0 <= j < self@.len() ==> !pos_weak_eq(
                            crate::deltas::delta_sort_pos(x),
                            #[trigger] self@[j].from,
                        )),
            decreases all_ids.len() - i,
        {
            let ghost cur = self@;
            let ghost dpre = deltas@;
            proof {
                lemma_find_id_props(cur, ids@[i as int]);
                assert(all_ids.skip(i as int).drop_first() =~= all_ids.skip(i + 1));
                assert(all_ids.skip(i as int)[0] == all_ids[i as int]);
            }
            if let Some(idx) = self.find_index_by_id(&ids[i]) {
                let s = self.selections.remove(idx);
                proof {
                    lemma_wf_remove(cur, idx as int);
                    assert forall|t: int| 0 <= t < dpre.len() implies !crate::deltas::delta_key_eq(
                        #[trigger] dpre[t],
                        SelectionDelta::Deleted(s),
                    ) by {
                        assert(dpre.contains(dpre[t]));
                        assert(!pos_weak_eq(crate::deltas::delta_sort_pos(dpre[t]), cur[idx as int].from));
                    }
                }
                deltas.push_deleted(s);
                proof {
                    broadcast use vstd::seq_lib::to_multiset_remove;
                    broadcast use vstd::seq_lib::group_to_multiset_ensures;

                    assert(cur.to_multiset().contains(s)) by {
                        assert(cur[idx as int] == s);
                        assert(cur.contains(s));
                    }
                    assert(self@.to_multiset() =~= ss.to_multiset().sub(
                        deltas_removed(deltas@),
                    ));
                    assert forall|x: SelectionDelta| #[trigger]
                        deltas@.contains(x) implies x is Deleted && (forall|j: int|
                        0 <= j < self@.len() ==> !pos_weak_eq(
                            crate::deltas::delta_sort_pos(x),
                            #[trigger] self@[j].from,
                        )) by {
                        if dpre.contains(x) {
                            assert forall|j: int| 0 <= j < self@.len() implies !pos_weak_eq(
                                crate::deltas::delta_sort_pos(x),
                                #[trigger] self@[j].from,
                            ) by {
                                assert(cur.contains(self@[j])) by {
                                    if j < idx {
                                        assert(self@[j] == cur[j]);
                                    } else {
                                        assert(self@[j] == cur[j + 1]);
                                    }
                                }
                                let jj = choose|jj: int|
                                    0 <= jj < cur.len() && cur[jj] == self@[j];
                                assert(!pos_weak_eq(crate::deltas::delta_sort_pos(x), cur[jj].from));
                            }
                        } else {
                            assert(x == SelectionDelta::Deleted(s));
                            assert forall|j: int| 0 <= j < self@.len() implies !pos_weak_eq(
                                crate::deltas::delta_sort_pos(x),
                                #[trigger] self@[j].from,
                            ) by {
                                if j < idx {
                                    assert(self@[j] == cur[j]);
                                } else {
                                    assert(self@[j] == cur[j + 1]);
                                }
                            }
                        }
                    }
                }
            }
            i = i + 1;
        }
        proof {
            assert(all_ids.skip(all_ids.len() as int) =~= Seq::<Position>::empty());
            assert(batch_delete_seq(ss, all_ids) == self@);
            assert(deltas@.to_multiset() =~= batch_deleted_delta_ms(ss, all_ids)) by {
                assert(batch_deleted_delta_ms(self@, Seq::<Position>::empty()) == Multiset::<
                    SelectionDelta,
                >::empty());
            }
        }

        if self.selections.len() == 0 {
            let restored = Selection::default();
            self.selections.push(restored);
            proof {
                let dpre = deltas@;
                assert forall|t: int| 0 <= t < dpre.len() implies !crate::deltas::delta_key_eq(
                    #[trigger] dpre[t],
                    SelectionDelta::Created(restored),
                ) by {
                    assert(dpre.contains(dpre[t]));
                }
            }
            deltas.push_created(restored);
            proof {
                assert(self@ =~= seq![default_selection()]);
                broadcast use vstd::seq_lib::group_to_multiset_ensures;

                assert(self@.to_multiset() =~= ss.to_multiset().sub(
                    deltas_removed(deltas@),
                ).add(deltas_added(deltas@))) by {
                    assert(Seq::<Selection>::empty().push(restored) =~= self@);
                }
            }
        } else {
            proof {
                assert(self@.to_multiset() =~= ss.to_multiset().sub(
                    deltas_removed(deltas@),
                ).add(deltas_added(deltas@)));
            }
        }
        deltas
    }
}

} // verus!
