//! Insertion of selections into the storage, merging or replacing overlaps.

use vstd::multiset::Multiset;
use vstd::prelude::*;

use crate::deltas::{
    deltas_added, deltas_removed, deltas_sorted, SelectionDelta, SelectionDeltas,
};
use crate::position::{pos_le, pos_lt, pos_weak_eq};
use crate::selection::{sel_valid, Selection};
use crate::storage::{lemma_pairwise_disjoint, overlaps, well_formed, SelectionStorage};

verus! {

/// No stored selection intersects the span of `sel`.
pub open spec fn no_overlap(ss: Seq<Selection>, sel: Selection) -> bool {
    forall|i: int| 0 <= i < ss.len() ==> !overlaps(#[trigger] ss[i], sel.from, sel.to)
}

/// The selection that replaces an overlap run `[a, b]`: the inserted one in
/// replace mode; in merge mode its span widened to cover the first and last
/// overlapped selections, with the inserted selection's direction.  Position
/// ties keep the stored `from` and the inserted `to`.
pub open spec fn merged_selection(
    ss: Seq<Selection>,
    sel: Selection,
    a: int,
    b: int,
    replace: bool,
) -> Selection {
    if replace {
        sel
    } else {
        Selection {
            from: if pos_lt(sel.from, ss[a].from) {
                sel.from
            } else {
                ss[a].from
            },
            to: if pos_lt(sel.to, ss[b].to) {
                ss[b].to
            } else {
                sel.to
            },
            direction: sel.direction,
        }
    }
}

/// A sequence of selections as a log of deletions.
pub open spec fn deleted_log(ss: Seq<Selection>) -> Seq<SelectionDelta> {
    ss.map_values(|s: Selection| SelectionDelta::Deleted(s))
}

/// The log a mutation returns edits the selection set faithfully: removing
/// what the log deletes (prior states included) and adding what it creates
/// (new states included) turns the old set into the new one.
pub open spec fn deltas_faithful(
    before: Seq<Selection>,
    after: Seq<Selection>,
    ds: Seq<SelectionDelta>,
) -> bool {
    after.to_multiset() == before.to_multiset().sub(deltas_removed(ds)).add(deltas_added(ds))
}

/// Exactly what an insertion does.  Without overlaps the selection is
/// spliced in at its sorted place and logged as created.  With overlaps, the
/// contiguous run `[a, b]` of overlapped selections is replaced by the one
/// [`merged_selection`] builds, the log deletes every selection of the run
/// and creates the replacement.
pub open spec fn insert_outcome(
    ss: Seq<Selection>,
    sel: Selection,
    replace: bool,
    ss2: Seq<Selection>,
    ds: Seq<SelectionDelta>,
) -> bool {
    if no_overlap(ss, sel) {
        exists|k: int|
            {
                &&& 0 <= k <= ss.len()
                &&& (forall|j: int| 0 <= j < k ==> pos_lt(#[trigger] ss[j].to, sel.from))
                &&& (forall|j: int| k <= j < ss.len() ==> pos_lt(sel.to, #[trigger] ss[j].from))
                &&& ss2 == #[trigger] ss.insert(k, sel)
                &&& ds == seq![SelectionDelta::Created(sel)]
            }
    } else {
        exists|a: int, b: int|
            {
                &&& 0 <= a <= b < ss.len()
                &&& (forall|i: int|
                    0 <= i < ss.len() ==> (overlaps(#[trigger] ss[i], sel.from, sel.to) <==> a <= i
                        <= b))
                &&& ss2 == ss.subrange(0, a) + seq![
                    #[trigger] merged_selection(ss, sel, a, b, replace),
                ] + ss.subrange(b + 1, ss.len() as int)
                &&& ds.to_multiset() == deleted_log(ss.subrange(a, b + 1)).to_multiset().insert(
                    SelectionDelta::Created(merged_selection(ss, sel, a, b, replace)),
                )
            }
    }
}

impl SelectionStorage {
    /// Insert a selection.  If the inserted selection overlaps with existing
    /// ones, all of them merge into one selection spanning them all.
    pub fn insert(&mut self, selection: Selection) -> (deltas: SelectionDeltas)
        requires
            well_formed(old(self)@),
            sel_valid(selection),
        ensures
            well_formed(final(self)@),
            final(self)@.len() >= 1,
            deltas_sorted(deltas@),
            insert_outcome(old(self)@, selection, false, final(self)@, deltas@),
            deltas_faithful(old(self)@, final(self)@, deltas@),
    {
        self.insert_internal(selection, false)
    }

    /// Insert a selection.  If the inserted selection overlaps with existing
    /// ones, all of them are replaced by the inserted one.
    pub fn insert_replacing(&mut self, selection: Selection) -> (deltas: SelectionDeltas)
        requires
            well_formed(old(self)@),
            sel_valid(selection),
        ensures
            well_formed(final(self)@),
            final(self)@.len() >= 1,
            deltas_sorted(deltas@),
            insert_outcome(old(self)@, selection, true, final(self)@, deltas@),
            deltas_faithful(old(self)@, final(self)@, deltas@),
    {
        self.insert_internal(selection, true)
    }

    /// Insert a selection, resolving overlaps by replacement (`replace`) or
    /// by merging (`!replace`).
    pub(crate) fn insert_internal(&mut self, selection: Selection, replace: bool) -> (deltas:
        SelectionDeltas)
        requires
            well_formed(old(self)@),
            sel_valid(selection),
        ensures
            well_formed(final(self)@),
            final(self)@.len() >= 1,
            deltas_sorted(deltas@),
            insert_outcome(old(self)@, selection, replace, final(self)@, deltas@),
            deltas_faithful(old(self)@, final(self)@, deltas@),
    {
        match self.find_overlapping_indicies(&selection.from, &selection.to) {
            Err(index_to_insert) => self.insert_no_overlap(selection, replace, index_to_insert),
            Ok((a, b)) => self.insert_over_run(selection, replace, a, b),
        }
    }

    /// Splices a selection that overlaps nothing in at its sorted index.
    fn insert_no_overlap(&mut self, selection: Selection, replace: bool, index_to_insert: usize)
        -> (deltas: SelectionDeltas)
        requires
            well_formed(old(self)@),
            sel_valid(selection),
            index_to_insert <= old(self)@.len(),
            forall|j: int|
                0 <= j < old(self)@.len() ==> !overlaps(
                    #[trigger] old(self)@[j],
                    selection.from,
                    selection.to,
                ),
            forall|j: int|
                0 <= j < index_to_insert ==> pos_lt(#[trigger] old(self)@[j].to, selection.from),
            forall|j: int|
                index_to_insert <= j < old(self)@.len() ==> pos_lt(
                    selection.to,
                    #[trigger] old(self)@[j].from,
                ),
        ensures
            well_formed(final(self)@),
            final(self)@.len() >= 1,
            deltas_sorted(deltas@),
            insert_outcome(old(self)@, selection, replace, final(self)@, deltas@),
            deltas_faithful(old(self)@, final(self)@, deltas@),
    {
        let ghost ss = self@;
        proof {
            broadcast use vstd::seq_lib::to_multiset_insert;
            broadcast use vstd::multiset::group_multiset_axioms;

        }
        let mut deltas = SelectionDeltas::new();
        // No overlaps found, just insert the selection.
        self.selections.insert(index_to_insert, selection);
        deltas.push_created(selection);
        proof {
            let k = index_to_insert as int;
            ss.insert_ensures(k, selection);
            assert(well_formed(self@)) by {
                assert forall|i: int| 0 <= i && i + 1 < self@.len() implies pos_lt(
                    #[trigger] self@[i].to,
                    self@[i + 1].from,
                ) by {
                    if i + 1 < k {
                        assert(self@[i] == ss[i] && self@[i + 1] == ss[i + 1]);
                    } else if i > k {
                        assert(self@[i] == ss[i - 1] && self@[i + 1] == ss[i]);
                    }
                }
                assert forall|i: int| 0 <= i < self@.len() implies sel_valid(
                    #[trigger] self@[i],
                ) by {
                    if i < k {
                        assert(self@[i] == ss[i]);
                    } else if i > k {
                        assert(self@[i] == ss[i - 1]);
                    }
                }
            }
            assert(no_overlap(ss, selection));
            assert(insert_outcome(ss, selection, replace, self@, deltas@)) by {
                let kk = choose|kk: int|
                    0 <= kk <= 0 && deltas@ == Seq::<SelectionDelta>::empty().insert(
                        kk,
                        SelectionDelta::Created(selection),
                    );
                assert(deltas@ =~= seq![SelectionDelta::Created(selection)]);
                assert(self@ == ss.insert(k, selection));
            }
            assert(deltas_faithful(ss, self@, deltas@)) by {
                assert(self@.to_multiset() =~= ss.to_multiset().sub(
                    deltas_removed(deltas@),
                ).add(deltas_added(deltas@)));
            }
        }
        deltas
    }

    /// Replaces the run `[a, b]` of selections overlapping the inserted one
    /// by the merged (or replacing) selection, logging the changes.
    #[verifier::rlimit(100)]
    fn insert_over_run(&mut self, selection: Selection, replace: bool, a: usize, b: usize) -> (
        deltas: SelectionDeltas)
        requires
            well_formed(old(self)@),
            sel_valid(selection),
            a <= b < old(self)@.len(),
            forall|i: int|
                0 <= i < old(self)@.len() ==> (overlaps(
                    #[trigger] old(self)@[i],
                    selection.from,
                    selection.to,
                ) <==> a <= i <= b),
        ensures
            well_formed(final(self)@),
            final(self)@.len() >= 1,
            deltas_sorted(deltas@),
            insert_outcome(old(self)@, selection, replace, final(self)@, deltas@),
            deltas_faithful(old(self)@, final(self)@, deltas@),
    {
        let ghost ss = self@;
        proof {
            lemma_pairwise_disjoint(ss);
        }
        let mut deltas = SelectionDeltas::new();
        let ghost ag = a as int;
        let ghost bg = b as int;
        // Build the selection to insert depending on `replace`:
        let selection_to_insert = if replace {
            selection
        } else {
            let first_from = self.selections[a].from;
            let last_to = self.selections[b].to;
            Selection {
                from: if selection.from.precedes(&first_from) {
                    selection.from
                } else {
                    first_from
                },
                to: if selection.to.precedes(&last_to) {
                    last_to
                } else {
                    selection.to
                },
                direction: selection.direction,
            }
        };
        let ghost merged = merged_selection(ss, selection, ag, bg, replace);
        proof {
            assert(selection_to_insert == merged);
            broadcast use vstd::seq_lib::group_to_multiset_ensures;

            assert(ss.subrange(ag + 1, ag + 1) =~= Seq::<Selection>::empty());
            assert(deleted_log(Seq::<Selection>::empty())
                =~= Seq::<SelectionDelta>::empty());
            assert(deltas@.to_multiset() =~= Seq::<
                SelectionDelta,
            >::empty().to_multiset());
            assert(ss.subrange(ag + 1, ag + 1).to_multiset() =~= Multiset::<
                Selection,
            >::empty()) by {
                assert(ss.subrange(ag + 1, ag + 1).to_multiset().len() == 0);
            }
            assert(self.selections@ =~= ss.subrange(0, ag + 1) + ss.subrange(
                ag + 1,
                ss.len() as int,
            ));
        }

        // Remove all overlapping selections except the first one:
        let mut removed: usize = 0;
        while removed < b - a
            invariant
                well_formed(ss),
                forall|i: int, j: int|
                    0 <= i < j < ss.len() ==> pos_lt(
                        #[trigger] ss[i].from,
                        #[trigger] ss[j].from,
                    ),
                0 <= ag <= bg < ss.len(),
                a == ag && b == bg,
                removed <= bg - ag,
                self.selections@ == ss.subrange(0, ag + 1) + ss.subrange(
                    ag + 1 + removed,
                    ss.len() as int,
                ),
                deltas_sorted(deltas@),
                deltas@.to_multiset() == deleted_log(
                    ss.subrange(ag + 1, ag + 1 + removed),
                ).to_multiset(),
                deltas_removed(deltas@) == ss.subrange(
                    ag + 1,
                    ag + 1 + removed,
                ).to_multiset(),
                deltas_added(deltas@) == Multiset::<Selection>::empty(),
                forall|x: SelectionDelta|
                    #[trigger] deltas@.contains(x) ==> exists|j: int|
                        ag + 1 <= j < ag + 1 + removed && x == SelectionDelta::Deleted(
                            ss[j],
                        ),
            decreases b - a - removed,
        {
            let ghost pre = self.selections@;
            let ghost dpre = deltas@;
            let s = self.selections.remove(a + 1);
            proof {
                assert(s == ss[ag + 1 + removed]);
                assert forall|i: int| 0 <= i < dpre.len() implies !crate::deltas::delta_key_eq(
                    #[trigger] dpre[i],
                    SelectionDelta::Deleted(s),
                ) by {
                    assert(dpre.contains(dpre[i]));
                    let j = choose|j: int|
                        ag + 1 <= j < ag + 1 + removed && dpre[i]
                            == SelectionDelta::Deleted(ss[j]);
                    assert(pos_lt(ss[j].from, ss[ag + 1 + removed].from));
                }
            }
            deltas.push_deleted(s);
            removed = removed + 1;
            proof {
                assert(self.selections@ =~= ss.subrange(0, ag + 1) + ss.subrange(
                    ag + 1 + removed,
                    ss.len() as int,
                ));
                lemma_deleted_log_push(ss.subrange(ag + 1, ag + 1 + removed - 1), s);
                assert(ss.subrange(ag + 1, ag + 1 + removed - 1).push(s) =~= ss.subrange(
                    ag + 1,
                    ag + 1 + removed,
                ));
                broadcast use vstd::seq_lib::to_multiset_build;

                assert(deltas@.to_multiset() =~= deleted_log(
                    ss.subrange(ag + 1, ag + 1 + removed),
                ).to_multiset());
                assert(deltas_removed(deltas@) =~= ss.subrange(
                    ag + 1,
                    ag + 1 + removed,
                ).to_multiset());
            }
        }

        // Replace the first overlapping selection with the new one:
        let old_first = self.selections[a];
        self.selections.set(a, selection_to_insert);
        proof {
            assert(old_first == ss[ag]);
        }
        proof {
            let dpre = deltas@;
            assert forall|i: int| 0 <= i < dpre.len() implies !crate::deltas::delta_key_eq(
                #[trigger] dpre[i],
                SelectionDelta::Created(selection_to_insert),
            ) by {
                assert(dpre.contains(dpre[i]));
            }
        }
        deltas.push_created(selection_to_insert);
        proof {
            let dpre = deltas@;
            assert forall|i: int| 0 <= i < dpre.len() implies !crate::deltas::delta_key_eq(
                #[trigger] dpre[i],
                SelectionDelta::Deleted(old_first),
            ) by {
                assert(dpre.contains(dpre[i]));
            }
        }
        deltas.push_deleted(old_first);

        proof {
            assert(self@ =~= ss.subrange(0, ag) + seq![merged] + ss.subrange(
                bg + 1,
                ss.len() as int,
            ));
            lemma_insert_ok_post(ss, selection, replace, ag, bg, self@, deltas@);
        }
        deltas
    }
}

/// The state and log an insertion with overlaps leaves behind satisfy the
/// insertion contract: the storage stays well formed and the log is faithful.
proof fn lemma_insert_ok_post(
    ss: Seq<Selection>,
    sel: Selection,
    replace: bool,
    a: int,
    b: int,
    ss2: Seq<Selection>,
    ds: Seq<SelectionDelta>,
)
    requires
        well_formed(ss),
        sel_valid(sel),
        0 <= a <= b < ss.len(),
        forall|i: int|
            0 <= i < ss.len() ==> (overlaps(#[trigger] ss[i], sel.from, sel.to) <==> a <= i <= b),
        ss2 == ss.subrange(0, a) + seq![merged_selection(ss, sel, a, b, replace)] + ss.subrange(
            b + 1,
            ss.len() as int,
        ),
        ds.to_multiset() == deleted_log(ss.subrange(a + 1, b + 1)).to_multiset().insert(
            SelectionDelta::Created(merged_selection(ss, sel, a, b, replace)),
        ).insert(SelectionDelta::Deleted(ss[a])),
        deltas_removed(ds) == ss.subrange(a + 1, b + 1).to_multiset().insert(ss[a]),
        deltas_added(ds) == Multiset::<Selection>::empty().insert(
            merged_selection(ss, sel, a, b, replace),
        ),
    ensures
        well_formed(ss2),
        ss2.len() >= 1,
        insert_outcome(ss, sel, replace, ss2, ds),
        deltas_faithful(ss, ss2, ds),
{
    broadcast use vstd::multiset::group_multiset_axioms;

    let merged = merged_selection(ss, sel, a, b, replace);
    lemma_merged_fits(ss, sel, a, b, replace);
    assert(well_formed(ss2)) by {
        assert forall|i: int| 0 <= i && i + 1 < ss2.len() implies pos_lt(
            #[trigger] ss2[i].to,
            ss2[i + 1].from,
        ) by {
            if i + 1 < a {
                assert(ss2[i] == ss[i] && ss2[i + 1] == ss[i + 1]);
            } else if i + 1 == a {
                assert(ss2[i] == ss[i] && ss2[i + 1] == merged);
            } else if i == a {
                assert(ss2[i] == merged && ss2[i + 1] == ss[i + b - a + 1]);
            } else {
                assert(ss2[i] == ss[i + b - a] && ss2[i + 1] == ss[i + b - a + 1]);
            }
        }
        assert forall|i: int| 0 <= i < ss2.len() implies sel_valid(#[trigger] ss2[i]) by {
            if i < a {
                assert(ss2[i] == ss[i]);
            } else if i > a {
                assert(ss2[i] == ss[i + b - a]);
            }
        }
    }
    assert(!no_overlap(ss, sel)) by {
        assert(overlaps(ss[a], sel.from, sel.to));
    }
    assert(insert_outcome(ss, sel, replace, ss2, ds)) by {
        assert(deleted_log(ss.subrange(a, b + 1)).to_multiset() =~= deleted_log(
            ss.subrange(a + 1, b + 1),
        ).to_multiset().insert(SelectionDelta::Deleted(ss[a]))) by {
            lemma_deleted_log_first(ss, a, b);
        }
        assert(ds.to_multiset() =~= deleted_log(ss.subrange(a, b + 1)).to_multiset().insert(
            SelectionDelta::Created(merged),
        ));
    }
    assert(deltas_faithful(ss, ss2, ds)) by {
        assert(deltas_removed(ds) == ss.subrange(a, b + 1).to_multiset()) by {
            broadcast use vstd::seq_lib::to_multiset_insert;

            assert(ss.subrange(a + 1, b + 1).insert(0, ss[a]) =~= ss.subrange(a, b + 1));
        }
        lemma_split_three(ss, a, b);
        assert(ss2.to_multiset() == ss2.subrange(0, a).to_multiset().add(
            ss2.subrange(a, a + 1).to_multiset(),
        ).add(ss2.subrange(a + 1, ss2.len() as int).to_multiset())) by {
            lemma_split_three(ss2, a, a);
        }
        assert(ss2.subrange(0, a) =~= ss.subrange(0, a));
        assert(ss2.subrange(a, a + 1) =~= seq![merged]);
        assert(ss2.subrange(a + 1, ss2.len() as int) =~= ss.subrange(b + 1, ss.len() as int));
        assert(seq![merged].to_multiset() =~= Multiset::<Selection>::empty().insert(merged)) by {
            broadcast use vstd::seq_lib::group_to_multiset_ensures;

            assert(seq![merged].drop_last() =~= Seq::<Selection>::empty());
            assert(Seq::<Selection>::empty().push(merged) =~= seq![merged]);
            broadcast use vstd::seq_lib::to_multiset_build;

        }
        assert(ss2.to_multiset() =~= ss.to_multiset().sub(deltas_removed(ds)).add(
            deltas_added(ds),
        ));
    }
}

/// Mapping a deletion log over one more selection appends one more delta.
pub(crate) proof fn lemma_deleted_log_push(ss: Seq<Selection>, s: Selection)
    ensures
        deleted_log(ss.push(s)) == deleted_log(ss).push(SelectionDelta::Deleted(s)),
{
    assert(deleted_log(ss.push(s)) =~= deleted_log(ss).push(SelectionDelta::Deleted(s)));
}

/// Splitting the first selection off a deletion log.
proof fn lemma_deleted_log_first(ss: Seq<Selection>, a: int, b: int)
    requires
        0 <= a <= b < ss.len(),
    ensures
        deleted_log(ss.subrange(a, b + 1)).to_multiset() == deleted_log(
            ss.subrange(a + 1, b + 1),
        ).to_multiset().insert(SelectionDelta::Deleted(ss[a])),
{
    broadcast use vstd::seq_lib::to_multiset_insert;

    assert(deleted_log(ss.subrange(a + 1, b + 1)).insert(0, SelectionDelta::Deleted(ss[a]))
        =~= deleted_log(ss.subrange(a, b + 1)));
}

/// A sequence splits around `[a, b]` into prefix, run and suffix; their
/// multisets add up.
pub(crate) proof fn lemma_split_three(ss: Seq<Selection>, a: int, b: int)
    requires
        0 <= a <= b < ss.len(),
    ensures
        ss.to_multiset() == ss.subrange(0, a).to_multiset().add(
            ss.subrange(a, b + 1).to_multiset(),
        ).add(ss.subrange(b + 1, ss.len() as int).to_multiset()),
{
    broadcast use vstd::seq_lib::lemma_multiset_commutative;

    assert(ss =~= (ss.subrange(0, a) + ss.subrange(a, b + 1)) + ss.subrange(
        b + 1,
        ss.len() as int,
    ));
    assert((ss.subrange(0, a) + ss.subrange(a, b + 1)).to_multiset() == ss.subrange(
        0,
        a,
    ).to_multiset().add(ss.subrange(a, b + 1).to_multiset()));
}

/// The merged selection fits the hole the overlap run leaves: it is valid,
/// starts after the selection before the run and ends before the selection
/// after it.
proof fn lemma_merged_fits(ss: Seq<Selection>, sel: Selection, a: int, b: int, replace: bool)
    requires
        well_formed(ss),
        sel_valid(sel),
        0 <= a <= b < ss.len(),
        forall|i: int|
            0 <= i < ss.len() ==> (overlaps(#[trigger] ss[i], sel.from, sel.to) <==> a <= i <= b),
    ensures
        sel_valid(merged_selection(ss, sel, a, b, replace)),
        a > 0 ==> pos_lt(ss[a - 1].to, merged_selection(ss, sel, a, b, replace).from),
        b + 1 < ss.len() ==> pos_lt(merged_selection(ss, sel, a, b, replace).to, ss[b + 1].from),
{
    lemma_pairwise_disjoint(ss);
    let m = merged_selection(ss, sel, a, b, replace);
    assert(overlaps(ss[a], sel.from, sel.to));
    assert(overlaps(ss[b], sel.from, sel.to));
    assert(sel_valid(ss[a]));
    assert(sel_valid(ss[b]));
    if a > 0 {
        assert(!overlaps(ss[a - 1], sel.from, sel.to));
        assert(sel_valid(ss[a - 1]));
        if a < b {
            assert(pos_lt(ss[a - 1].to, ss[a].from));
        }
    }
    if b + 1 < ss.len() {
        assert(!overlaps(ss[b + 1], sel.from, sel.to));
        assert(sel_valid(ss[b + 1]));
    }
}

} // verus!
