//! Movement of single selections inside the storage.

use vstd::multiset::Multiset;
use vstd::prelude::*;

use crate::deltas::{deltas_added, deltas_removed, deltas_sorted, SelectionDelta, SelectionDeltas};
use crate::position::{lengths_bounded, pos_le, pos_lt, Position};
use crate::selection::{
    moved_within_side, sel_cursor, sel_move_down_spec, sel_move_left_spec, sel_move_right_spec,
    sel_move_up_spec, sel_valid, Selection,
};
use crate::storage::batch::MovementDirection;
use crate::storage::insert::{deleted_log, deltas_faithful};
use crate::storage::{
    find_id, lemma_find_id_props, lemma_pairwise_disjoint, lemma_wf_remove, overlaps, well_formed,
    SelectionStorage,
};
use crate::LineLength;

verus! {

/// Where a selection of the storage lands when moved in `direction`.
pub open spec fn moved_selection(
    direction: MovementDirection,
    ll: Seq<usize>,
    s: Selection,
    n: int,
    extend: bool,
) -> Selection {
    match direction {
        MovementDirection::Left => sel_move_left_spec(ll, s, n, extend),
        MovementDirection::Right => sel_move_right_spec(ll, s, n, extend),
        MovementDirection::Up => sel_move_up_spec(ll, s, n, extend),
        MovementDirection::Down => sel_move_down_spec(ll, s, n, extend),
    }
}

/// An extending move that collides absorbs the collided edge on the motion
/// side: the overlapped selection farthest in the motion's direction lends
/// its outer endpoint to the moved selection.
pub open spec fn widened_selection(
    direction: MovementDirection,
    rest: Seq<Selection>,
    s_new: Selection,
    a: int,
    b: int,
    extend: bool,
) -> Selection {
    if !extend {
        s_new
    } else if direction.towards_beginning() {
        Selection {
            from: if pos_lt(rest[a].from, s_new.from) {
                rest[a].from
            } else {
                s_new.from
            },
            ..s_new
        }
    } else {
        Selection {
            to: if pos_lt(s_new.to, rest[b].to) {
                rest[b].to
            } else {
                s_new.to
            },
            ..s_new
        }
    }
}

/// A collision-free landing: among the selections other than the moved one
/// (`rest`), none intersects the moved selection, which sits at its sorted
/// place `k`; the log holds the one update.
pub open spec fn move_landed_outcome(
    rest: Seq<Selection>,
    s_old: Selection,
    s_new: Selection,
    ss2: Seq<Selection>,
    ds: Seq<SelectionDelta>,
) -> bool {
    &&& (forall|j: int| 0 <= j < rest.len() ==> !overlaps(#[trigger] rest[j], s_new.from, s_new.to))
    &&& exists|k: int|
        {
            &&& 0 <= k <= rest.len()
            &&& (forall|j: int| 0 <= j < k ==> pos_lt(#[trigger] rest[j].to, s_new.from))
            &&& (forall|j: int| k <= j < rest.len() ==> pos_lt(s_new.to, #[trigger] rest[j].from))
            &&& ss2 == #[trigger] rest.insert(k, s_new)
        }
    &&& ds == seq![SelectionDelta::Updated { old: s_old, new: s_new }]
}

/// A colliding landing: the moved selection intersects the contiguous run
/// `[a, b]` of the other selections (`rest`), absorbs it — widened over the
/// run's outer edge when extending — and the log deletes the run and updates
/// the moved selection.
pub open spec fn move_collision_outcome(
    direction: MovementDirection,
    rest: Seq<Selection>,
    s_old: Selection,
    s_new: Selection,
    extend: bool,
    ss2: Seq<Selection>,
    ds: Seq<SelectionDelta>,
) -> bool {
    &&& !(forall|j: int|
        0 <= j < rest.len() ==> !overlaps(#[trigger] rest[j], s_new.from, s_new.to))
    &&& exists|a: int, b: int|
        {
            &&& 0 <= a <= b < rest.len()
            &&& (forall|i: int|
                0 <= i < rest.len() ==> (overlaps(#[trigger] rest[i], s_new.from, s_new.to) <==> a
                    <= i <= b))
            &&& ss2 == rest.subrange(0, a) + seq![
                #[trigger] widened_selection(direction, rest, s_new, a, b, extend),
            ] + rest.subrange(b + 1, rest.len() as int)
            &&& ds.to_multiset() == deleted_log(rest.subrange(a, b + 1)).to_multiset().insert(
                SelectionDelta::Updated {
                    old: s_old,
                    new: widened_selection(direction, rest, s_new, a, b, extend),
                },
            )
        }
}

/// What a movement demands of the buffer: the moved selection's cursor lies
/// on an existing line (or the buffer is empty), and a rightward step count
/// cannot push the column past the largest machine integer.
pub open spec fn move_requires(
    direction: MovementDirection,
    ll: Seq<usize>,
    ss: Seq<Selection>,
    id: Position,
    n: int,
) -> bool {
    find_id(ss, id) >= 0 ==> {
        let c = sel_cursor(ss[find_id(ss, id)]);
        &&& (ll.len() == 0 || (c.line as int) < ll.len())
        &&& (direction is Right ==> c.column + n <= usize::MAX)
    }
}

/// Exactly what moving one selection does.  A zero-step move or an unknown
/// id changes nothing.  Otherwise the identified selection leaves its slot,
/// moves, and among the remaining selections (`rest`) either lands at its
/// sorted place without collisions — logged as one update — or collides with
/// the contiguous run `[a, b]`, which it absorbs: the run is deleted from the
/// storage and the moved selection (widened over the run's outer edge when
/// extending) takes its place.
pub open spec fn move_single_outcome(
    direction: MovementDirection,
    ll: Seq<usize>,
    ss: Seq<Selection>,
    id: Position,
    n: int,
    extend: bool,
    ss2: Seq<Selection>,
    ds: Seq<SelectionDelta>,
) -> bool {
    let fi = find_id(ss, id);
    if n == 0 || fi < 0 {
        ss2 == ss && ds == Seq::<SelectionDelta>::empty()
    } else {
        let s_old = ss[fi];
        let s_new = moved_selection(direction, ll, s_old, n, extend);
        let rest = ss.remove(fi);
        if forall|j: int| 0 <= j < rest.len() ==> !overlaps(#[trigger] rest[j], s_new.from, s_new.to) {
            move_landed_outcome(rest, s_old, s_new, ss2, ds)
        } else {
            move_collision_outcome(direction, rest, s_old, s_new, extend, ss2, ds)
        }
    }
}

impl MovementDirection {
    /// Applies the direction's selection movement.
    pub(crate) fn new_selection_state<L: LineLength>(
        &self,
        selection: &Selection,
        line_lengths: &L,
        n: usize,
        extend: bool,
    ) -> (r: Selection)
        requires
            sel_valid(*selection),
            lengths_bounded(line_lengths.lengths()),
            line_lengths.lengths().len() == 0 || (sel_cursor(*selection).line as int)
                < line_lengths.lengths().len(),
            *self is Right ==> sel_cursor(*selection).column + n <= usize::MAX,
        ensures
            r == moved_selection(*self, line_lengths.lengths(), *selection, n as int, extend),
            sel_valid(r),
            moved_within_side(*selection, r),
    {
        match self {
            MovementDirection::Left => selection.move_left(line_lengths, n, extend),
            MovementDirection::Right => selection.move_right(line_lengths, n, extend),
            MovementDirection::Up => selection.move_up(line_lengths, n, extend),
            MovementDirection::Down => selection.move_down(line_lengths, n, extend),
        }
    }
}

impl SelectionStorage {
    /// Moves the selection identified by `id` (its `from` component) `n`
    /// columns left.  Collapses it to the cursor if `extend` is `false`.
    pub fn move_left_single<L: LineLength>(
        &mut self,
        line_lengths: &L,
        id: &Position,
        n: usize,
        extend: bool,
    ) -> (deltas: SelectionDeltas)
        requires
            well_formed(old(self)@),
            lengths_bounded(line_lengths.lengths()),
            move_requires(
                MovementDirection::Left,
                line_lengths.lengths(),
                old(self)@,
                *id,
                n as int,
            ),
        ensures
            well_formed(final(self)@),
            old(self)@.len() >= 1 ==> final(self)@.len() >= 1,
            deltas_sorted(deltas@),
            move_single_outcome(
                MovementDirection::Left,
                line_lengths.lengths(),
                old(self)@,
                *id,
                n as int,
                extend,
                final(self)@,
                deltas@,
            ),
            deltas_faithful(old(self)@, final(self)@, deltas@),
    {
        self.move_common(MovementDirection::Left, line_lengths, id, n, extend)
    }

    /// Moves the selection identified by `id` (its `from` component) `n`
    /// columns right.  Collapses it to the cursor if `extend` is `false`.
    pub fn move_right_single<L: LineLength>(
        &mut self,
        line_lengths: &L,
        id: &Position,
        n: usize,
        extend: bool,
    ) -> (deltas: SelectionDeltas)
        requires
            well_formed(old(self)@),
            lengths_bounded(line_lengths.lengths()),
            move_requires(
                MovementDirection::Right,
                line_lengths.lengths(),
                old(self)@,
                *id,
                n as int,
            ),
        ensures
            well_formed(final(self)@),
            old(self)@.len() >= 1 ==> final(self)@.len() >= 1,
            deltas_sorted(deltas@),
            move_single_outcome(
                MovementDirection::Right,
                line_lengths.lengths(),
                old(self)@,
                *id,
                n as int,
                extend,
                final(self)@,
                deltas@,
            ),
            deltas_faithful(old(self)@, final(self)@, deltas@),
    {
        self.move_common(MovementDirection::Right, line_lengths, id, n, extend)
    }

    /// Moves the selection identified by `id` (its `from` component) `n`
    /// lines up.  Collapses it to the cursor if `extend` is `false`.
    pub fn move_up_single<L: LineLength>(
        &mut self,
        line_lengths: &L,
        id: &Position,
        n: usize,
        extend: bool,
    ) -> (deltas: SelectionDeltas)
        requires
            well_formed(old(self)@),
            lengths_bounded(line_lengths.lengths()),
            move_requires(
                MovementDirection::Up,
                line_lengths.lengths(),
                old(self)@,
                *id,
                n as int,
            ),
        ensures
            well_formed(final(self)@),
            old(self)@.len() >= 1 ==> final(self)@.len() >= 1,
            deltas_sorted(deltas@),
            move_single_outcome(
                MovementDirection::Up,
                line_lengths.lengths(),
                old(self)@,
                *id,
                n as int,
                extend,
                final(self)@,
                deltas@,
            ),
            deltas_faithful(old(self)@, final(self)@, deltas@),
    {
        self.move_common(MovementDirection::Up, line_lengths, id, n, extend)
    }

    /// Moves the selection identified by `id` (its `from` component) `n`
    /// lines down.  Collapses it to the cursor if `extend` is `false`.
    pub fn move_down_single<L: LineLength>(
        &mut self,
        line_lengths: &L,
        id: &Position,
        n: usize,
        extend: bool,
    ) -> (deltas: SelectionDeltas)
        requires
            well_formed(old(self)@),
            lengths_bounded(line_lengths.lengths()),
            move_requires(
                MovementDirection::Down,
                line_lengths.lengths(),
                old(self)@,
                *id,
                n as int,
            ),
        ensures
            well_formed(final(self)@),
            old(self)@.len() >= 1 ==> final(self)@.len() >= 1,
            deltas_sorted(deltas@),
            move_single_outcome(
                MovementDirection::Down,
                line_lengths.lengths(),
                old(self)@,
                *id,
                n as int,
                extend,
                final(self)@,
                deltas@,
            ),
            deltas_faithful(old(self)@, final(self)@, deltas@),
    {
        self.move_common(MovementDirection::Down, line_lengths, id, n, extend)
    }

    /// Common logic for movement.
    fn move_common<L: LineLength>(
        &mut self,
        direction: MovementDirection,
        line_lengths: &L,
        id: &Position,
        n: usize,
        extend: bool,
    ) -> (deltas: SelectionDeltas)
        requires
            well_formed(old(self)@),
            lengths_bounded(line_lengths.lengths()),
            move_requires(direction, line_lengths.lengths(), old(self)@, *id, n as int),
        ensures
            well_formed(final(self)@),
            old(self)@.len() >= 1 ==> final(self)@.len() >= 1,
            deltas_sorted(deltas@),
            move_single_outcome(
                direction,
                line_lengths.lengths(),
                old(self)@,
                *id,
                n as int,
                extend,
                final(self)@,
                deltas@,
            ),
            deltas_faithful(old(self)@, final(self)@, deltas@),
    {
        let ghost ss = self@;
        proof {
            lemma_find_id_props(ss, *id);
        }
        let mut deltas = SelectionDeltas::new();
        if n == 0 {
            proof {
                lemma_unchanged_faithful(ss, deltas@);
            }
            return deltas;
        }
        let idx_old = match self.find_index_by_id(id) {
            Some(i) => i,
            None => {
                proof {
                    lemma_unchanged_faithful(ss, deltas@);
                }
                return deltas;
            },
        };
        let ghost fi = idx_old as int;
        let s_old = self.selections[idx_old];
        let s_new = direction.new_selection_state(&s_old, line_lengths, n, extend);

        match self.find_overlapping_indicies_exlude(&s_new.from, &s_new.to, idx_old) {
            Err(i) => self.move_no_collision(idx_old, i, s_old, s_new),
            Ok((a, b)) => self.move_into_run(direction, idx_old, a, b, s_old, s_new, extend),
        }
    }

    /// Rearranges the storage after a move that collides with nothing: the
    /// moved selection leaves its old slot and lands at its sorted place.
    fn move_no_collision(&mut self, idx_old: usize, i: usize, s_old: Selection, s_new: Selection)
        -> (deltas: SelectionDeltas)
        requires
            well_formed(old(self)@),
            idx_old < old(self)@.len(),
            s_old == old(self)@[idx_old as int],
            sel_valid(s_new),
            i <= old(self)@.len(),
            forall|j: int|
                0 <= j < i && j != idx_old ==> pos_lt(#[trigger] old(self)@[j].to, s_new.from),
            forall|j: int|
                i <= j < old(self)@.len() && j != idx_old ==> pos_lt(
                    s_new.to,
                    #[trigger] old(self)@[j].from,
                ),
        ensures
            well_formed(final(self)@),
            final(self)@.len() == old(self)@.len(),
            deltas_sorted(deltas@),
            move_landed_outcome(
                old(self)@.remove(idx_old as int),
                s_old,
                s_new,
                final(self)@,
                deltas@,
            ),
            deltas_faithful(old(self)@, final(self)@, deltas@),
    {
        let ghost ss = self@;
        let ghost fi = idx_old as int;
        let ghost rest = ss.remove(fi);
        proof {
            lemma_wf_remove(ss, fi);
            ss.remove_ensures(fi);
        }
        let mut deltas = SelectionDeltas::new();
        let old_sel = self.selections.remove(idx_old);
        let tgt = if i <= idx_old {
            i
        } else {
            i - 1
        };
        self.selections.insert(tgt, s_new);
        deltas.push_updated(old_sel, s_new);
        proof {
            let k = tgt as int;
            assert forall|j: int| 0 <= j < k implies pos_lt(#[trigger] rest[j].to, s_new.from) by {
                if j < fi {
                    assert(rest[j] == ss[j]);
                } else {
                    assert(rest[j] == ss[j + 1]);
                }
            }
            assert forall|j: int| k <= j < rest.len() implies pos_lt(
                s_new.to,
                #[trigger] rest[j].from,
            ) by {
                if j < fi {
                    assert(rest[j] == ss[j]);
                } else {
                    assert(rest[j] == ss[j + 1]);
                }
            }
            assert(self@ =~= rest.insert(k, s_new));
            let kk = choose|kk: int|
                0 <= kk <= 0 && deltas@ == Seq::<SelectionDelta>::empty().insert(
                    kk,
                    SelectionDelta::Updated { old: s_old, new: s_new },
                );
            assert(deltas@ =~= seq![SelectionDelta::Updated { old: s_old, new: s_new }]);
            lemma_move_err_post(ss, fi, rest, s_old, s_new, k, self@, deltas@);
        }
        deltas
    }

    /// Rearranges the storage after a move that collides with the run
    /// `[a, b]` of other selections: the moved selection absorbs the run,
    /// widening over its outer edge when extending.
    #[verifier::rlimit(100)]
    fn move_into_run(
        &mut self,
        direction: MovementDirection,
        idx_old: usize,
        a: usize,
        b: usize,
        s_old: Selection,
        s_new: Selection,
        extend: bool,
    ) -> (deltas: SelectionDeltas)
        requires
            well_formed(old(self)@),
            idx_old < old(self)@.len(),
            s_old == old(self)@[idx_old as int],
            sel_valid(s_new),
            moved_within_side(s_old, s_new),
            a <= b < old(self)@.len(),
            forall|i: int| a <= i <= b ==> overlaps(#[trigger] old(self)@[i], s_new.from, s_new.to),
            forall|i: int|
                0 <= i < old(self)@.len() && !(a <= i <= b) && i != idx_old ==> !overlaps(
                    #[trigger] old(self)@[i],
                    s_new.from,
                    s_new.to,
                ),
            a <= idx_old <= b ==> a < idx_old < b,
        ensures
            well_formed(final(self)@),
            final(self)@.len() >= 1,
            deltas_sorted(deltas@),
            move_collision_outcome(
                direction,
                old(self)@.remove(idx_old as int),
                s_old,
                s_new,
                extend,
                final(self)@,
                deltas@,
            ),
            deltas_faithful(old(self)@, final(self)@, deltas@),
    {
        let ghost ss = self@;
        let ghost fi = idx_old as int;
        let ghost rest = ss.remove(fi);
        proof {
            lemma_wf_remove(ss, fi);
            ss.remove_ensures(fi);
            lemma_run_excludes_old(ss, fi, s_old, s_new, a as int, b as int);
        }
        let mut s_new2 = s_new;
        if extend {
            if direction.is_towards_beginning() {
                let edge = self.selections[a].from;
                if edge.precedes(&s_new2.from) {
                    s_new2.from = edge;
                }
            } else {
                let edge = self.selections[b].to;
                if s_new2.to.precedes(&edge) {
                    s_new2.to = edge;
                }
            }
        }
        let old_sel = self.selections.remove(idx_old);
        let (a2, b2) = if idx_old < a {
            (a - 1, b - 1)
        } else {
            (a, b)
        };
        let ghost a2g = a2 as int;
        let ghost b2g = b2 as int;
        let ghost widened = widened_selection(direction, rest, s_new, a2g, b2g, extend);
        proof {
            assert(self.selections@ == rest);
            assert(rest[a2g] == ss[a as int] && rest[b2g] == ss[b as int]);
            assert(s_new2 == widened);
            assert forall|i: int|
                0 <= i < rest.len() implies (overlaps(#[trigger] rest[i], s_new.from, s_new.to)
                <==> a2g <= i <= b2g) by {
                if i < fi {
                    assert(rest[i] == ss[i]);
                } else {
                    assert(rest[i] == ss[i + 1]);
                }
            }
        }
        let deltas = self.replace_run(a2, b2, s_new2, old_sel);
        proof {
            lemma_move_ok_post(
                ss,
                fi,
                rest,
                direction,
                s_old,
                s_new,
                a2g,
                b2g,
                extend,
                self@,
                deltas@,
            );
        }
        deltas
    }

    /// Removes the selections at indices `[a2, b2]`, logging each as deleted,
    /// and puts `w` in their place, logging it as the new state of `s_old`.
    fn replace_run(&mut self, a2: usize, b2: usize, w: Selection, s_old: Selection) -> (deltas:
        SelectionDeltas)
        requires
            well_formed(old(self)@),
            a2 <= b2 < old(self)@.len(),
        ensures
            final(self)@ == old(self)@.subrange(0, a2 as int) + seq![w] + old(self)@.subrange(
                b2 + 1,
                old(self)@.len() as int,
            ),
            deltas_sorted(deltas@),
            deltas@.to_multiset() == deleted_log(
                old(self)@.subrange(a2 as int, b2 + 1),
            ).to_multiset().insert(SelectionDelta::Updated { old: s_old, new: w }),
            crate::deltas::deltas_removed(deltas@) == old(self)@.subrange(
                a2 as int,
                b2 + 1,
            ).to_multiset().insert(s_old),
            crate::deltas::deltas_added(deltas@) == Multiset::<Selection>::empty().insert(w),
    {
        let ghost rest = self@;
        let ghost a2g = a2 as int;
        let ghost b2g = b2 as int;
        proof {
            lemma_pairwise_disjoint(rest);
            assert(self.selections@ =~= rest.subrange(0, a2g) + rest.subrange(
                a2g,
                rest.len() as int,
            ));
            assert(rest.subrange(a2g, a2g) =~= Seq::<Selection>::empty());
            assert(deleted_log(Seq::<Selection>::empty()) =~= Seq::<SelectionDelta>::empty());
            assert(rest.subrange(a2g, a2g).to_multiset() =~= Multiset::<Selection>::empty()) by {
                broadcast use vstd::seq_lib::group_to_multiset_ensures;
                broadcast use vstd::multiset::group_multiset_axioms;

                assert(rest.subrange(a2g, a2g).to_multiset().len() == 0);
            }
        }
        let mut deltas = SelectionDeltas::new();
        proof {
            assert(deltas@.to_multiset() =~= Seq::<SelectionDelta>::empty().to_multiset());
        }
        let total = self.selections.len();
        proof {
            assert(b2 < total);
        }
        let count = b2 - a2 + 1;
        let mut removed_n: usize = 0;
        while removed_n < count
            invariant
                well_formed(rest),
                forall|i: int, j: int|
                    0 <= i < j < rest.len() ==> pos_lt(
                        #[trigger] rest[i].from,
                        #[trigger] rest[j].from,
                    ),
                0 <= a2g <= b2g < rest.len(),
                a2 == a2g && b2 == b2g,
                count == b2g - a2g + 1,
                removed_n <= count,
                self.selections@ == rest.subrange(0, a2g) + rest.subrange(
                    a2g + removed_n,
                    rest.len() as int,
                ),
                deltas_sorted(deltas@),
                deltas@.to_multiset() == deleted_log(
                    rest.subrange(a2g, a2g + removed_n),
                ).to_multiset(),
                deltas_removed(deltas@) == rest.subrange(a2g, a2g + removed_n).to_multiset(),
                deltas_added(deltas@) == Multiset::<Selection>::empty(),
                forall|x: SelectionDelta|
                    #[trigger] deltas@.contains(x) ==> exists|j: int|
                        a2g <= j < a2g + removed_n && x == SelectionDelta::Deleted(rest[j]),
            decreases count - removed_n,
        {
            let ghost dpre = deltas@;
            let s = self.selections.remove(a2);
            proof {
                assert(s == rest[a2g + removed_n]);
                assert forall|i: int| 0 <= i < dpre.len() implies !crate::deltas::delta_key_eq(
                    #[trigger] dpre[i],
                    SelectionDelta::Deleted(s),
                ) by {
                    assert(dpre.contains(dpre[i]));
                    let j = choose|j: int|
                        a2g <= j < a2g + removed_n && dpre[i] == SelectionDelta::Deleted(rest[j]);
                    assert(pos_lt(rest[j].from, rest[a2g + removed_n].from));
                }
            }
            deltas.push_deleted(s);
            removed_n = removed_n + 1;
            proof {
                assert(self.selections@ =~= rest.subrange(0, a2g) + rest.subrange(
                    a2g + removed_n,
                    rest.len() as int,
                ));
                crate::storage::insert::lemma_deleted_log_push(
                    rest.subrange(a2g, a2g + removed_n - 1),
                    s,
                );
                assert(rest.subrange(a2g, a2g + removed_n - 1).push(s) =~= rest.subrange(
                    a2g,
                    a2g + removed_n,
                ));
                broadcast use vstd::seq_lib::to_multiset_build;

                assert(deltas@.to_multiset() =~= deleted_log(
                    rest.subrange(a2g, a2g + removed_n),
                ).to_multiset());
                assert(deltas_removed(deltas@) =~= rest.subrange(
                    a2g,
                    a2g + removed_n,
                ).to_multiset());
            }
        }
        self.selections.insert(a2, w);
        proof {
            let dpre = deltas@;
            assert forall|i: int| 0 <= i < dpre.len() implies !crate::deltas::delta_key_eq(
                #[trigger] dpre[i],
                SelectionDelta::Updated { old: s_old, new: w },
            ) by {
                assert(dpre.contains(dpre[i]));
            }
        }
        deltas.push_updated(s_old, w);
        proof {
            assert(self@ =~= rest.subrange(0, a2g) + seq![w] + rest.subrange(
                b2g + 1,
                rest.len() as int,
            ));
        }
        deltas
    }
}

/// An empty log is faithful to an unchanged storage.
proof fn lemma_unchanged_faithful(ss: Seq<Selection>, ds: Seq<SelectionDelta>)
    requires
        ds == Seq::<SelectionDelta>::empty(),
    ensures
        deltas_faithful(ss, ss, ds),
{
    broadcast use vstd::multiset::group_multiset_axioms;

    assert(ss.to_multiset() =~= ss.to_multiset().sub(deltas_removed(ds)).add(deltas_added(ds)));
}

/// The run of selections a moved selection collides with cannot surround the
/// selection's old slot: a move keeps one of its old bounds, so neighbours on
/// at most one side can collide.
proof fn lemma_run_excludes_old(
    ss: Seq<Selection>,
    fi: int,
    s_old: Selection,
    s_new: Selection,
    a: int,
    b: int,
)
    requires
        well_formed(ss),
        0 <= fi < ss.len(),
        s_old == ss[fi],
        moved_within_side(s_old, s_new),
        0 <= a <= b < ss.len(),
        forall|i: int| a <= i <= b ==> overlaps(#[trigger] ss[i], s_new.from, s_new.to),
    ensures
        !(a < fi && fi < b),
{
    if a < fi && fi < b {
        assert(overlaps(ss[fi - 1], s_new.from, s_new.to));
        assert(overlaps(ss[fi + 1], s_new.from, s_new.to));
        if pos_le(s_old.from, s_new.from) {
            assert(pos_lt(ss[fi - 1].to, ss[fi].from));
        } else {
            assert(pos_le(s_new.to, s_old.to));
            assert(pos_lt(ss[fi].to, ss[fi + 1].from));
        }
    }
}

/// The state and log of a collision-free move satisfy the movement contract.
proof fn lemma_move_err_post(
    ss: Seq<Selection>,
    fi: int,
    rest: Seq<Selection>,
    s_old: Selection,
    s_new: Selection,
    k: int,
    ss2: Seq<Selection>,
    ds: Seq<SelectionDelta>,
)
    requires
        well_formed(ss),
        0 <= fi < ss.len(),
        s_old == ss[fi],
        rest == ss.remove(fi),
        well_formed(rest),
        sel_valid(s_new),
        0 <= k <= rest.len(),
        forall|j: int| 0 <= j < k ==> pos_lt(#[trigger] rest[j].to, s_new.from),
        forall|j: int| k <= j < rest.len() ==> pos_lt(s_new.to, #[trigger] rest[j].from),
        ss2 == rest.insert(k, s_new),
        ds == seq![SelectionDelta::Updated { old: s_old, new: s_new }],
    ensures
        well_formed(ss2),
        ss2.len() >= 1,
        move_landed_outcome(rest, s_old, s_new, ss2, ds),
        deltas_faithful(ss, ss2, ds),
{
    broadcast use vstd::multiset::group_multiset_axioms;
    broadcast use vstd::seq_lib::to_multiset_insert;
    broadcast use vstd::seq_lib::to_multiset_remove;

    rest.insert_ensures(k, s_new);
    assert(well_formed(ss2)) by {
        assert forall|i: int| 0 <= i && i + 1 < ss2.len() implies pos_lt(
            #[trigger] ss2[i].to,
            ss2[i + 1].from,
        ) by {
            if i + 1 < k {
                assert(ss2[i] == rest[i] && ss2[i + 1] == rest[i + 1]);
            } else if i + 1 > k + 1 {
                assert(ss2[i] == rest[i - 1] && ss2[i + 1] == rest[i]);
            }
        }
        assert forall|i: int| 0 <= i < ss2.len() implies sel_valid(#[trigger] ss2[i]) by {
            if i < k {
                assert(ss2[i] == rest[i]);
            } else if i > k {
                assert(ss2[i] == rest[i - 1]);
            }
        }
    }
    assert(deltas_faithful(ss, ss2, ds)) by {
        crate::deltas::lemma_single_delta(SelectionDelta::Updated { old: s_old, new: s_new });
        assert(ds =~= seq![SelectionDelta::Updated { old: s_old, new: s_new }]);
        assert(deltas_removed(ds) == Multiset::<Selection>::empty().insert(s_old));
        assert(deltas_added(ds) == Multiset::<Selection>::empty().insert(s_new));
        assert(rest.to_multiset() == ss.to_multiset().remove(s_old));
        assert(ss2.to_multiset() == rest.to_multiset().insert(s_new));
        assert(ss.to_multiset().contains(s_old)) by {
            broadcast use vstd::seq_lib::group_to_multiset_ensures;

            assert(ss[fi] == s_old);
            assert(ss.contains(s_old));
        }
        assert(ss2.to_multiset() =~= ss.to_multiset().sub(deltas_removed(ds)).add(
            deltas_added(ds),
        ));
    }
}

/// The state and log of a colliding move satisfy the movement contract.
#[verifier::rlimit(100)]
proof fn lemma_move_ok_post(
    ss: Seq<Selection>,
    fi: int,
    rest: Seq<Selection>,
    direction: MovementDirection,
    s_old: Selection,
    s_new: Selection,
    a: int,
    b: int,
    extend: bool,
    ss2: Seq<Selection>,
    ds: Seq<SelectionDelta>,
)
    requires
        well_formed(ss),
        0 <= fi < ss.len(),
        s_old == ss[fi],
        rest == ss.remove(fi),
        well_formed(rest),
        sel_valid(s_new),
        0 <= a <= b < rest.len(),
        forall|i: int|
            0 <= i < rest.len() ==> (overlaps(#[trigger] rest[i], s_new.from, s_new.to) <==> a <= i
                <= b),
        ss2 == rest.subrange(0, a) + seq![widened_selection(direction, rest, s_new, a, b, extend)]
            + rest.subrange(b + 1, rest.len() as int),
        ds.to_multiset() == deleted_log(rest.subrange(a, b + 1)).to_multiset().insert(
            SelectionDelta::Updated {
                old: s_old,
                new: widened_selection(direction, rest, s_new, a, b, extend),
            },
        ),
        deltas_removed(ds) == rest.subrange(a, b + 1).to_multiset().insert(s_old),
        deltas_added(ds) == Multiset::<Selection>::empty().insert(
            widened_selection(direction, rest, s_new, a, b, extend),
        ),
    ensures
        well_formed(ss2),
        ss2.len() >= 1,
        move_collision_outcome(direction, rest, s_old, s_new, extend, ss2, ds),
        deltas_faithful(ss, ss2, ds),
{
    broadcast use vstd::multiset::group_multiset_axioms;

    let w = widened_selection(direction, rest, s_new, a, b, extend);
    lemma_widened_fits(ss, fi, rest, direction, s_new, a, b, extend);
    assert(well_formed(ss2)) by {
        assert forall|i: int| 0 <= i && i + 1 < ss2.len() implies pos_lt(
            #[trigger] ss2[i].to,
            ss2[i + 1].from,
        ) by {
            if i + 1 < a {
                assert(ss2[i] == rest[i] && ss2[i + 1] == rest[i + 1]);
            } else if i + 1 == a {
                assert(ss2[i] == rest[i] && ss2[i + 1] == w);
            } else if i == a {
                assert(ss2[i] == w && ss2[i + 1] == rest[i + b - a + 1]);
            } else {
                assert(ss2[i] == rest[i + b - a] && ss2[i + 1] == rest[i + b - a + 1]);
            }
        }
        assert forall|i: int| 0 <= i < ss2.len() implies sel_valid(#[trigger] ss2[i]) by {
            if i < a {
                assert(ss2[i] == rest[i]);
            } else if i > a {
                assert(ss2[i] == rest[i + b - a]);
            }
        }
    }
    assert(overlaps(rest[a], s_new.from, s_new.to));
    assert(deltas_faithful(ss, ss2, ds)) by {
        broadcast use vstd::seq_lib::to_multiset_remove;

        assert(rest.to_multiset() == ss.to_multiset().remove(s_old));
        assert(ss.to_multiset().contains(s_old)) by {
            broadcast use vstd::seq_lib::group_to_multiset_ensures;

            assert(ss[fi] == s_old);
            assert(ss.contains(s_old));
        }
        crate::storage::insert::lemma_split_three(rest, a, b);
        assert(ss2.to_multiset() == ss2.subrange(0, a).to_multiset().add(
            ss2.subrange(a, a + 1).to_multiset(),
        ).add(ss2.subrange(a + 1, ss2.len() as int).to_multiset())) by {
            crate::storage::insert::lemma_split_three(ss2, a, a);
        }
        assert(ss2.subrange(0, a) =~= rest.subrange(0, a));
        assert(ss2.subrange(a, a + 1) =~= seq![w]);
        assert(ss2.subrange(a + 1, ss2.len() as int) =~= rest.subrange(b + 1, rest.len() as int));
        assert(seq![w].to_multiset() =~= Multiset::<Selection>::empty().insert(w)) by {
            broadcast use vstd::seq_lib::to_multiset_build;
            broadcast use vstd::seq_lib::group_to_multiset_ensures;

            assert(Seq::<Selection>::empty().push(w) =~= seq![w]);
            assert(Seq::<Selection>::empty().to_multiset() =~= Multiset::<Selection>::empty())
                by {
                assert forall|x: Selection|
                    Seq::<Selection>::empty().to_multiset().count(x) == 0 by {
                    assert(!Seq::<Selection>::empty().contains(x));
                }
            }
        }
        assert(ss.to_multiset() =~= rest.to_multiset().insert(s_old));
        assert(ss2.to_multiset() =~= rest.subrange(0, a).to_multiset().add(
            Multiset::<Selection>::empty().insert(w),
        ).add(rest.subrange(b + 1, rest.len() as int).to_multiset()));
        assert(rest.to_multiset() == rest.subrange(0, a).to_multiset().add(
            rest.subrange(a, b + 1).to_multiset(),
        ).add(rest.subrange(b + 1, rest.len() as int).to_multiset()));
        assert(ss2.to_multiset() =~= ss.to_multiset().sub(deltas_removed(ds)).add(
            deltas_added(ds),
        ));
    }
    assert(move_collision_outcome(direction, rest, s_old, s_new, extend, ss2, ds)) by {
        assert(overlaps(rest[a], s_new.from, s_new.to));
    }
}

/// The widened selection fits the hole the collided run leaves: it is valid,
/// starts after the selection before the run and ends before the selection
/// after it.
proof fn lemma_widened_fits(
    ss: Seq<Selection>,
    fi: int,
    rest: Seq<Selection>,
    direction: MovementDirection,
    s_new: Selection,
    a: int,
    b: int,
    extend: bool,
)
    requires
        well_formed(ss),
        0 <= fi < ss.len(),
        rest == ss.remove(fi),
        well_formed(rest),
        sel_valid(s_new),
        0 <= a <= b < rest.len(),
        forall|i: int|
            0 <= i < rest.len() ==> (overlaps(#[trigger] rest[i], s_new.from, s_new.to) <==> a <= i
                <= b),
    ensures
        sel_valid(widened_selection(direction, rest, s_new, a, b, extend)),
        a > 0 ==> pos_lt(rest[a - 1].to, widened_selection(direction, rest, s_new, a, b, extend).from),
        b + 1 < rest.len() ==> pos_lt(
            widened_selection(direction, rest, s_new, a, b, extend).to,
            rest[b + 1].from,
        ),
{
    lemma_pairwise_disjoint(rest);
    let w = widened_selection(direction, rest, s_new, a, b, extend);
    assert(overlaps(rest[a], s_new.from, s_new.to));
    assert(overlaps(rest[b], s_new.from, s_new.to));
    assert(sel_valid(rest[a]));
    assert(sel_valid(rest[b]));
    if a > 0 {
        assert(!overlaps(rest[a - 1], s_new.from, s_new.to));
        assert(sel_valid(rest[a - 1]));
        if a < b {
            assert(pos_lt(rest[a - 1].to, rest[a].from));
        }
    }
    if b + 1 < rest.len() {
        assert(!overlaps(rest[b + 1], s_new.from, s_new.to));
        assert(sel_valid(rest[b + 1]));
    }
}

} // verus!
