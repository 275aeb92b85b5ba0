//! Selection delta definitions: the log a mutating operation returns.

use vstd::multiset::Multiset;
use vstd::prelude::*;

use crate::position::{pos_lt, pos_weak_eq, Position};
use crate::selection::Selection;

verus! {

/// Info on one changed selection.
#[derive(Debug, Clone, Copy, PartialEq, Eq, Structural)]
pub enum SelectionDelta {
    /// A selection was created; the variant carries its state in storage.
    Created(Selection),
    /// A selection was deleted; the variant owns the removed state.
    Deleted(Selection),
    /// A selection was updated in place.
    Updated {
        /// The selection's state before the operation.
        old: Selection,
        /// The selection's state in storage after the operation.
        new: Selection,
    },
}

/// The position a delta is ordered by: the `from` of its subject, taking the
/// prior state for `Updated`.
pub open spec fn delta_sort_pos(d: SelectionDelta) -> Position {
    match d {
        SelectionDelta::Created(s) => s.from,
        SelectionDelta::Deleted(s) => s.from,
        SelectionDelta::Updated { old, .. } => old.from,
    }
}

/// Whether a delta records a deletion; deletions sort first among deltas with
/// equal positions.
pub open spec fn delta_is_deleted(d: SelectionDelta) -> bool {
    d is Deleted
}

/// The strict order deltas are kept in: by subject position, with `Deleted`
/// before the others at equal positions.
pub open spec fn delta_lt(a: SelectionDelta, b: SelectionDelta) -> bool {
    ||| pos_lt(delta_sort_pos(a), delta_sort_pos(b))
    ||| (pos_weak_eq(delta_sort_pos(a), delta_sort_pos(b)) && delta_is_deleted(a)
        && !delta_is_deleted(b))
}

/// Two deltas share their ordering key: same subject position (ignoring
/// sticky) and the same deletion rank.
pub open spec fn delta_key_eq(a: SelectionDelta, b: SelectionDelta) -> bool {
    pos_weak_eq(delta_sort_pos(a), delta_sort_pos(b)) && (delta_is_deleted(a) == delta_is_deleted(
        b,
    ))
}

/// A delta sequence in strictly increasing key order.
pub open spec fn deltas_sorted(ds: Seq<SelectionDelta>) -> bool {
    forall|i: int| 0 <= i && i + 1 < ds.len() ==> delta_lt(#[trigger] ds[i], ds[i + 1])
}

/// No delta of `ds` shares its ordering key with `d`.
pub open spec fn delta_key_fresh(ds: Seq<SelectionDelta>, d: SelectionDelta) -> bool {
    forall|i: int| 0 <= i < ds.len() ==> !delta_key_eq(#[trigger] ds[i], d)
}

/// The selections a delta log removes from the storage: every `Deleted`
/// payload and every prior state of an `Updated`.
pub open spec fn deltas_removed(ds: Seq<SelectionDelta>) -> Multiset<Selection>
    decreases ds.len(),
{
    if ds.len() == 0 {
        Multiset::empty()
    } else {
        match ds.last() {
            SelectionDelta::Created(_) => deltas_removed(ds.drop_last()),
            SelectionDelta::Deleted(s) => deltas_removed(ds.drop_last()).insert(s),
            SelectionDelta::Updated { old, .. } => deltas_removed(ds.drop_last()).insert(old),
        }
    }
}

/// The selections a delta log adds to the storage: every `Created` payload
/// and every new state of an `Updated`.
pub open spec fn deltas_added(ds: Seq<SelectionDelta>) -> Multiset<Selection>
    decreases ds.len(),
{
    if ds.len() == 0 {
        Multiset::empty()
    } else {
        match ds.last() {
            SelectionDelta::Created(s) => deltas_added(ds.drop_last()).insert(s),
            SelectionDelta::Deleted(_) => deltas_added(ds.drop_last()),
            SelectionDelta::Updated { new, .. } => deltas_added(ds.drop_last()).insert(new),
        }
    }
}

/// The key order is total: two deltas are ordered one way or the other,
/// unless they share their key.
pub proof fn lemma_delta_order_total(a: SelectionDelta, b: SelectionDelta)
    ensures
        delta_lt(a, b) || delta_lt(b, a) || delta_key_eq(a, b),
{
}

/// Collection of selection deltas, sorted by subject position with deletions
/// first on position ties, one delta per key.
#[derive(Debug)]
pub struct SelectionDeltas {
    deltas: Vec<SelectionDelta>,
}

impl View for SelectionDeltas {
    type V = Seq<SelectionDelta>;

    closed spec fn view(&self) -> Seq<SelectionDelta> {
        self.deltas@
    }
}

impl SelectionDeltas {
    /// Create an empty deltas collection.
    pub fn new() -> (r: SelectionDeltas)
        ensures
            r@ == Seq::<SelectionDelta>::empty(),
            deltas_sorted(r@),
    {
        SelectionDeltas { deltas: Vec::new() }
    }

    /// Create an empty deltas collection with a size hint.
    pub fn with_capacity(n: usize) -> (r: SelectionDeltas)
        ensures
            r@ == Seq::<SelectionDelta>::empty(),
            deltas_sorted(r@),
    {
        SelectionDeltas { deltas: Vec::with_capacity(n) }
    }

    /// The number of deltas recorded.
    pub fn len(&self) -> (r: usize)
        ensures
            r == self@.len(),
    {
        self.deltas.len()
    }

    /// Whether no delta was recorded.
    pub fn is_empty(&self) -> (r: bool)
        ensures
            r == (self@.len() == 0),
    {
        self.deltas.is_empty()
    }

    /// Hands the deltas out as a vector, keeping their order (for `Updated`,
    /// the order of the old state).
    pub fn into_vec(self) -> (r: Vec<SelectionDelta>)
        ensures
            r@ == self@,
    {
        self.deltas
    }

    /// Adds a delta at its place in the order.
    pub(crate) fn push(&mut self, d: SelectionDelta)
        requires
            deltas_sorted(old(self)@),
            delta_key_fresh(old(self)@, d),
        ensures
            deltas_sorted(final(self)@),
            final(self)@.to_multiset() == old(self)@.to_multiset().insert(d),
            final(self)@.len() == old(self)@.len() + 1,
            exists|k: int| 0 <= k <= old(self)@.len() && final(self)@ == #[trigger] old(
                self,
            )@.insert(k, d),
            forall|x: SelectionDelta|
                #[trigger] final(self)@.contains(x) ==> old(self)@.contains(x) || x == d,
            deltas_removed(final(self)@) == deltas_removed(old(self)@).add(deltas_removed(
                seq![d],
            )),
            deltas_added(final(self)@) == deltas_added(old(self)@).add(deltas_added(seq![d])),
    {
        let ghost ds0 = self.deltas@;
        let mut i: usize = self.deltas.len();
        while i > 0 && delta_precedes(&d, &self.deltas[i - 1])
            invariant
                i <= self.deltas.len(),
                self.deltas@ == ds0,
                forall|j: int| i <= j < ds0.len() ==> delta_lt(d, #[trigger] ds0[j]),
            decreases i,
        {
            i = i - 1;
        }
        proof {
            if i > 0 {
                lemma_delta_order_total(d, ds0[i - 1]);
            }
            broadcast use vstd::seq_lib::to_multiset_insert;

            lemma_deltas_removed_insert(ds0, i as int, d);
            lemma_deltas_added_insert(ds0, i as int, d);
        }
        self.deltas.insert(i, d);
        proof {
            ds0.insert_ensures(i as int, d);
            let ds1 = self.deltas@;
            assert forall|a: int| 0 <= a && a + 1 < ds1.len() implies delta_lt(
                #[trigger] ds1[a],
                ds1[a + 1],
            ) by {
                if a + 1 < i {
                    assert(ds1[a] == ds0[a] && ds1[a + 1] == ds0[a + 1]);
                } else if a + 1 > i + 1 {
                    assert(ds1[a] == ds0[a - 1] && ds1[a + 1] == ds0[a]);
                }
            }
            assert(ds1 == ds0.insert(i as int, d));
            assert forall|x: SelectionDelta| #[trigger] ds1.contains(x) implies ds0.contains(x)
                || x == d by {
                let a = choose|a: int| 0 <= a < ds1.len() && ds1[a] == x;
                if a < i {
                    assert(ds0[a] == x);
                } else if a > i {
                    assert(ds0[a - 1] == x);
                }
            }
        }
    }

    /// Adds a delta for a deleted selection.
    pub(crate) fn push_deleted(&mut self, s: Selection)
        requires
            deltas_sorted(old(self)@),
            delta_key_fresh(old(self)@, SelectionDelta::Deleted(s)),
        ensures
            deltas_sorted(final(self)@),
            final(self)@.to_multiset() == old(self)@.to_multiset().insert(
                SelectionDelta::Deleted(s),
            ),
            final(self)@.len() == old(self)@.len() + 1,
            exists|k: int| 0 <= k <= old(self)@.len() && final(self)@ == #[trigger] old(
                self,
            )@.insert(k, SelectionDelta::Deleted(s)),
            forall|x: SelectionDelta|
                #[trigger] final(self)@.contains(x) ==> old(self)@.contains(x) || x == SelectionDelta::Deleted(s),
            deltas_removed(final(self)@) == deltas_removed(old(self)@).insert(s),
            deltas_added(final(self)@) == deltas_added(old(self)@),
    {
        proof {
            lemma_single_delta(SelectionDelta::Deleted(s));
        }
        self.push(SelectionDelta::Deleted(s));
    }

    /// Adds a delta for a created selection.
    pub(crate) fn push_created(&mut self, s: Selection)
        requires
            deltas_sorted(old(self)@),
            delta_key_fresh(old(self)@, SelectionDelta::Created(s)),
        ensures
            deltas_sorted(final(self)@),
            final(self)@.to_multiset() == old(self)@.to_multiset().insert(
                SelectionDelta::Created(s),
            ),
            final(self)@.len() == old(self)@.len() + 1,
            exists|k: int| 0 <= k <= old(self)@.len() && final(self)@ == #[trigger] old(
                self,
            )@.insert(k, SelectionDelta::Created(s)),
            forall|x: SelectionDelta|
                #[trigger] final(self)@.contains(x) ==> old(self)@.contains(x) || x == SelectionDelta::Created(s),
            deltas_removed(final(self)@) == deltas_removed(old(self)@),
            deltas_added(final(self)@) == deltas_added(old(self)@).insert(s),
    {
        proof {
            lemma_single_delta(SelectionDelta::Created(s));
        }
        self.push(SelectionDelta::Created(s));
    }

    /// Adds a delta for an updated selection.
    pub(crate) fn push_updated(&mut self, old_state: Selection, new_state: Selection)
        requires
            deltas_sorted(old(self)@),
            delta_key_fresh(
                old(self)@,
                SelectionDelta::Updated { old: old_state, new: new_state },
            ),
        ensures
            deltas_sorted(final(self)@),
            final(self)@.to_multiset() == old(self)@.to_multiset().insert(
                SelectionDelta::Updated { old: old_state, new: new_state },
            ),
            final(self)@.len() == old(self)@.len() + 1,
            exists|k: int| 0 <= k <= old(self)@.len() && final(self)@ == #[trigger] old(
                self,
            )@.insert(k, SelectionDelta::Updated { old: old_state, new: new_state }),
            forall|x: SelectionDelta|
                #[trigger] final(self)@.contains(x) ==> old(self)@.contains(x) || x == (SelectionDelta::Updated { old: old_state, new: new_state }),
            deltas_removed(final(self)@) == deltas_removed(old(self)@).insert(old_state),
            deltas_added(final(self)@) == deltas_added(old(self)@).insert(new_state),
    {
        proof {
            lemma_single_delta(SelectionDelta::Updated { old: old_state, new: new_state });
        }
        self.push(SelectionDelta::Updated { old: old_state, new: new_state });
    }
}

impl Default for SelectionDeltas {
    /// Builds an empty deltas collection.
    fn default() -> (r: Self)
        ensures
            r@ == Seq::<SelectionDelta>::empty(),
            deltas_sorted(r@),
    {
        SelectionDeltas::new()
    }
}

/// Exec comparison realising [`delta_lt`].
fn delta_precedes(a: &SelectionDelta, b: &SelectionDelta) -> (r: bool)
    ensures
        r == delta_lt(*a, *b),
{
    let pa = delta_position(a);
    let pb = delta_position(b);
    if pa.precedes(pb) {
        true
    } else if pa.weak_eq(pb) {
        delta_deleted(a) && !delta_deleted(b)
    } else {
        false
    }
}

/// Exec access to [`delta_sort_pos`].
fn delta_position(d: &SelectionDelta) -> (r: &Position)
    ensures
        *r == delta_sort_pos(*d),
{
    match d {
        SelectionDelta::Created(s) => &s.from,
        SelectionDelta::Deleted(s) => &s.from,
        SelectionDelta::Updated { old, .. } => &old.from,
    }
}

/// Exec access to [`delta_is_deleted`].
fn delta_deleted(d: &SelectionDelta) -> (r: bool)
    ensures
        r == delta_is_deleted(*d),
{
    match d {
        SelectionDelta::Deleted(_) => true,
        _ => false,
    }
}

/// What a single delta removes and adds.
pub(crate) proof fn lemma_single_delta(d: SelectionDelta)
    ensures
        deltas_removed(seq![d]) == match d {
            SelectionDelta::Created(_) => Multiset::<Selection>::empty(),
            SelectionDelta::Deleted(s) => Multiset::<Selection>::empty().insert(s),
            SelectionDelta::Updated { old, .. } => Multiset::<Selection>::empty().insert(old),
        },
        deltas_added(seq![d]) == match d {
            SelectionDelta::Created(s) => Multiset::<Selection>::empty().insert(s),
            SelectionDelta::Deleted(_) => Multiset::<Selection>::empty(),
            SelectionDelta::Updated { new, .. } => Multiset::<Selection>::empty().insert(new),
        },
{
    let ds = seq![d];
    assert(ds.last() == d);
    assert(ds.drop_last() =~= Seq::<SelectionDelta>::empty());
    assert(deltas_removed(ds.drop_last()) == Multiset::<Selection>::empty());
    assert(deltas_added(ds.drop_last()) == Multiset::<Selection>::empty());
}

/// [`deltas_removed`] over an insertion decomposes into the removals of the
/// old log and of the inserted delta.
proof fn lemma_deltas_removed_insert(ds: Seq<SelectionDelta>, i: int, d: SelectionDelta)
    requires
        0 <= i <= ds.len(),
    ensures
        deltas_removed(ds.insert(i, d)) == deltas_removed(ds).add(deltas_removed(seq![d])),
    decreases ds.len(),
{
    lemma_single_delta(d);
    broadcast use vstd::multiset::group_multiset_axioms;

    if i == ds.len() {
        assert(ds.insert(i, d).last() == d);
        assert(ds.insert(i, d).drop_last() =~= ds);
        assert(deltas_removed(ds.insert(i, d)) =~= deltas_removed(ds).add(deltas_removed(
            seq![d],
        )));
    } else {
        let e = ds.last();
        lemma_deltas_removed_insert(ds.drop_last(), i, d);
        assert(ds.insert(i, d).last() == e);
        assert(ds.insert(i, d).drop_last() =~= ds.drop_last().insert(i, d));
        assert(deltas_removed(ds.insert(i, d)) =~= deltas_removed(ds).add(deltas_removed(
            seq![d],
        )));
    }
}

/// [`deltas_added`] over an insertion decomposes into the additions of the
/// old log and of the inserted delta.
proof fn lemma_deltas_added_insert(ds: Seq<SelectionDelta>, i: int, d: SelectionDelta)
    requires
        0 <= i <= ds.len(),
    ensures
        deltas_added(ds.insert(i, d)) == deltas_added(ds).add(deltas_added(seq![d])),
    decreases ds.len(),
{
    lemma_single_delta(d);
    broadcast use vstd::multiset::group_multiset_axioms;

    if i == ds.len() {
        assert(ds.insert(i, d).last() == d);
        assert(ds.insert(i, d).drop_last() =~= ds);
        assert(deltas_added(ds.insert(i, d)) =~= deltas_added(ds).add(deltas_added(seq![d])));
    } else {
        let e = ds.last();
        lemma_deltas_added_insert(ds.drop_last(), i, d);
        assert(ds.insert(i, d).last() == e);
        assert(ds.insert(i, d).drop_last() =~= ds.drop_last().insert(i, d));
        assert(deltas_added(ds.insert(i, d)) =~= deltas_added(ds).add(deltas_added(seq![d])));
    }
}

} // verus!
