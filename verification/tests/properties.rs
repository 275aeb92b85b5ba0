//! Tests for the storage-wide guarantees: the storage is never empty, stays
//! sorted and disjoint, its delta logs replay faithfully, and sticky columns
//! behave as vertical memos only.

use selections::{
    LineLengths, Position, Selection, SelectionDelta, SelectionDirection, SelectionStorage,
};

fn lls(pairs: &[(usize, usize)]) -> LineLengths {
    let mut line_lengths = LineLengths::new();
    for (line, len) in pairs {
        line_lengths.set(*line, *len);
    }
    line_lengths
}

fn sl(al: usize, ac: usize, cl: usize, cc: usize) -> Selection {
    Selection::new(Position::new(al, ac), Position::new(cl, cc))
}

fn storage_of(sels: &[Selection]) -> SelectionStorage {
    let mut storage = SelectionStorage::new_empty();
    for s in sels {
        storage.insert(*s);
    }
    storage
}

fn before(p: &Position, q: &Position) -> bool {
    p.line() < q.line() || (p.line() == q.line() && p.column() < q.column())
}

fn assert_sorted_disjoint_nonempty(storage: &SelectionStorage) {
    let sels = storage.iter_all();
    assert!(!sels.is_empty());
    for w in sels.windows(2) {
        assert!(before(&w[0].from, &w[1].from));
        assert!(before(&w[0].to, &w[1].from));
    }
}

/// Replays a delta log over the selection set it came from.
fn replay(before_state: &[Selection], deltas: &[SelectionDelta]) -> Vec<Selection> {
    let mut state = before_state.to_vec();
    for d in deltas {
        match d {
            SelectionDelta::Created(s) => state.push(*s),
            SelectionDelta::Deleted(s) => {
                let i = state.iter().position(|x| x == s).expect("deleted state present");
                state.remove(i);
            },
            SelectionDelta::Updated { old, new } => {
                let i = state.iter().position(|x| x == old).expect("old state present");
                state.remove(i);
                state.push(*new);
            },
        }
    }
    state.sort_by(|a, b| {
        (a.from.line(), a.from.column()).cmp(&(b.from.line(), b.from.column()))
    });
    state
}

#[test]
fn storage_is_never_empty() {
    let ll = lls(&[(0, 30)]);
    let mut storage = SelectionStorage::new();
    assert_sorted_disjoint_nonempty(&storage);

    storage.insert(sl(0, 5, 0, 10));
    assert_sorted_disjoint_nonempty(&storage);

    storage.delete(&Position::new(0, 5));
    storage.delete(&Position::new(0, 0));
    assert_sorted_disjoint_nonempty(&storage);

    storage.move_right_single(&ll, &Position::new(0, 0), 3, false);
    assert_sorted_disjoint_nonempty(&storage);
}

#[test]
fn storage_stays_sorted_and_disjoint() {
    let ll = lls(&[(0, 30), (1, 30), (2, 30)]);
    let mut storage = SelectionStorage::new();
    storage.insert(sl(0, 5, 0, 10));
    storage.insert(sl(1, 3, 1, 9));
    storage.insert(sl(2, 0, 2, 2));
    assert_sorted_disjoint_nonempty(&storage);

    storage.insert(sl(0, 8, 1, 5));
    assert_sorted_disjoint_nonempty(&storage);

    storage.move_up_single(&ll, &Position::new(2, 0), 2, true);
    assert_sorted_disjoint_nonempty(&storage);

    storage.delete(&Position::new(0, 0));
    assert_sorted_disjoint_nonempty(&storage);
}

#[test]
fn deltas_replay_the_mutation() {
    let ll = lls(&[(0, 30), (1, 30), (2, 30)]);
    let mut storage = SelectionStorage::new();
    storage.insert(sl(0, 5, 0, 10));
    storage.insert(sl(1, 3, 1, 9));
    storage.insert(sl(2, 0, 2, 2));

    // An insertion that merges two selections away:
    let state0 = storage.iter_all();
    let deltas = storage.insert(sl(0, 7, 1, 5));
    assert_eq!(replay(&state0, &deltas.into_vec()), storage.iter_all());

    // A colliding extending move:
    let state1 = storage.iter_all();
    let deltas = storage.move_down_single(&ll, &Position::new(0, 0), 2, true);
    assert_eq!(replay(&state1, &deltas.into_vec()), storage.iter_all());

    // A deletion:
    let state2 = storage.iter_all();
    let deltas = storage.delete(&Position::new(2, 0));
    assert_eq!(replay(&state2, &deltas.into_vec()), storage.iter_all());
}

#[test]
fn zero_step_movement_changes_nothing() {
    let ll = lls(&[(0, 30), (1, 30)]);
    let mut storage = storage_of(&[sl(0, 5, 0, 10), sl(1, 3, 1, 9)]);
    let state = storage.iter_all();

    for extend in [false, true] {
        assert!(storage.move_left_single(&ll, &Position::new(0, 5), 0, extend).is_empty());
        assert!(storage.move_right_single(&ll, &Position::new(0, 5), 0, extend).is_empty());
        assert!(storage.move_up_single(&ll, &Position::new(1, 3), 0, extend).is_empty());
        assert!(storage.move_down_single(&ll, &Position::new(1, 3), 0, extend).is_empty());
        assert_eq!(storage.iter_all(), state);
    }
}

#[test]
fn deleting_the_sole_selection_restores_the_default() {
    let mut storage = storage_of(&[sl(4, 2, 5, 3)]);
    storage.delete(&Position::new(4, 2));

    let sels = storage.iter_all();
    assert_eq!(sels.len(), 1);
    assert_eq!(sels[0].from, Position::new(0, 0));
    assert_eq!(sels[0].to, Position::new(0, 0));
    assert_eq!(sels[0].direction, SelectionDirection::Forward);
    assert_eq!(sels[0].from.sticky_column, None);
    assert_eq!(sels[0].to.sticky_column, None);
}

#[test]
fn horizontal_motion_discards_sticky_state() {
    let ll = lls(&[(0, 20), (1, 5), (2, 20)]);
    let mut storage = storage_of(&[sl(2, 10, 2, 10)]);

    // A vertical dip onto the short line memoizes the column...
    storage.move_up_single(&ll, &Position::new(2, 10), 1, false);
    let dipped = storage.iter_all();
    assert_eq!(dipped[0].to.sticky_column, Some(10));

    // ...and a non-extending horizontal step drops the memo.
    storage.move_left_single(&ll, &Position::new(1, 5), 1, false);
    let sels = storage.iter_all();
    assert_eq!(sels, vec![sl(1, 4, 1, 4)]);
    assert_eq!(sels[0].from.sticky_column, None);
    assert_eq!(sels[0].to.sticky_column, None);

    // The same holds for a rightward step after another dip.
    let mut storage = storage_of(&[sl(2, 10, 2, 10)]);
    storage.move_up_single(&ll, &Position::new(2, 10), 1, false);
    storage.move_right_single(&ll, &Position::new(1, 5), 1, false);
    let sels = storage.iter_all();
    assert_eq!(sels[0].from.sticky_column, None);
    assert_eq!(sels[0].to.sticky_column, None);
}

#[test]
fn vertical_round_trip_restores_the_position() {
    let ll = lls(&[(0, 20), (1, 20), (2, 20)]);
    let p = Position::new(0, 7);
    let back = p.move_down(&ll, 2).move_up(&ll, 2);
    assert!(back.weak_eq(&p));
    assert_eq!(back, p);
}

#[test]
fn sticky_preserved_across_a_dip() {
    // Starting on a long line and moving onto another long line needs no
    // sticky memo...
    let ll = lls(&[(0, 20), (1, 5), (2, 30), (3, 50)]);
    let moved = sl(2, 20, 2, 10).move_down(&ll, 1, true);
    assert_eq!(
        moved,
        Selection::new(Position::new(2, 20), Position::new(3, 10))
    );

    // ...while clipping on a short line memoizes the column and a later
    // motion onto a long line restores it.
    let clipped = Position::new(2, 20).move_up(&ll, 1);
    assert_eq!(clipped, Position::new_with_sticky(1, 5, 20));
    let restored = clipped.move_up(&ll, 1);
    assert_eq!(restored, Position::new(0, 20));
}

#[test]
fn deltas_report_their_counts() {
    let mut storage = SelectionStorage::new();
    let deltas = storage.insert(sl(3, 0, 3, 5));
    assert_eq!(deltas.len(), 1);
    assert!(!deltas.is_empty());
    let deltas = storage.delete(&Position::new(9, 9));
    assert_eq!(deltas.len(), 0);
    assert!(deltas.is_empty());
}
