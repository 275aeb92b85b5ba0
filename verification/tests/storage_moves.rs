//! Tests for single-selection movement inside the storage.

use selections::{LineLengths, Position, Selection, SelectionDelta, SelectionStorage};

fn lls(pairs: &[(usize, usize)]) -> LineLengths {
    let mut line_lengths = LineLengths::new();
    for (line, len) in pairs {
        line_lengths.set(*line, *len);
    }
    line_lengths
}

fn sl(al: usize, ac: usize, cl: usize, cc: usize) -> Selection {
    Selection::new(Position::new(al, ac), Position::new(cl, cc))
}

fn sl_sticky(al: usize, ac: usize, cl: usize, cc: usize, sticky: usize) -> Selection {
    Selection::new(Position::new(al, ac), Position::new_with_sticky(cl, cc, sticky))
}

fn storage_of(sels: &[Selection]) -> SelectionStorage {
    let mut storage = SelectionStorage::new_empty();
    for s in sels {
        storage.insert(*s);
    }
    storage
}

fn updated(old: Selection, new: Selection) -> SelectionDelta {
    SelectionDelta::Updated { old, new }
}

fn deleted(s: Selection) -> SelectionDelta {
    SelectionDelta::Deleted(s)
}

#[test]
fn test_movement_forward_same_line_no_extend_no_overlap() {
    let mut storage = storage_of(&[sl(0, 0, 0, 0), sl(0, 1, 1, 2)]);
    let ll = LineLengths::new();
    let deltas = storage.move_left_single(&ll, &Position::new(0, 1), 1, false);
    assert_eq!(
        deltas.into_vec(),
        vec![updated(sl(0, 1, 1, 2), sl(1, 1, 1, 1))]
    );
    assert_eq!(storage.iter_all(), vec![sl(0, 0, 0, 0), sl(1, 1, 1, 1)]);
}

#[test]
fn storage_forward_same_line_no_extend_no_overlap() {
    let mut storage = storage_of(&[sl(0, 0, 0, 0), sl(0, 1, 1, 2)]);
    let ll = LineLengths::new();
    let deltas = storage.move_left_single(&ll, &Position::new(0, 1), 1, false);
    assert_eq!(
        deltas.into_vec(),
        vec![updated(sl(0, 1, 1, 2), sl(1, 1, 1, 1))]
    );
    assert_eq!(storage.iter_all(), vec![sl(0, 0, 0, 0), sl(1, 1, 1, 1)]);
}

#[test]
fn single_no_extend_forward_same_line() {
    let mut storage = storage_of(&[sl(0, 0, 0, 0), sl(0, 1, 1, 2)]);
    let ll = LineLengths::new();
    let deltas = storage.move_left_single(&ll, &Position::new(0, 1), 1, false);
    assert_eq!(
        deltas.into_vec(),
        vec![updated(sl(0, 1, 1, 2), sl(1, 1, 1, 1))]
    );
    assert_eq!(storage.iter_all(), vec![sl(0, 0, 0, 0), sl(1, 1, 1, 1)]);
}

#[test]
fn forward_same_line_extend_no_overlap() {
    let mut storage = storage_of(&[sl(0, 0, 0, 0), sl(0, 5, 1, 20)]);
    let ll = LineLengths::new();
    let deltas = storage.move_left_single(&ll, &Position::new(0, 5), 10, true);
    assert_eq!(
        deltas.into_vec(),
        vec![updated(sl(0, 5, 1, 20), sl(0, 5, 1, 10))]
    );
    assert_eq!(storage.iter_all(), vec![sl(0, 0, 0, 0), sl(0, 5, 1, 10)]);
}

#[test]
fn backward_same_line_no_extend_no_overlap() {
    let mut storage = storage_of(&[sl(0, 0, 0, 0), sl(1, 2, 0, 5)]);
    let ll = LineLengths::new();
    let deltas = storage.move_left_single(&ll, &Position::new(0, 5), 1, false);
    assert_eq!(
        deltas.into_vec(),
        vec![updated(sl(1, 2, 0, 5), sl(0, 4, 0, 4))]
    );
    assert_eq!(storage.iter_all(), vec![sl(0, 0, 0, 0), sl(0, 4, 0, 4)]);
}

#[test]
fn backward_same_line_extend_no_overlap() {
    let mut storage = storage_of(&[sl(0, 0, 0, 0), sl(1, 2, 0, 5)]);
    let ll = LineLengths::new();
    let deltas = storage.move_left_single(&ll, &Position::new(0, 5), 1, true);
    assert_eq!(
        deltas.into_vec(),
        vec![updated(sl(1, 2, 0, 5), sl(1, 2, 0, 4))]
    );
    assert_eq!(storage.iter_all(), vec![sl(0, 0, 0, 0), sl(1, 2, 0, 4)]);
}

#[test]
fn forward_same_line_extend_reverse_no_overlap() {
    let mut storage = storage_of(&[sl(0, 0, 0, 0), sl(0, 5, 0, 10)]);
    let ll = LineLengths::new();
    let deltas = storage.move_left_single(&ll, &Position::new(0, 5), 6, true);
    assert_eq!(
        deltas.into_vec(),
        vec![updated(sl(0, 5, 0, 10), sl(0, 5, 0, 4))]
    );
    assert_eq!(storage.iter_all(), vec![sl(0, 0, 0, 0), sl(0, 5, 0, 4)]);
}

#[test]
fn test_movement_step_over_no_overlap() {
    let mut storage = storage_of(&[sl(0, 0, 0, 0), sl(0, 5, 0, 10), sl(0, 15, 0, 15)]);
    let ll = LineLengths::new();
    let deltas = storage.move_left_single(&ll, &Position::new(0, 15), 12, false);
    assert_eq!(
        deltas.into_vec(),
        vec![updated(sl(0, 15, 0, 15), sl(0, 3, 0, 3))]
    );
    assert_eq!(
        storage.iter_all(),
        vec![sl(0, 0, 0, 0), sl(0, 3, 0, 3), sl(0, 5, 0, 10)]
    );
}

#[test]
fn test_movement_overlap_one_edge_no_extend() {
    let mut storage = storage_of(&[sl(0, 0, 0, 5), sl(0, 10, 0, 15)]);
    let ll = lls(&[(0, 10)]);
    let deltas = storage.move_left_single(&ll, &Position::new(0, 10), 12, false);
    assert_eq!(
        deltas.into_vec(),
        vec![
            deleted(sl(0, 0, 0, 5)),
            updated(sl(0, 10, 0, 15), sl(0, 3, 0, 3)),
        ]
    );
    assert_eq!(storage.iter_all(), vec![sl(0, 3, 0, 3)]);
}

#[test]
fn test_movement_overlap_one_edge_extend() {
    let mut storage = storage_of(&[sl(0, 0, 0, 5), sl(0, 10, 1, 2)]);
    let ll = lls(&[(0, 10)]);
    let deltas = storage.move_left_single(&ll, &Position::new(0, 10), 10, true);
    assert_eq!(
        deltas.into_vec(),
        vec![
            deleted(sl(0, 0, 0, 5)),
            updated(sl(0, 10, 1, 2), sl(0, 10, 0, 0)),
        ]
    );
    assert_eq!(storage.iter_all(), vec![sl(0, 10, 0, 0)]);
}

#[test]
fn test_movement_overlap_many() {
    let mut storage = storage_of(&[
        sl(0, 0, 0, 0),
        sl(0, 3, 0, 8),
        sl(0, 15, 1, 2),
        sl(3, 7, 1, 3),
        sl(4, 20, 13, 37),
    ]);
    let ll = lls(&[(0, 10), (1, 10), (2, 10), (3, 10)]);
    let deltas = storage.move_left_single(&ll, &Position::new(1, 3), 69, true);
    assert_eq!(
        deltas.into_vec(),
        vec![
            deleted(sl(0, 0, 0, 0)),
            deleted(sl(0, 3, 0, 8)),
            deleted(sl(0, 15, 1, 2)),
            updated(sl(3, 7, 1, 3), sl(3, 7, 0, 0)),
        ]
    );
    assert_eq!(storage.iter_all(), vec![sl(3, 7, 0, 0), sl(4, 20, 13, 37)]);
}

#[test]
fn test_movement_no_changes_in_order() {
    let mut storage = storage_of(&[sl(0, 0, 0, 0), sl(0, 10, 1, 2)]);
    let ll = lls(&[(0, 69)]);
    let deltas = storage.move_right_single(&ll, &Position::new(0, 0), 5, false);
    assert_eq!(
        deltas.into_vec(),
        vec![updated(sl(0, 0, 0, 0), sl(0, 5, 0, 5))]
    );
    assert_eq!(storage.iter_all(), vec![sl(0, 5, 0, 5), sl(0, 10, 1, 2)]);
}

#[test]
fn test_movement_no_changes_in_order_last() {
    let mut storage = storage_of(&[sl(0, 0, 0, 0), sl(0, 1, 1, 2)]);
    let ll = lls(&[(0, 69), (1, 69)]);
    let deltas = storage.move_right_single(&ll, &Position::new(0, 1), 1, true);
    assert_eq!(
        deltas.into_vec(),
        vec![updated(sl(0, 1, 1, 2), sl(0, 1, 1, 3))]
    );
    assert_eq!(storage.iter_all(), vec![sl(0, 0, 0, 0), sl(0, 1, 1, 3)]);
}

#[test]
fn test_movement_step_over_no_overlap_right() {
    let mut storage = storage_of(&[sl(0, 0, 0, 0), sl(0, 5, 0, 10), sl(0, 15, 0, 15)]);
    let ll = lls(&[(0, 30)]);
    let deltas = storage.move_right_single(&ll, &Position::new(0, 0), 12, false);
    assert_eq!(
        deltas.into_vec(),
        vec![updated(sl(0, 0, 0, 0), sl(0, 12, 0, 12))]
    );
    assert_eq!(
        storage.iter_all(),
        vec![sl(0, 5, 0, 10), sl(0, 12, 0, 12), sl(0, 15, 0, 15)]
    );
}

#[test]
fn test_movement_step_over_no_overlap_last() {
    let mut storage = storage_of(&[sl(0, 0, 0, 0), sl(0, 5, 0, 10), sl(0, 15, 0, 15)]);
    let ll = lls(&[(0, 30)]);
    let deltas = storage.move_right_single(&ll, &Position::new(0, 5), 12, false);
    assert_eq!(
        deltas.into_vec(),
        vec![updated(sl(0, 5, 0, 10), sl(0, 22, 0, 22))]
    );
    assert_eq!(
        storage.iter_all(),
        vec![sl(0, 0, 0, 0), sl(0, 15, 0, 15), sl(0, 22, 0, 22)]
    );
}

#[test]
fn test_movement_overlap_one_edge_no_extend_right() {
    let mut storage = storage_of(&[sl(0, 0, 0, 5), sl(0, 10, 0, 15), sl(1, 3, 3, 7)]);
    let ll = lls(&[(0, 20), (1, 20), (2, 10), (3, 10)]);
    let deltas = storage.move_right_single(&ll, &Position::new(0, 0), 8, false);
    assert_eq!(
        deltas.into_vec(),
        vec![
            updated(sl(0, 0, 0, 5), sl(0, 13, 0, 13)),
            deleted(sl(0, 10, 0, 15)),
        ]
    );
    assert_eq!(storage.iter_all(), vec![sl(0, 13, 0, 13), sl(1, 3, 3, 7)]);
}

#[test]
fn test_movement_overlap_one_edge_extend_right() {
    let mut storage = storage_of(&[sl(0, 0, 0, 5), sl(0, 10, 0, 15), sl(1, 3, 3, 7)]);
    let ll = lls(&[(0, 20), (1, 20), (2, 10), (3, 10)]);
    let deltas = storage.move_right_single(&ll, &Position::new(0, 10), 9, true);
    assert_eq!(
        deltas.into_vec(),
        vec![
            updated(sl(0, 10, 0, 15), sl(0, 10, 3, 7)),
            deleted(sl(1, 3, 3, 7)),
        ]
    );
    assert_eq!(storage.iter_all(), vec![sl(0, 0, 0, 5), sl(0, 10, 3, 7)]);
}

#[test]
fn test_movement_overlap_many_right() {
    let mut storage = storage_of(&[
        sl(0, 0, 0, 0),
        sl(0, 8, 0, 3),
        sl(0, 15, 1, 2),
        sl(3, 7, 1, 3),
        sl(4, 20, 5, 37),
    ]);
    let ll = lls(&[(0, 20), (1, 20), (2, 20), (3, 20), (4, 20), (5, 40)]);
    let deltas = storage.move_right_single(&ll, &Position::new(0, 3), 420, true);
    assert_eq!(
        deltas.into_vec(),
        vec![
            updated(sl(0, 8, 0, 3), sl(0, 8, 5, 40)),
            deleted(sl(0, 15, 1, 2)),
            deleted(sl(3, 7, 1, 3)),
            deleted(sl(4, 20, 5, 37)),
        ]
    );
    assert_eq!(storage.iter_all(), vec![sl(0, 0, 0, 0), sl(0, 8, 5, 40)]);
}

#[test]
fn test_movement_no_changes_in_order_up() {
    let mut storage = storage_of(&[sl(0, 0, 0, 0), sl(2, 10, 3, 2), sl(5, 5, 5, 6)]);
    let ll = lls(&[(0, 69), (1, 69), (2, 69), (3, 69)]);
    let deltas = storage.move_up_single(&ll, &Position::new(2, 10), 1, false);
    assert_eq!(
        deltas.into_vec(),
        vec![updated(sl(2, 10, 3, 2), sl(2, 2, 2, 2))]
    );
    assert_eq!(
        storage.iter_all(),
        vec![sl(0, 0, 0, 0), sl(2, 2, 2, 2), sl(5, 5, 5, 6)]
    );
}

#[test]
fn test_movement_no_changes_in_order_last_up() {
    let mut storage = storage_of(&[sl(0, 0, 0, 0), sl(2, 1, 2, 0)]);
    let ll = lls(&[(0, 69), (1, 69), (2, 69)]);
    let deltas = storage.move_up_single(&ll, &Position::new(2, 0), 1, true);
    assert_eq!(
        deltas.into_vec(),
        vec![updated(sl(2, 1, 2, 0), sl(2, 1, 1, 0))]
    );
    assert_eq!(storage.iter_all(), vec![sl(0, 0, 0, 0), sl(2, 1, 1, 0)]);
}

#[test]
fn test_movement_step_over_no_overlap_up() {
    let mut storage = storage_of(&[sl(0, 0, 0, 0), sl(1, 5, 1, 10), sl(2, 15, 2, 15)]);
    let ll = lls(&[(0, 30), (1, 30), (2, 30)]);
    let deltas = storage.move_up_single(&ll, &Position::new(2, 15), 2, false);
    assert_eq!(
        deltas.into_vec(),
        vec![updated(sl(2, 15, 2, 15), sl(0, 15, 0, 15))]
    );
    assert_eq!(
        storage.iter_all(),
        vec![sl(0, 0, 0, 0), sl(0, 15, 0, 15), sl(1, 5, 1, 10)]
    );
}

#[test]
fn step_over_no_overlap_first() {
    let mut storage = storage_of(&[sl(1, 5, 1, 10), sl(2, 15, 2, 15)]);
    let ll = lls(&[(0, 30), (1, 30), (2, 30)]);
    let deltas = storage.move_up_single(&ll, &Position::new(2, 15), 12, false);
    assert_eq!(
        deltas.into_vec(),
        vec![updated(sl(2, 15, 2, 15), sl(0, 15, 0, 15))]
    );
    assert_eq!(storage.iter_all(), vec![sl(0, 15, 0, 15), sl(1, 5, 1, 10)]);
}

#[test]
fn test_movement_overlap_one_edge_no_extend_up() {
    let mut storage = storage_of(&[sl(0, 0, 0, 5), sl(0, 10, 0, 15), sl(3, 7, 1, 13)]);
    let ll = lls(&[(0, 20), (1, 20), (2, 10), (3, 10)]);
    let deltas = storage.move_up_single(&ll, &Position::new(1, 13), 1, false);
    assert_eq!(
        deltas.into_vec(),
        vec![
            deleted(sl(0, 10, 0, 15)),
            updated(sl(3, 7, 1, 13), sl(0, 13, 0, 13)),
        ]
    );
    assert_eq!(storage.iter_all(), vec![sl(0, 0, 0, 5), sl(0, 13, 0, 13)]);
}

#[test]
fn test_movement_overlap_one_edge_extend_up() {
    let mut storage = storage_of(&[sl(0, 0, 0, 5), sl(0, 10, 0, 15), sl(1, 3, 3, 12)]);
    let ll = lls(&[(0, 20), (1, 20), (2, 10), (3, 10)]);
    let deltas = storage.move_up_single(&ll, &Position::new(1, 3), 3, true);
    assert_eq!(
        deltas.into_vec(),
        vec![
            deleted(sl(0, 10, 0, 15)),
            updated(sl(1, 3, 3, 12), sl(1, 3, 0, 10)),
        ]
    );
    assert_eq!(storage.iter_all(), vec![sl(0, 0, 0, 5), sl(1, 3, 0, 10)]);
}

#[test]
fn test_movement_overlap_many_up() {
    let mut storage = storage_of(&[
        sl(0, 5, 0, 7),
        sl(0, 8, 0, 12),
        sl(0, 15, 1, 2),
        sl(3, 7, 1, 6),
        sl(4, 20, 5, 37),
    ]);
    let ll = lls(&[(0, 20), (1, 20), (2, 20), (3, 20), (4, 20), (5, 40)]);
    let deltas = storage.move_up_single(&ll, &Position::new(1, 6), 420, true);
    assert_eq!(
        deltas.into_vec(),
        vec![
            deleted(sl(0, 5, 0, 7)),
            deleted(sl(0, 8, 0, 12)),
            deleted(sl(0, 15, 1, 2)),
            updated(sl(3, 7, 1, 6), sl(3, 7, 0, 5)),
        ]
    );
    assert_eq!(storage.iter_all(), vec![sl(3, 7, 0, 5), sl(4, 20, 5, 37)]);
}

#[test]
fn test_movement_overlap_inherits_sticky_column() {
    let mut storage = storage_of(&[sl_sticky(2, 20, 1, 5, 10), sl(3, 40, 3, 15)]);
    let ll = lls(&[(0, 20), (1, 5), (2, 30), (3, 50)]);

    storage.move_up_single(&ll, &Position::new(3, 15), 1, true);
    let deltas = storage.move_up_single(&ll, &Position::new(1, 5), 1, true);
    assert_eq!(
        deltas.into_vec(),
        vec![updated(sl_sticky(3, 40, 1, 5, 10), sl(3, 40, 0, 10))]
    );
    assert_eq!(storage.iter_all(), vec![sl(3, 40, 0, 10)]);
}

#[test]
fn test_movement_no_changes_in_order_down() {
    let mut storage = storage_of(&[sl(0, 0, 0, 0), sl(2, 10, 3, 2), sl(5, 5, 5, 6)]);
    let ll = lls(&[(0, 69), (1, 69), (2, 69), (3, 69), (4, 69), (5, 69)]);
    let deltas = storage.move_down_single(&ll, &Position::new(2, 10), 1, false);
    assert_eq!(
        deltas.into_vec(),
        vec![updated(sl(2, 10, 3, 2), sl(4, 2, 4, 2))]
    );
    assert_eq!(
        storage.iter_all(),
        vec![sl(0, 0, 0, 0), sl(4, 2, 4, 2), sl(5, 5, 5, 6)]
    );
}

#[test]
fn test_movement_no_changes_in_order_last_down() {
    let mut storage = storage_of(&[sl(0, 0, 0, 0), sl(2, 1, 2, 0)]);
    let ll = lls(&[(0, 69), (1, 69), (2, 69), (3, 69)]);
    let deltas = storage.move_down_single(&ll, &Position::new(2, 0), 1, true);
    assert_eq!(
        deltas.into_vec(),
        vec![updated(sl(2, 1, 2, 0), sl(2, 1, 3, 0))]
    );
    assert_eq!(storage.iter_all(), vec![sl(0, 0, 0, 0), sl(2, 1, 3, 0)]);
}

#[test]
fn test_movement_step_over_no_overlap_down() {
    let mut storage = storage_of(&[sl(0, 0, 0, 0), sl(1, 5, 1, 10), sl(2, 15, 2, 15)]);
    let ll = lls(&[(0, 30), (1, 30), (2, 30), (3, 30)]);
    let deltas = storage.move_down_single(&ll, &Position::new(1, 5), 2, false);
    assert_eq!(
        deltas.into_vec(),
        vec![updated(sl(1, 5, 1, 10), sl(3, 10, 3, 10))]
    );
    assert_eq!(
        storage.iter_all(),
        vec![sl(0, 0, 0, 0), sl(2, 15, 2, 15), sl(3, 10, 3, 10)]
    );
}

#[test]
fn test_movement_step_over_no_overlap_last_down() {
    let mut storage = storage_of(&[sl(1, 5, 1, 10), sl(2, 15, 2, 15)]);
    let ll = lls(&[(0, 30), (1, 30), (2, 30), (3, 30), (4, 30)]);
    let deltas = storage.move_down_single(&ll, &Position::new(1, 5), 12, false);
    assert_eq!(
        deltas.into_vec(),
        vec![updated(sl(1, 5, 1, 10), sl(4, 10, 4, 10))]
    );
    assert_eq!(storage.iter_all(), vec![sl(2, 15, 2, 15), sl(4, 10, 4, 10)]);
}

#[test]
fn test_movement_overlap_one_edge_no_extend_down() {
    let mut storage = storage_of(&[sl(0, 0, 0, 5), sl(0, 10, 0, 15), sl(3, 7, 1, 13)]);
    let ll = lls(&[(0, 20), (1, 20), (2, 10), (3, 10)]);
    let deltas = storage.move_down_single(&ll, &Position::new(0, 10), 1, false);
    assert_eq!(
        deltas.into_vec(),
        vec![
            updated(sl(0, 10, 0, 15), sl(1, 15, 1, 15)),
            deleted(sl(3, 7, 1, 13)),
        ]
    );
    assert_eq!(storage.iter_all(), vec![sl(0, 0, 0, 5), sl(1, 15, 1, 15)]);
}

#[test]
fn test_movement_overlap_one_edge_extend_down() {
    let mut storage = storage_of(&[sl(0, 0, 0, 5), sl(0, 10, 0, 15), sl(2, 3, 3, 12)]);
    let ll = lls(&[(0, 20), (1, 20), (2, 10), (3, 10)]);
    let deltas = storage.move_down_single(&ll, &Position::new(0, 10), 2, true);
    assert_eq!(
        deltas.into_vec(),
        vec![
            updated(sl(0, 10, 0, 15), sl(0, 10, 3, 12)),
            deleted(sl(2, 3, 3, 12)),
        ]
    );
    assert_eq!(storage.iter_all(), vec![sl(0, 0, 0, 5), sl(0, 10, 3, 12)]);
}

#[test]
fn test_movement_overlap_many_down() {
    let mut storage = storage_of(&[
        sl(0, 5, 0, 7),
        sl(0, 8, 0, 12),
        sl(0, 15, 1, 2),
        sl(3, 7, 1, 6),
        sl(4, 20, 5, 37),
    ]);
    let ll = lls(&[(0, 20), (1, 20), (2, 20), (3, 20), (4, 20), (5, 40), (6, 10)]);
    let deltas = storage.move_down_single(&ll, &Position::new(0, 8), 420, true);
    assert_eq!(
        deltas.into_vec(),
        vec![
            updated(sl(0, 8, 0, 12), sl_sticky(0, 8, 6, 10, 12)),
            deleted(sl(0, 15, 1, 2)),
            deleted(sl(3, 7, 1, 6)),
            deleted(sl(4, 20, 5, 37)),
        ]
    );
    assert_eq!(
        storage.iter_all(),
        vec![sl(0, 5, 0, 7), sl_sticky(0, 8, 6, 10, 12)]
    );
}

#[test]
fn test_movement_overlap_inherits_sticky_column_down() {
    let mut storage = storage_of(&[sl(2, 20, 2, 10), sl_sticky(3, 8, 4, 20, 25)]);
    let ll = lls(&[(0, 20), (1, 5), (2, 30), (3, 50), (4, 20), (5, 30)]);

    storage.move_down_single(&ll, &Position::new(2, 10), 1, true);
    let deltas = storage.move_down_single(&ll, &Position::new(2, 20), 1, true);
    assert_eq!(
        deltas.into_vec(),
        vec![updated(sl_sticky(2, 20, 4, 20, 25), sl(2, 20, 5, 25))]
    );
    assert_eq!(storage.iter_all(), vec![sl(2, 20, 5, 25)]);
}
