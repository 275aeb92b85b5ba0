//! Tests for merge- and replace-insertion into the selection storage.

use selections::{Position, Selection, SelectionDelta, SelectionStorage};

fn sl(al: usize, ac: usize, cl: usize, cc: usize) -> Selection {
    Selection::new(Position::new(al, ac), Position::new(cl, cc))
}

fn storage_of(sels: &[Selection]) -> SelectionStorage {
    let mut storage = SelectionStorage::new_empty();
    for s in sels {
        storage.insert(*s);
    }
    storage
}

fn created(s: Selection) -> SelectionDelta {
    SelectionDelta::Created(s)
}

fn deleted(s: Selection) -> SelectionDelta {
    SelectionDelta::Deleted(s)
}

#[test]
fn insert_reversed() {
    let mut storage = SelectionStorage::new_empty();
    let deltas = storage.insert(sl(3, 7, 1, 3));
    assert_eq!(deltas.into_vec(), vec![created(sl(3, 7, 1, 3))]);
    assert_eq!(storage.iter_all(), vec![sl(3, 7, 1, 3)]);
}

#[test]
fn insert_reversed_merge() {
    let mut storage = storage_of(&[sl(0, 0, 1, 4)]);
    let deltas = storage.insert(sl(3, 7, 1, 3));
    assert_eq!(
        deltas.into_vec(),
        vec![deleted(sl(0, 0, 1, 4)), created(sl(3, 7, 0, 0))]
    );
    assert_eq!(storage.iter_all(), vec![sl(3, 7, 0, 0)]);
}

#[test]
fn no_collision() {
    let mut storage = SelectionStorage::new_empty();
    let deltas = storage.insert(sl(1, 3, 3, 7));
    assert_eq!(deltas.into_vec(), vec![created(sl(1, 3, 3, 7))]);
    assert_eq!(storage.iter_all(), vec![sl(1, 3, 3, 7)]);
}

#[test]
fn test_no_collision() {
    let mut storage = SelectionStorage::new_empty();
    let deltas = storage.insert(sl(1, 3, 3, 7));
    assert_eq!(deltas.into_vec(), vec![created(sl(1, 3, 3, 7))]);
    assert_eq!(storage.iter_all(), vec![sl(1, 3, 3, 7)]);
}

#[test]
fn collision_left_merge() {
    let mut storage = storage_of(&[sl(1, 3, 3, 7)]);
    let deltas = storage.insert(sl(1, 4, 4, 5));
    assert_eq!(
        deltas.into_vec(),
        vec![deleted(sl(1, 3, 3, 7)), created(sl(1, 3, 4, 5))]
    );
    assert_eq!(storage.iter_all(), vec![sl(1, 3, 4, 5)]);
}

#[test]
fn collision_left_replace() {
    let mut storage = storage_of(&[sl(1, 3, 3, 7)]);
    let deltas = storage.insert_replacing(sl(1, 4, 4, 5));
    assert_eq!(
        deltas.into_vec(),
        vec![deleted(sl(1, 3, 3, 7)), created(sl(1, 4, 4, 5))]
    );
    assert_eq!(storage.iter_all(), vec![sl(1, 4, 4, 5)]);
}

#[test]
fn collision_left_merge_cornercase() {
    let mut storage = storage_of(&[sl(1, 3, 3, 7)]);
    let deltas = storage.insert(sl(3, 7, 4, 5));
    assert_eq!(
        deltas.into_vec(),
        vec![deleted(sl(1, 3, 3, 7)), created(sl(1, 3, 4, 5))]
    );
    assert_eq!(storage.iter_all(), vec![sl(1, 3, 4, 5)]);
}

#[test]
fn collision_left_neighbors_cornercase() {
    let mut storage = storage_of(&[sl(1, 3, 3, 7)]);
    let deltas = storage.insert(sl(3, 8, 4, 5));
    assert_eq!(deltas.into_vec(), vec![created(sl(3, 8, 4, 5))]);
    assert_eq!(storage.iter_all(), vec![sl(1, 3, 3, 7), sl(3, 8, 4, 5)]);
}

#[test]
fn collision_left_replace_cornercase() {
    let mut storage = storage_of(&[sl(1, 3, 3, 7)]);
    let deltas = storage.insert_replacing(sl(3, 7, 4, 5));
    assert_eq!(
        deltas.into_vec(),
        vec![deleted(sl(1, 3, 3, 7)), created(sl(3, 7, 4, 5))]
    );
    assert_eq!(storage.iter_all(), vec![sl(3, 7, 4, 5)]);
}

#[test]
fn collision_right_merge() {
    let mut storage = storage_of(&[sl(1, 3, 3, 7)]);
    let deltas = storage.insert(sl(0, 10, 1, 5));
    assert_eq!(
        deltas.into_vec(),
        vec![created(sl(0, 10, 3, 7)), deleted(sl(1, 3, 3, 7))]
    );
    assert_eq!(storage.iter_all(), vec![sl(0, 10, 3, 7)]);
}

#[test]
fn collision_right_replace() {
    let mut storage = storage_of(&[sl(1, 3, 3, 7)]);
    let deltas = storage.insert_replacing(sl(0, 10, 1, 5));
    assert_eq!(
        deltas.into_vec(),
        vec![created(sl(0, 10, 1, 5)), deleted(sl(1, 3, 3, 7))]
    );
    assert_eq!(storage.iter_all(), vec![sl(0, 10, 1, 5)]);
}

#[test]
fn collision_both_ends_merge() {
    let mut storage = storage_of(&[sl(1, 3, 3, 7), sl(4, 3, 5, 7)]);
    let deltas = storage.insert(sl(3, 5, 4, 7));
    assert_eq!(
        deltas.into_vec(),
        vec![
            deleted(sl(1, 3, 3, 7)),
            created(sl(1, 3, 5, 7)),
            deleted(sl(4, 3, 5, 7)),
        ]
    );
    assert_eq!(storage.iter_all(), vec![sl(1, 3, 5, 7)]);
}

#[test]
fn collision_both_ends_replace() {
    let mut storage = storage_of(&[sl(1, 3, 3, 7), sl(4, 3, 5, 7)]);
    let deltas = storage.insert_replacing(sl(3, 5, 4, 7));
    assert_eq!(
        deltas.into_vec(),
        vec![
            deleted(sl(1, 3, 3, 7)),
            created(sl(3, 5, 4, 7)),
            deleted(sl(4, 3, 5, 7)),
        ]
    );
    assert_eq!(storage.iter_all(), vec![sl(3, 5, 4, 7)]);
}

#[test]
fn absorbs_multiple_selections() {
    let mut storage = storage_of(&[
        sl(0, 3, 0, 5),
        sl(1, 3, 3, 7),
        sl(4, 3, 5, 7),
        sl(6, 7, 8, 9),
    ]);
    let deltas = storage.insert(sl(0, 10, 5, 8));
    assert_eq!(
        deltas.into_vec(),
        vec![
            created(sl(0, 10, 5, 8)),
            deleted(sl(1, 3, 3, 7)),
            deleted(sl(4, 3, 5, 7)),
        ]
    );
    assert_eq!(
        storage.iter_all(),
        vec![sl(0, 3, 0, 5), sl(0, 10, 5, 8), sl(6, 7, 8, 9)]
    );
}

#[test]
fn absorbs_selections_and_handles_collisions_right_merge() {
    let mut storage = storage_of(&[
        sl(0, 3, 0, 5),
        sl(1, 3, 3, 7),
        sl(4, 3, 5, 7),
        sl(6, 7, 8, 9),
    ]);
    let deltas = storage.insert(sl(0, 10, 6, 10));
    assert_eq!(
        deltas.into_vec(),
        vec![
            created(sl(0, 10, 8, 9)),
            deleted(sl(1, 3, 3, 7)),
            deleted(sl(4, 3, 5, 7)),
            deleted(sl(6, 7, 8, 9)),
        ]
    );
    assert_eq!(storage.iter_all(), vec![sl(0, 3, 0, 5), sl(0, 10, 8, 9)]);
}

#[test]
fn absorbs_selections_and_handles_collisions_right_replace() {
    let mut storage = storage_of(&[
        sl(0, 3, 0, 5),
        sl(1, 3, 3, 7),
        sl(4, 3, 5, 7),
        sl(6, 7, 8, 9),
    ]);
    let deltas = storage.insert_replacing(sl(0, 10, 6, 10));
    assert_eq!(
        deltas.into_vec(),
        vec![
            created(sl(0, 10, 6, 10)),
            deleted(sl(1, 3, 3, 7)),
            deleted(sl(4, 3, 5, 7)),
            deleted(sl(6, 7, 8, 9)),
        ]
    );
    assert_eq!(storage.iter_all(), vec![sl(0, 3, 0, 5), sl(0, 10, 6, 10)]);
}

#[test]
fn absorbs_selections_and_handles_collisions_left_merge() {
    let mut storage = storage_of(&[
        sl(0, 3, 0, 5),
        sl(1, 3, 3, 7),
        sl(4, 3, 5, 7),
        sl(6, 7, 8, 9),
    ]);
    let deltas = storage.insert(sl(0, 4, 6, 5));
    assert_eq!(
        deltas.into_vec(),
        vec![
            deleted(sl(0, 3, 0, 5)),
            created(sl(0, 3, 6, 5)),
            deleted(sl(1, 3, 3, 7)),
            deleted(sl(4, 3, 5, 7)),
        ]
    );
    assert_eq!(storage.iter_all(), vec![sl(0, 3, 6, 5), sl(6, 7, 8, 9)]);
}

#[test]
fn absorbs_selections_and_handles_collisions_left_replace() {
    let mut storage = storage_of(&[
        sl(0, 3, 0, 5),
        sl(1, 3, 3, 7),
        sl(4, 3, 5, 7),
        sl(6, 7, 8, 9),
    ]);
    let deltas = storage.insert_replacing(sl(0, 4, 6, 5));
    assert_eq!(
        deltas.into_vec(),
        vec![
            deleted(sl(0, 3, 0, 5)),
            created(sl(0, 4, 6, 5)),
            deleted(sl(1, 3, 3, 7)),
            deleted(sl(4, 3, 5, 7)),
        ]
    );
    assert_eq!(storage.iter_all(), vec![sl(0, 4, 6, 5), sl(6, 7, 8, 9)]);
}
