//! Definition and movement of [`Selection`], a directed span of buffer text.

use vstd::prelude::*;

use crate::position::{
    moved_cursor_down, moved_cursor_left, moved_cursor_right, moved_cursor_up, lengths_bounded,
    pos_le, pos_lt, pos_weak_eq, Position,
};
use crate::LineLength;

verus! {

/// Direction of a selection.
#[derive(Debug, Clone, Copy, PartialEq, Eq, Structural)]
pub enum SelectionDirection {
    /// The cursor is at the end of the span (the anchor at its start).
    Forward,
    /// The cursor is at the start of the span (the anchor at its end).
    Backward,
}

/// Selection is a pair of coordinates in a document, ordered so that
/// `from <= to`, together with the direction that tells which endpoint is the
/// cursor.
#[derive(Debug, Clone, Copy, PartialEq, Eq, Structural)]
pub struct Selection {
    /// The earlier endpoint of the span.
    pub from: Position,
    /// The later endpoint of the span.
    pub to: Position,
    /// Which endpoint carries the cursor.
    pub direction: SelectionDirection,
}

/// The invariant of a selection: its endpoints are ordered.
pub open spec fn sel_valid(s: Selection) -> bool {
    pos_le(s.from, s.to)
}

/// What [`Selection::new`] builds from an `(anchor, cursor)` pair: the
/// positions are swapped into order and the direction records which was
/// which.
pub open spec fn sel_new_spec(anchor: Position, cursor: Position) -> Selection {
    if pos_lt(cursor, anchor) {
        Selection { from: cursor, to: anchor, direction: SelectionDirection::Backward }
    } else {
        Selection { from: anchor, to: cursor, direction: SelectionDirection::Forward }
    }
}

/// The anchor of a selection: the endpoint that stays put during extension.
pub open spec fn sel_anchor(s: Selection) -> Position {
    match s.direction {
        SelectionDirection::Forward => s.from,
        SelectionDirection::Backward => s.to,
    }
}

/// The cursor of a selection: the endpoint that moves.
pub open spec fn sel_cursor(s: Selection) -> Position {
    match s.direction {
        SelectionDirection::Forward => s.to,
        SelectionDirection::Backward => s.from,
    }
}

/// Selection equality ignoring sticky columns.
pub open spec fn sel_weak_eq(a: Selection, b: Selection) -> bool {
    pos_weak_eq(a.from, b.from) && pos_weak_eq(a.to, b.to)
}

/// The default selection: a collapsed forward selection at the buffer start.
pub open spec fn default_selection() -> Selection {
    Selection {
        from: Position { line: 0, column: 0, sticky_column: None },
        to: Position { line: 0, column: 0, sticky_column: None },
        direction: SelectionDirection::Forward,
    }
}

/// The selection a movement produces once the cursor has landed on `p`.
/// An extending move keeps the anchor and spans up to `p`; a collapsing move
/// shrinks onto `p`, stripping the sticky column from the anchor copy, and —
/// when `strip_cursor` holds, as it does for horizontal motion — from the
/// cursor as well.
pub open spec fn sel_after_move(s: Selection, p: Position, extend: bool, strip_cursor: bool) -> Selection {
    if extend {
        sel_new_spec(sel_anchor(s), p)
    } else if strip_cursor {
        sel_new_spec(p.strip(), p.strip())
    } else {
        sel_new_spec(p.strip(), p)
    }
}

/// Where [`Selection::move_left`] takes the selection `s`.
pub open spec fn sel_move_left_spec(ll: Seq<usize>, s: Selection, n: int, extend: bool) -> Selection {
    sel_after_move(s, moved_cursor_left(ll, sel_cursor(s), n), extend, true)
}

/// Where [`Selection::move_right`] takes the selection `s`.
pub open spec fn sel_move_right_spec(ll: Seq<usize>, s: Selection, n: int, extend: bool) -> Selection {
    sel_after_move(s, moved_cursor_right(ll, sel_cursor(s), n), extend, true)
}

/// Where [`Selection::move_up`] takes the selection `s`.
pub open spec fn sel_move_up_spec(ll: Seq<usize>, s: Selection, n: int, extend: bool) -> Selection {
    sel_after_move(s, moved_cursor_up(ll, sel_cursor(s), n), extend, false)
}

/// Where [`Selection::move_down`] takes the selection `s`.
pub open spec fn sel_move_down_spec(ll: Seq<usize>, s: Selection, n: int, extend: bool) -> Selection {
    sel_after_move(s, moved_cursor_down(ll, sel_cursor(s), n), extend, false)
}

/// A moved selection never grows on both sides at once: it keeps either the
/// old lower bound on `from` or the old upper bound on `to`.  The storage
/// relies on this to know that a moved selection can collide with neighbours
/// on one side only.
pub open spec fn moved_within_side(s: Selection, r: Selection) -> bool {
    pos_le(s.from, r.from) || pos_le(r.to, s.to)
}

impl Position {
    /// The same position without a sticky column, for specifications.
    pub open spec fn strip(self) -> Position {
        Position { sticky_column: None, ..self }
    }
}

impl Default for Selection {
    /// Builds the default selection: collapsed at `(0, 0)`, facing forward.
    fn default() -> (r: Self)
        ensures
            r == default_selection(),
    {
        Selection {
            from: Position::new(0, 0),
            to: Position::new(0, 0),
            direction: SelectionDirection::Forward,
        }
    }
}

impl Selection {
    /// Build a new selection from two positions, setting the direction by
    /// their order: a cursor before its anchor makes a backward selection.
    pub fn new(anchor: Position, cursor: Position) -> (r: Selection)
        ensures
            r == sel_new_spec(anchor, cursor),
            sel_valid(r),
    {
        if cursor.precedes(&anchor) {
            Selection { from: cursor, to: anchor, direction: SelectionDirection::Backward }
        } else {
            Selection { from: anchor, to: cursor, direction: SelectionDirection::Forward }
        }
    }

    /// Equality check ignoring sticky columns.
    pub fn weak_eq(&self, other: &Selection) -> (r: bool)
        ensures
            r == sel_weak_eq(*self, *other),
    {
        self.from.weak_eq(&other.from) && self.to.weak_eq(&other.to)
    }

    /// Get the selection's anchor.
    pub fn anchor(&self) -> (r: &Position)
        ensures
            *r == sel_anchor(*self),
    {
        match self.direction {
            SelectionDirection::Forward => &self.from,
            SelectionDirection::Backward => &self.to,
        }
    }

    /// Get the selection's cursor.
    pub fn cursor(&self) -> (r: &Position)
        ensures
            *r == sel_cursor(*self),
    {
        match self.direction {
            SelectionDirection::Forward => &self.to,
            SelectionDirection::Backward => &self.from,
        }
    }

    /// Get the selection's id (its `from` component).
    pub fn id(&self) -> (r: &Position)
        ensures
            *r == self.from,
    {
        &self.from
    }

    /// Moves the selection's cursor `n` columns to the left; keeps the anchor
    /// when `extend` holds and otherwise collapses onto the cursor, dropping
    /// any sticky column.
    pub fn move_left<L: LineLength>(&self, line_lengths: &L, n: usize, extend: bool) -> (r: Selection)
        requires
            sel_valid(*self),
            lengths_bounded(line_lengths.lengths()),
            line_lengths.lengths().len() == 0
                || (sel_cursor(*self).line as int) < line_lengths.lengths().len(),
        ensures
            r == sel_move_left_spec(line_lengths.lengths(), *self, n as int, extend),
            sel_valid(r),
            moved_within_side(*self, r),
            !extend ==> r.from.sticky_column is None && r.to.sticky_column is None,
    {
        let cursor = *self.cursor();
        let p = cursor.move_left(line_lengths, n);
        if extend {
            Selection::new(*self.anchor(), p)
        } else {
            let q = p.remove_sticky();
            Selection::new(q, q)
        }
    }

    /// Moves the selection's cursor `n` columns to the right; keeps the
    /// anchor when `extend` holds and otherwise collapses onto the cursor,
    /// dropping any sticky column.
    pub fn move_right<L: LineLength>(&self, line_lengths: &L, n: usize, extend: bool) -> (r: Selection)
        requires
            sel_valid(*self),
            lengths_bounded(line_lengths.lengths()),
            line_lengths.lengths().len() == 0
                || (sel_cursor(*self).line as int) < line_lengths.lengths().len(),
            sel_cursor(*self).column + n <= usize::MAX,
        ensures
            r == sel_move_right_spec(line_lengths.lengths(), *self, n as int, extend),
            sel_valid(r),
            moved_within_side(*self, r),
            !extend ==> r.from.sticky_column is None && r.to.sticky_column is None,
    {
        let cursor = *self.cursor();
        let p = cursor.move_right(line_lengths, n);
        if extend {
            Selection::new(*self.anchor(), p)
        } else {
            let q = p.remove_sticky();
            Selection::new(q, q)
        }
    }

    /// Moves the selection's cursor `n` lines up; keeps the anchor when
    /// `extend` holds and otherwise collapses onto the cursor.  The cursor
    /// keeps the sticky column the vertical motion produced.
    pub fn move_up<L: LineLength>(&self, line_lengths: &L, n: usize, extend: bool) -> (r: Selection)
        requires
            sel_valid(*self),
            lengths_bounded(line_lengths.lengths()),
            line_lengths.lengths().len() == 0
                || (sel_cursor(*self).line as int) < line_lengths.lengths().len(),
        ensures
            r == sel_move_up_spec(line_lengths.lengths(), *self, n as int, extend),
            sel_valid(r),
            moved_within_side(*self, r),
    {
        let cursor = *self.cursor();
        let p = cursor.move_up(line_lengths, n);
        if extend {
            Selection::new(*self.anchor(), p)
        } else {
            Selection::new(p.remove_sticky(), p)
        }
    }

    /// Moves the selection's cursor `n` lines down; keeps the anchor when
    /// `extend` holds and otherwise collapses onto the cursor.  The cursor
    /// keeps the sticky column the vertical motion produced.
    pub fn move_down<L: LineLength>(&self, line_lengths: &L, n: usize, extend: bool) -> (r: Selection)
        requires
            sel_valid(*self),
            lengths_bounded(line_lengths.lengths()),
            line_lengths.lengths().len() == 0
                || (sel_cursor(*self).line as int) < line_lengths.lengths().len(),
        ensures
            r == sel_move_down_spec(line_lengths.lengths(), *self, n as int, extend),
            sel_valid(r),
            moved_within_side(*self, r),
    {
        let cursor = *self.cursor();
        let p = cursor.move_down(line_lengths, n);
        if extend {
            Selection::new(*self.anchor(), p)
        } else {
            Selection::new(p.remove_sticky(), p)
        }
    }
}

/// A collapsing horizontal motion leaves no sticky column behind: whatever
/// sticky memo a prior vertical motion left on the cursor, a non-extending
/// move to the left or to the right produces a selection with no sticky
/// column on either endpoint.
pub proof fn lemma_horizontal_collapse_clears_sticky(ll: Seq<usize>, s: Selection, n: int)
    ensures
        sel_move_left_spec(ll, s, n, false).from.sticky_column is None,
        sel_move_left_spec(ll, s, n, false).to.sticky_column is None,
        sel_move_right_spec(ll, s, n, false).from.sticky_column is None,
        sel_move_right_spec(ll, s, n, false).to.sticky_column is None,
{
}

} // verus!
