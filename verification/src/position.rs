//! Definition and movement of [`Position`], a coordinate in a document.

use vstd::prelude::*;

use crate::LineLength;

verus! {

/// Coordinates in a document.
///
/// Ordering over positions is lexicographic on `(line, column)` and ignores
/// the sticky column: see [`pos_lt`].  The sticky column is a memo of the
/// column a vertical motion started from when it had to clip onto a shorter
/// line; a later vertical motion onto a long enough line restores it.
#[derive(Debug, Clone, Copy, PartialEq, Eq, Structural)]
pub struct Position {
    /// Line index, starting at zero.
    pub line: usize,
    /// Column index inside the line, starting at zero.
    pub column: usize,
    /// Column remembered from before a vertical motion clipped this position
    /// onto a shorter line.
    pub sticky_column: Option<usize>,
}

/// Strict order on positions: lexicographic on `(line, column)`, ignoring the
/// sticky column.
pub open spec fn pos_lt(a: Position, b: Position) -> bool {
    a.line < b.line || (a.line == b.line && a.column < b.column)
}

/// Equality ignoring the sticky column.
pub open spec fn pos_weak_eq(a: Position, b: Position) -> bool {
    a.line == b.line && a.column == b.column
}

/// Non-strict order on positions, ignoring the sticky column.
pub open spec fn pos_le(a: Position, b: Position) -> bool {
    pos_lt(a, b) || pos_weak_eq(a, b)
}

impl Position {
    /// Creates a new position with `line` and `column` and no sticky column.
    pub fn new(line: usize, column: usize) -> (r: Position)
        ensures
            r == (Position { line, column, sticky_column: None }),
    {
        Position { line, column, sticky_column: None }
    }

    /// Creates a new position with `line`, `column` and `sticky_column`.
    pub fn new_with_sticky(line: usize, column: usize, sticky_column: usize) -> (r: Position)
        ensures
            r == (Position { line, column, sticky_column: Some(sticky_column) }),
    {
        Position { line, column, sticky_column: Some(sticky_column) }
    }

    /// Check for equality ignoring the sticky column.
    pub fn weak_eq(&self, other: &Position) -> (r: bool)
        ensures
            r == pos_weak_eq(*self, *other),
    {
        self.line == other.line && self.column == other.column
    }

    /// Returns the same position without a sticky column.
    pub fn remove_sticky(self) -> (r: Position)
        ensures
            r == (Position { sticky_column: None, ..self }),
    {
        Position { line: self.line, column: self.column, sticky_column: None }
    }

    /// Strict order test: `self` comes before `other`, ignoring sticky.
    pub fn precedes(&self, other: &Position) -> (r: bool)
        ensures
            r == pos_lt(*self, *other),
    {
        self.line < other.line || (self.line == other.line && self.column < other.column)
    }

    /// Get the `line` coordinate.
    pub fn line(&self) -> (r: usize)
        ensures
            r == self.line,
    {
        self.line
    }

    /// Get the `column` coordinate.
    pub fn column(&self) -> (r: usize)
        ensures
            r == self.column,
    {
        self.column
    }
}

impl PartialOrd for Position {
    /// Orders positions lexicographically by `(line, column)`, ignoring the
    /// sticky column.
    fn partial_cmp(&self, other: &Self) -> (r: Option<core::cmp::Ordering>) {
        if self.line < other.line {
            Some(core::cmp::Ordering::Less)
        } else if self.line > other.line {
            Some(core::cmp::Ordering::Greater)
        } else if self.column < other.column {
            Some(core::cmp::Ordering::Less)
        } else if self.column > other.column {
            Some(core::cmp::Ordering::Greater)
        } else {
            Some(core::cmp::Ordering::Equal)
        }
    }
}

impl vstd::std_specs::cmp::PartialOrdSpecImpl for Position {
    open spec fn obeys_partial_cmp_spec() -> bool {
        true
    }

    open spec fn partial_cmp_spec(&self, other: &Self) -> Option<core::cmp::Ordering> {
        if pos_lt(*self, *other) {
            Some(core::cmp::Ordering::Less)
        } else if pos_lt(*other, *self) {
            Some(core::cmp::Ordering::Greater)
        } else {
            Some(core::cmp::Ordering::Equal)
        }
    }
}

/// Every line length leaves room for the fictitious "after newline" slot
/// (`length + 1` must fit in a `usize`).
pub open spec fn lengths_bounded(ll: Seq<usize>) -> bool {
    forall|l: int| 0 <= l < ll.len() ==> ll[l] < usize::MAX
}

/// Where a leftward motion of `n` steps from `(line, col)` ends, as a
/// `(line, column)` pair.  Crossing the start of a line moves to the previous
/// line's "after newline" slot (`length + 1`); at the buffer start the motion
/// clamps to `(0, 0)`.
pub open spec fn left_target(ll: Seq<usize>, line: int, col: int, n: int) -> (int, int)
    decreases line, n,
{
    if n <= 0 {
        (line, col)
    } else if col < n {
        if line <= 0 {
            (0, 0)
        } else {
            left_target(ll, line - 1, ll[line - 1] + 1, n - col)
        }
    } else {
        (line, col - n)
    }
}

/// Where a rightward motion of `n` steps from `(line, col)` ends, as a
/// `(line, column)` pair.  Passing the end of a line consumes one extra step
/// for the newline and lands on column 0 of the next line; on the last line
/// the motion clamps at the line's length.
pub open spec fn right_target(ll: Seq<usize>, line: int, col: int, n: int) -> (int, int)
    decreases ll.len() - line, n,
{
    if n <= 0 {
        (line, col)
    } else {
        let len = ll[line] as int;
        if col <= len && n <= len - col {
            (line, col + n)
        } else if line + 1 < ll.len() {
            right_target(ll, line + 1, 0, n - (len + 1 - col))
        } else {
            (line, len)
        }
    }
}

/// The line a motion of `n` steps up from `p` lands on: clamped at line 0.
pub open spec fn up_line(p: Position, n: int) -> int {
    if n >= p.line { 0 } else { p.line - n }
}

/// The line a motion of `n` steps down from `p` lands on: clamped at the last
/// line of the buffer.
pub open spec fn down_line(ll: Seq<usize>, p: Position, n: int) -> int {
    if p.line + n >= ll.len() { ll.len() - 1 } else { p.line + n }
}

/// Column reconciliation after a vertical motion of `p` onto `new_line`.
/// If the target line is long enough for the current column, the sticky
/// column (when present) replaces the column and is cleared; otherwise the
/// column clips to the line's length and the prior column is memoized as
/// the sticky column.
pub open spec fn vertical_target(ll: Seq<usize>, p: Position, new_line: int) -> Position {
    let len = ll[new_line] as int;
    if len >= p.column {
        match p.sticky_column {
            Some(s) => Position { line: new_line as usize, column: s, sticky_column: None },
            None => Position {
                line: new_line as usize,
                column: p.column,
                sticky_column: None,
            },
        }
    } else {
        Position {
            line: new_line as usize,
            column: ll[new_line],
            sticky_column: Some(p.column),
        }
    }
}

/// Where an upward motion of `n` lines from `p` ends.
pub open spec fn move_up_spec(ll: Seq<usize>, p: Position, n: int) -> Position {
    vertical_target(ll, p, up_line(p, n))
}

/// Where a downward motion of `n` lines from `p` ends.
pub open spec fn move_down_spec(ll: Seq<usize>, p: Position, n: int) -> Position {
    vertical_target(ll, p, down_line(ll, p, n))
}

/// On a buffer with no lines every motion returns `(0, 0)`; this names that
/// rule once for the four cursor motions below.
pub open spec fn clamped_to_origin(c: Position) -> Position {
    Position { line: 0, column: 0, sticky_column: c.sticky_column }
}

/// Where [`Position::move_left`] moves the cursor `c`.
pub open spec fn moved_cursor_left(ll: Seq<usize>, c: Position, n: int) -> Position {
    if ll.len() == 0 {
        clamped_to_origin(c)
    } else {
        let t = left_target(ll, c.line as int, c.column as int, n);
        Position { line: t.0 as usize, column: t.1 as usize, sticky_column: c.sticky_column }
    }
}

/// Where [`Position::move_right`] moves the cursor `c`.
pub open spec fn moved_cursor_right(ll: Seq<usize>, c: Position, n: int) -> Position {
    if ll.len() == 0 {
        clamped_to_origin(c)
    } else {
        let t = right_target(ll, c.line as int, c.column as int, n);
        Position { line: t.0 as usize, column: t.1 as usize, sticky_column: c.sticky_column }
    }
}

/// Where [`Position::move_up`] moves the cursor `c`.
pub open spec fn moved_cursor_up(ll: Seq<usize>, c: Position, n: int) -> Position {
    if ll.len() == 0 {
        clamped_to_origin(c)
    } else {
        move_up_spec(ll, c, n)
    }
}

/// Where [`Position::move_down`] moves the cursor `c`.
pub open spec fn moved_cursor_down(ll: Seq<usize>, c: Position, n: int) -> Position {
    if ll.len() == 0 {
        clamped_to_origin(c)
    } else {
        move_down_spec(ll, c, n)
    }
}

impl Position {
    /// Moves the position `n` columns to the left, crossing line boundaries
    /// and clamping at the buffer beginning.  The sticky column is unchanged.
    pub fn move_left<L: LineLength>(&self, line_lengths: &L, n: usize) -> (r: Position)
        requires
            lengths_bounded(line_lengths.lengths()),
            line_lengths.lengths().len() == 0 || (self.line as int) < line_lengths.lengths().len(),
        ensures
            r == moved_cursor_left(line_lengths.lengths(), *self, n as int),
    {
        let ghost ll = line_lengths.lengths();
        if line_lengths.lines_count() == 0 {
            return Position { line: 0, column: 0, sticky_column: self.sticky_column };
        }
        let mut line: usize = self.line;
        let mut col: usize = self.column;
        let mut n_left: usize = n;
        while n_left > 0
            invariant
                ll == line_lengths.lengths(),
                lengths_bounded(ll),
                0 < ll.len(),
                line < ll.len(),
                left_target(ll, self.line as int, self.column as int, n as int)
                    == left_target(ll, line as int, col as int, n_left as int),
            decreases line, n_left,
        {
            if col < n_left {
                if line == 0 {
                    col = 0;
                    n_left = 0;
                } else {
                    n_left = n_left - col;
                    line = line - 1;
                    let len = line_lengths.get_len(line).unwrap();
                    col = len + 1;
                }
            } else {
                col = col - n_left;
                n_left = 0;
            }
        }
        Position { line, column: col, sticky_column: self.sticky_column }
    }

    /// Moves the position `n` columns to the right, crossing line boundaries
    /// and clamping at the end of the last line.  The sticky column is
    /// unchanged.
    pub fn move_right<L: LineLength>(&self, line_lengths: &L, n: usize) -> (r: Position)
        requires
            lengths_bounded(line_lengths.lengths()),
            line_lengths.lengths().len() == 0 || (self.line as int) < line_lengths.lengths().len(),
            self.column + n <= usize::MAX,
        ensures
            r == moved_cursor_right(line_lengths.lengths(), *self, n as int),
    {
        let ghost ll = line_lengths.lengths();
        let lc = line_lengths.lines_count();
        if lc == 0 {
            return Position { line: 0, column: 0, sticky_column: self.sticky_column };
        }
        let mut line: usize = self.line;
        let mut col: usize = self.column;
        let mut n_left: usize = n;
        while n_left > 0
            invariant
                ll == line_lengths.lengths(),
                lengths_bounded(ll),
                lc == ll.len(),
                0 < ll.len(),
                line < ll.len(),
                col + n_left <= usize::MAX,
                right_target(ll, self.line as int, self.column as int, n as int)
                    == right_target(ll, line as int, col as int, n_left as int),
            decreases ll.len() - line, n_left,
        {
            let len = line_lengths.get_len(line).unwrap();
            if col <= len && n_left <= len - col {
                col = col + n_left;
                n_left = 0;
            } else if line + 1 < lc {
                if col >= len + 1 {
                    n_left = n_left + (col - (len + 1));
                } else {
                    n_left = n_left - ((len + 1) - col);
                }
                line = line + 1;
                col = 0;
            } else {
                col = len;
                n_left = 0;
            }
        }
        Position { line, column: col, sticky_column: self.sticky_column }
    }

    /// Moves the position `n` lines up, clamping at line 0, and reconciles
    /// the column with the target line's length (see [`vertical_target`]).
    pub fn move_up<L: LineLength>(&self, line_lengths: &L, n: usize) -> (r: Position)
        requires
            line_lengths.lengths().len() == 0 || (self.line as int) < line_lengths.lengths().len(),
        ensures
            r == moved_cursor_up(line_lengths.lengths(), *self, n as int),
    {
        if line_lengths.lines_count() == 0 {
            return Position { line: 0, column: 0, sticky_column: self.sticky_column };
        }
        let new_line: usize = if n >= self.line {
            0
        } else {
            self.line - n
        };
        let len = line_lengths.get_len(new_line).unwrap();
        if len >= self.column {
            match self.sticky_column {
                Some(s) => Position { line: new_line, column: s, sticky_column: None },
                None => Position { line: new_line, column: self.column, sticky_column: None },
            }
        } else {
            Position { line: new_line, column: len, sticky_column: Some(self.column) }
        }
    }

    /// Moves the position `n` lines down, clamping at the last line, and
    /// reconciles the column with the target line's length (see
    /// [`vertical_target`]).
    pub fn move_down<L: LineLength>(&self, line_lengths: &L, n: usize) -> (r: Position)
        requires
            line_lengths.lengths().len() == 0 || (self.line as int) < line_lengths.lengths().len(),
        ensures
            r == moved_cursor_down(line_lengths.lengths(), *self, n as int),
    {
        let lc = line_lengths.lines_count();
        if lc == 0 {
            return Position { line: 0, column: 0, sticky_column: self.sticky_column };
        }
        let new_line: usize = if n >= lc - 1 - self.line {
            lc - 1
        } else {
            self.line + n
        };
        let len = line_lengths.get_len(new_line).unwrap();
        if len >= self.column {
            match self.sticky_column {
                Some(s) => Position { line: new_line, column: s, sticky_column: None },
                None => Position { line: new_line, column: self.column, sticky_column: None },
            }
        } else {
            Position { line: new_line, column: len, sticky_column: Some(self.column) }
        }
    }
}

/// Vertical motions are inverse to each other: moving a position down `n`
/// lines and then up `n` lines returns to the same spot, whenever neither
/// motion clips the column (both the starting line and the target line are at
/// least as long as the column) and the motion stays inside the buffer.
///
/// A sticky column is excluded: a position such as `(0, 5)` with sticky
/// column 10 moves down onto column 10, not back onto column 5.
pub proof fn lemma_vertical_round_trip(ll: Seq<usize>, p: Position, n: int)
    requires
        0 <= n,
        p.line + n <= usize::MAX,
        p.sticky_column is None,
        p.line + n < ll.len(),
        p.column <= ll[p.line + n],
        p.column <= ll[p.line as int],
    ensures
        pos_weak_eq(move_up_spec(ll, move_down_spec(ll, p, n), n), p),
{
    let q = move_down_spec(ll, p, n);
    assert(down_line(ll, p, n) == p.line + n);
    assert(q == (Position {
        line: (p.line + n) as usize,
        column: p.column,
        sticky_column: None::<usize>,
    }));
    assert(up_line(q, n) == p.line as int);
    assert(move_up_spec(ll, q, n) == (Position {
        line: p.line,
        column: p.column,
        sticky_column: None::<usize>,
    }));
}

} // verus!
