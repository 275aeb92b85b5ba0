//! Multi-selection storage for a modal text editor.
//!
//! The crate models the cursor state of an editor in which the user holds a
//! set of disjoint selections over a text buffer.  A [`SelectionStorage`]
//! keeps the selections sorted and non-overlapping, and every mutation
//! (insertion, deletion, movement) reports what it changed through a
//! [`SelectionDeltas`] log.  The buffer itself stays outside the crate and is
//! consulted only through the read-only [`LineLength`] capability.

pub mod deltas;
pub mod metrics;
pub mod position;
pub mod selection;
pub mod storage;

pub use deltas::{SelectionDelta, SelectionDeltas};
pub use metrics::LineLengths;
pub use position::Position;
pub use selection::{Selection, SelectionDirection};
pub use storage::{MovementDirection, SelectionCommandsBatch, SelectionStorage};

use vstd::prelude::*;

verus! {

/// Source of line lengths for a buffer.
///
/// The buffer is modelled as a sequence of line lengths, exposed to
/// specifications through [`LineLength::lengths`].
pub trait LineLength {
    /// The buffer as a sequence of line lengths, for specification purposes.
    spec fn lengths(&self) -> Seq<usize>;

    /// Returns the length of the line with index `line`, or `None` if the
    /// line is out of the buffer's bounds.
    ///
    /// A newline is not included in the count, so a line holding "test" has
    /// length 4 wherever it stands in the buffer.
    fn get_len(&self, line: usize) -> (r: Option<usize>)
        ensures
            r == (if line < self.lengths().len() {
                Some(self.lengths()[line as int])
            } else {
                None::<usize>
            }),
    ;

    /// Returns the total number of lines.
    fn lines_count(&self) -> (r: usize)
        ensures
            r == self.lengths().len(),
    ;
}

} // verus!
