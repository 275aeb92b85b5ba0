//! A simple [`LineLength`] implementation backed by a vector of lengths.

use vstd::prelude::*;

use crate::LineLength;

verus! {

/// Line lengths held in memory, line by line.
///
/// This is the crate's own realisation of the [`LineLength`] capability; a
/// real editor would implement the trait on its buffer instead.
#[derive(Debug)]
pub struct LineLengths {
    lengths: Vec<usize>,
}

impl LineLengths {
    /// A buffer of exactly one empty line.
    pub fn new() -> (r: LineLengths)
        ensures
            r.lengths() == seq![0usize],
    {
        let mut lengths: Vec<usize> = Vec::new();
        lengths.push(0);
        proof {
            assert(lengths@ =~= seq![0usize]);
        }
        LineLengths { lengths }
    }

    /// Sets the length of `line`, growing the buffer with empty lines up to
    /// `line` if it is past the current end.
    pub fn set(&mut self, line: usize, length: usize)
        requires
            line < usize::MAX,
        ensures
            line < old(self).lengths().len() ==> final(self).lengths() == old(
                self,
            ).lengths().update(line as int, length),
            line >= old(self).lengths().len() ==> {
                &&& final(self).lengths().len() == line + 1
                &&& (forall|j: int|
                    0 <= j < old(self).lengths().len() ==> final(self).lengths()[j] == old(
                        self,
                    ).lengths()[j])
                &&& (forall|j: int|
                    old(self).lengths().len() <= j < line ==> final(self).lengths()[j] == 0)
                &&& final(self).lengths()[line as int] == length
            },
    {
        if line < self.lengths.len() {
            self.lengths.set(line, length);
        } else {
            while self.lengths.len() < line
                invariant
                    old(self).lengths().len() <= self.lengths@.len() <= line,
                    forall|j: int|
                        0 <= j < old(self).lengths().len() ==> self.lengths@[j] == old(
                            self,
                        ).lengths()[j],
                    forall|j: int|
                        old(self).lengths().len() <= j < self.lengths@.len() ==> self.lengths@[j]
                            == 0,
                decreases line - self.lengths@.len(),
            {
                self.lengths.push(0);
            }
            self.lengths.push(length);
        }
    }
}

impl LineLength for LineLengths {
    closed spec fn lengths(&self) -> Seq<usize> {
        self.lengths@
    }

    fn get_len(&self, line: usize) -> (r: Option<usize>) {
        if line < self.lengths.len() {
            Some(self.lengths[line])
        } else {
            None
        }
    }

    fn lines_count(&self) -> (r: usize) {
        self.lengths.len()
    }
}

} // verus!
