//! The progress tally: how many records of the requested total are done.
//! Purely observational; the pipeline's outcome never depends on it.

use vstd::prelude::*;

verus! {

/// Completed work against a fixed total.
#[derive(Debug, Clone, Copy, PartialEq, Eq, Structural)]
pub struct ProgressTally {
    /// The requested number of records.
    pub total: usize,
    /// How many records are fully processed.
    pub done: usize,
}

impl ProgressTally {
    /// A tally never counts more work than was requested.
    pub open spec fn wf(self) -> bool {
        self.done <= self.total
    }

    /// A fresh tally for `total` records, none done yet.
    pub fn new(total: usize) -> (r: ProgressTally)
        ensures
            r.wf(),
            r.total == total,
            r.done == 0,
    {
        ProgressTally { total, done: 0 }
    }

    /// Counts one more record as fully processed.
    pub fn advance(&mut self)
        requires
            old(self).wf(),
            old(self).done < old(self).total,
        ensures
            final (self).wf(),
            final (self).total == old(self).total,
            final (self).done == old(self).done + 1,
    {
        self.done = self.done + 1;
    }

    /// How many records remain.
    pub fn remaining(&self) -> (r: usize)
        requires
            self.wf(),
        ensures
            r == self.total - self.done,
    {
        self.total - self.done
    }

    /// Whether every requested record is done.
    pub fn is_complete(&self) -> (r: bool)
        ensures
            r == (self.done == self.total),
    {
        self.done == self.total
    }
}

} // verus!
