//! The scan progress counter: how many files the background scan has
//! processed out of the total it counted up front. The rendering side
//! reads it every frame to draw the progress bar.

use vstd::prelude::*;

verus! {

/// A pair of counters: files scanned so far and the total to scan. The
/// total is finalized by a counting pass before any parsing starts.
pub struct Progress {
    pub scanned: u32,
    pub total: u32,
}

impl Progress {
    /// A fresh counter; the total starts at one so that a ratio of the
    /// two is well defined before counting finishes.
    pub fn new() -> (p: Progress)
        ensures
            p.scanned == 0,
            p.total == 1,
    {
        Progress { scanned: 0, total: 1 }
    }

    /// Publishes the total number of files the walk counted.
    pub fn set_total(&mut self, total: u32)
        ensures
            final(self).total == total,
            final(self).scanned == old(self).scanned,
    {
        self.total = total;
    }

    /// Records one more scanned file.
    pub fn increment(&mut self)
        requires
            old(self).scanned < u32::MAX,
        ensures
            final(self).scanned == old(self).scanned + 1,
            final(self).total == old(self).total,
    {
        self.scanned = self.scanned + 1;
    }

    /// The current counts: scanned first, total second.
    pub fn get(&self) -> (r: (u32, u32))
        ensures
            r.0 == self.scanned,
            r.1 == self.total,
    {
        (self.scanned, self.total)
    }
}

} // verus!
