//! A plain progress counter: the bookkeeping of a progress bar, counting
//! steps toward a capacity. Writing the bar to a terminal is the
//! display layer's concern, not part of the counting.

use vstd::prelude::*;

verus! {

/// Errors originating from the progress bar: the writer it renders to
/// failed.
#[derive(Clone, Copy, Debug, PartialEq, Eq, Structural)]
pub enum Error {
    /// Failed to write to the attached output.
    Writer,
}

/// A progress bar's state: the current progress and the capacity it
/// counts toward. Progress never exceeds the capacity.
#[derive(Clone, Copy, Debug, PartialEq, Eq, Structural)]
pub struct ProgressBar {
    /// The current progress.
    pub size: u64,
    /// The maximum amount to count to.
    pub capacity: u64,
}

impl ProgressBar {
    /// Constructor for the ProgressBar that initializes it to zero
    /// progress toward the given capacity.
    pub fn new(capacity: u64) -> (r: ProgressBar)
        ensures
            r.size == 0,
            r.capacity == capacity,
    {
        ProgressBar { size: 0, capacity }
    }

    /// Updates the progress bar with a single step.
    pub fn step(&mut self) -> (r: Result<(), Error>)
        requires
            old(self).size <= old(self).capacity,
        ensures
            final(self).capacity == old(self).capacity,
            final(self).size == (if old(self).size + 1 > old(self).capacity {
                old(self).capacity
            } else {
                (old(self).size + 1) as u64
            }),
            r is Ok,
    {
        self.update(1)
    }

    /// Updates the progress bar by the given number of steps, saturating
    /// at the capacity.
    pub fn update(&mut self, n: u64) -> (r: Result<(), Error>)
        requires
            old(self).size <= old(self).capacity,
        ensures
            final(self).capacity == old(self).capacity,
            final(self).size == (if old(self).size + n > old(self).capacity {
                old(self).capacity
            } else {
                (old(self).size + n) as u64
            }),
            r is Ok,
    {
        if n > self.capacity - self.size {
            self.size = self.capacity;
        } else {
            self.size = self.size + n;
        }
        self.render()
    }

    /// Resets the progress bar to the start.
    pub fn clear(&mut self) -> (r: Result<(), Error>)
        ensures
            final(self).capacity == old(self).capacity,
            final(self).size == 0,
            r is Ok,
    {
        self.size = 0;
        self.render()
    }

    /// Renders the progress bar; the display layer decides what that
    /// means, and the plain counter has nothing to write.
    pub fn render(&self) -> (r: Result<(), Error>)
        ensures
            r is Ok,
    {
        Ok(())
    }
}

} // verus!
