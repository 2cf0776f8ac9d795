//! The unit of schedulable work.

use vstd::prelude::*;

verus! {

/// A schedulable unit of work.
///
/// A process is created by the driver and handed to the scheduler, which from
/// then on is the only one to change it.
#[derive(Clone, Copy, Debug, PartialEq, Eq, Structural)]
pub struct Process {
    /// Identifier, assigned by the driver and never reused.
    pub id: u32,
    /// Priority level the process is queued at; 0 is the highest priority.
    pub priority: usize,
    /// Work that is still to be done.
    pub remaining_time: u32,
    /// Work that has been done so far.
    pub total_executed_time: u32,
}

impl Process {
    /// All the work of the process: what is done and what is left.
    pub open spec fn total_work(self) -> int {
        self.remaining_time + self.total_executed_time
    }
}

} // verus!
