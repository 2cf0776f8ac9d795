//! What the scheduler reports to its driver: the outcome of one execution,
//! the events that its state changes emit, and the configuration error.

use vstd::prelude::*;

verus! {

/// Where a process went after it ran.
#[derive(Clone, Copy, Debug, PartialEq, Eq, Structural)]
pub enum Transition {
    /// The process has work left and waits at the tail of the given level.
    Requeued(usize),
    /// The process has no work left and was discarded.
    Completed,
}

/// The result of asking the scheduler to execute the front of one level.
#[derive(Clone, Copy, Debug, PartialEq, Eq, Structural)]
pub enum ExecutionOutcome {
    /// The level exists and holds no process. Nothing changed.
    Idle,
    /// There is no level with that index. Nothing changed.
    InvalidLevelIndex,
    /// The front process of the level ran.
    Ran {
        /// Identifier of the process that ran.
        item_id: u32,
        /// Work it performed: its remaining work or the level's quantum,
        /// whichever is smaller.
        ran_amount: u32,
        /// Where the process went afterwards.
        transition: Transition,
    },
}

/// One state change of the scheduler, as seen by an observer.
#[derive(Clone, Copy, Debug, PartialEq, Eq, Structural)]
pub enum Event {
    /// A process ran for `ran` units of work at the front of `level`.
    ItemExecuted { id: u32, ran: u32, level: usize },
    /// A process was appended to the tail of level `to`, coming from level
    /// `from`, with `remaining` work left. `from == to` is the round-robin
    /// at the lowest level.
    ItemMoved { id: u32, from: usize, to: usize, remaining: u32 },
    /// A process finished its work and left the scheduler.
    ItemCompleted { id: u32 },
    /// A priority boost started.
    BoostTriggered,
}

impl Event {
    /// Whether the event is about the process with the given identifier.
    pub open spec fn mentions(self, id: u32) -> bool {
        match self {
            Event::ItemExecuted { id: e, .. } => e == id,
            Event::ItemMoved { id: e, .. } => e == id,
            Event::ItemCompleted { id: e } => e == id,
            Event::BoostTriggered => false,
        }
    }
}

/// Why a scheduler could not be constructed.
#[derive(Clone, Copy, Debug, PartialEq, Eq, Structural)]
pub enum ConfigError {
    /// A scheduler needs at least one level.
    NoLevels,
    /// The quantum table does not hold one quantum per level.
    QuantaLengthMismatch { expected: usize, found: usize },
    /// The quantum of `level` is zero; it is the first such level.
    ZeroQuantum { level: usize },
}

} // verus!
