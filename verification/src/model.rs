//! The mathematical model of the scheduler: its state as sequences, and each
//! operation as a function from state to state.

use vstd::prelude::*;
use crate::event::{Event, ExecutionOutcome, Transition};
use crate::process::Process;

verus! {

/// The clock values at which advancing the time boosts every process are the
/// multiples of this interval.
pub const BOOST_INTERVAL: u32 = 100;

/// The level a process is admitted to when it asks for `level` and the
/// scheduler has `num_levels` levels: the level itself, or the lowest one
/// when there is no such level.
pub open spec fn clamped_level(level: usize, num_levels: nat) -> usize {
    if level >= num_levels {
        (num_levels - 1) as usize
    } else {
        level
    }
}

/// The work a process performs in one execution under the given quantum.
pub open spec fn run_amount(p: Process, quantum: u32) -> u32 {
    if p.remaining_time <= quantum {
        p.remaining_time
    } else {
        quantum
    }
}

/// The process after it performed `ran` units of work and was queued at `level`.
pub open spec fn after_run(p: Process, ran: u32, level: usize) -> Process {
    Process {
        id: p.id,
        priority: level,
        remaining_time: (p.remaining_time - ran) as u32,
        total_executed_time: (p.total_executed_time + ran) as u32,
    }
}

/// The process as it stands at the highest priority.
pub open spec fn promoted(p: Process) -> Process {
    Process { priority: 0, ..p }
}

/// The event that reports the promotion of a process to level 0.
pub open spec fn promotion_event(p: Process) -> Event {
    Event::ItemMoved { id: p.id, from: p.priority, to: 0, remaining: p.remaining_time }
}

/// The processes of a sequence, each promoted.
pub open spec fn promoted_all(ps: Seq<Process>) -> Seq<Process> {
    ps.map_values(|p: Process| promoted(p))
}

/// The events that report the promotion of each process of a sequence, in
/// the order of the sequence.
pub open spec fn promotion_events(ps: Seq<Process>) -> Seq<Event> {
    ps.map_values(|p: Process| promotion_event(p))
}

/// A place in the queues: a level, and an index counted from the front of
/// that level's queue.
pub struct Place {
    pub level: int,
    pub index: int,
}

impl Place {
    /// The place at the front of `level`.
    pub open spec fn front(level: int) -> Place {
        Place { level, index: 0 }
    }

    /// Whether this place is served before `other` when the levels are served
    /// from level 0 down and each level front to back.
    pub open spec fn ahead_of(self, other: Place) -> bool {
        self.level < other.level || (self.level == other.level && self.index < other.index)
    }
}

/// The state of a scheduler.
pub struct SchedulerState {
    /// One queue per level, highest priority first; the front of a queue is
    /// its index 0.
    pub queues: Seq<Seq<Process>>,
    /// The quantum of each level.
    pub quanta: Seq<u32>,
    /// The logical clock.
    pub clock: nat,
    /// Every event emitted and not yet taken, oldest first.
    pub events: Seq<Event>,
}

impl SchedulerState {
    /// The state of a fresh scheduler with the given quantum table.
    pub open spec fn initial(quanta: Seq<u32>) -> SchedulerState {
        SchedulerState {
            queues: Seq::new(quanta.len(), |l: int| Seq::<Process>::empty()),
            quanta,
            clock: 0,
            events: Seq::empty(),
        }
    }

    /// The invariant of the scheduler: there is at least one level, and no
    /// more than a machine integer can number; each level has a positive
    /// quantum; each queued process records the level of its queue, and its
    /// total work fits the machine integer that counts it.
    pub open spec fn valid(self) -> bool {
        &&& 1 <= self.queues.len() <= usize::MAX
        &&& self.quanta.len() == self.queues.len()
        &&& forall|l: int| 0 <= l < self.quanta.len() ==> #[trigger] self.quanta[l] > 0
        &&& forall|l: int, i: int|
            0 <= l < self.queues.len() && 0 <= i < self.queues[l].len() ==> {
                &&& (#[trigger] self.queues[l][i]).priority == l
                &&& self.queues[l][i].total_work() <= u32::MAX
            }
    }

    /// Whether a process is queued at `place`.
    pub open spec fn holds(self, place: Place) -> bool {
        0 <= place.level < self.queues.len() && 0 <= place.index < self.queues[place.level].len()
    }

    /// The process queued at `place`.
    pub open spec fn at(self, place: Place) -> Process {
        self.queues[place.level][place.index]
    }

    /// The place behind the last process of `level`: where the next process
    /// that joins the level will stand.
    pub open spec fn tail(self, level: int) -> Place {
        Place { level, index: self.queues[level].len() as int }
    }

    /// Whether a process with the given identifier is queued.
    pub open spec fn has_id(self, id: u32) -> bool {
        exists|place: Place| self.holds(place) && self.at(place).id == id
    }

    /// Whether no two queued processes share an identifier.
    pub open spec fn distinct_ids(self) -> bool {
        forall|a: Place, b: Place|
            self.holds(a) && self.holds(b) && self.at(a).id == self.at(b).id ==> a == b
    }

    /// How many processes are queued at the levels above `level`.
    pub open spec fn count_above(self, level: int) -> nat {
        self.queues.take(level).flatten().len()
    }

    /// The state after the admission of `p`: the process stands at the tail of
    /// the level it asked for, or of the lowest level if there is no such level.
    pub open spec fn after_add(self, p: Process) -> SchedulerState {
        let level = clamped_level(p.priority, self.queues.len());
        SchedulerState {
            queues: self.queues.update(
                level as int,
                self.queues[level as int].push(Process { priority: level, ..p }),
            ),
            ..self
        }
    }

    /// The state after its events were handed out.
    pub open spec fn without_events(self) -> SchedulerState {
        SchedulerState { events: Seq::empty(), ..self }
    }

    /// The level below `level`, or `level` itself when it is the lowest.
    pub open spec fn next_level(self, level: usize) -> usize {
        if level + 1 < self.queues.len() {
            (level + 1) as usize
        } else {
            level
        }
    }

    /// What an execution at `level` reports.
    ///
    /// The front process of the level runs for its remaining work or the
    /// level's quantum, whichever is smaller. It is completed when no work is
    /// left, and requeued one level down (at the lowest level: in place)
    /// otherwise.
    pub open spec fn execute_outcome(self, level: usize) -> ExecutionOutcome {
        if level >= self.queues.len() {
            ExecutionOutcome::InvalidLevelIndex
        } else if self.queues[level as int].len() == 0 {
            ExecutionOutcome::Idle
        } else {
            let p = self.queues[level as int][0];
            let ran = run_amount(p, self.quanta[level as int]);
            ExecutionOutcome::Ran {
                item_id: p.id,
                ran_amount: ran,
                transition: if ran == p.remaining_time {
                    Transition::Completed
                } else {
                    Transition::Requeued(self.next_level(level))
                },
            }
        }
    }

    /// The events that an execution at `level` emits: none unless a process
    /// ran; if one did, first that it ran, then what became of it.
    pub open spec fn execute_events(self, level: usize) -> Seq<Event> {
        match self.execute_outcome(level) {
            ExecutionOutcome::Ran { item_id, ran_amount, transition } => {
                let p = self.queues[level as int][0];
                seq![
                    Event::ItemExecuted { id: item_id, ran: ran_amount, level },
                    match transition {
                        Transition::Completed => Event::ItemCompleted { id: item_id },
                        Transition::Requeued(to) => Event::ItemMoved {
                            id: item_id,
                            from: level,
                            to,
                            remaining: (p.remaining_time - ran_amount) as u32,
                        },
                    },
                ]
            },
            _ => Seq::empty(),
        }
    }

    /// The state after an execution at `level`.
    ///
    /// Nothing changes unless a process ran. If one did, it left the front of
    /// its level, the clock advanced by the work performed, and the process
    /// is gone when completed, or stands at the tail of the level it was
    /// requeued to.
    pub open spec fn after_execute(self, level: usize) -> SchedulerState {
        match self.execute_outcome(level) {
            ExecutionOutcome::Ran { ran_amount, transition, .. } => {
                let p = self.queues[level as int][0];
                let rest = self.queues.update(level as int, self.queues[level as int].drop_first());
                SchedulerState {
                    queues: match transition {
                        Transition::Completed => rest,
                        Transition::Requeued(to) => rest.update(
                            to as int,
                            rest[to as int].push(after_run(p, ran_amount, to)),
                        ),
                    },
                    clock: (self.clock + ran_amount) as nat,
                    events: self.events + self.execute_events(level),
                    ..self
                }
            },
            _ => self,
        }
    }

    /// The processes below level 0, in the order in which a boost moves them:
    /// level by level from level 1 down, each level front to back.
    pub open spec fn lower_levels(self) -> Seq<Process> {
        self.queues.subrange(1, self.queues.len() as int).flatten()
    }

    /// The events that a boost emits: first that it takes place, then each
    /// promotion in the order of the moves.
    pub open spec fn boost_events(self) -> Seq<Event> {
        seq![Event::BoostTriggered] + promotion_events(self.lower_levels())
    }

    /// The state after a priority boost.
    ///
    /// Level 0 holds what it held, in the same order, followed by the
    /// processes of the lower levels, promoted. Every other level is empty.
    pub open spec fn after_boost(self) -> SchedulerState {
        let lower = self.lower_levels();
        SchedulerState {
            queues: Seq::new(
                self.queues.len(),
                |l: int|
                    if l == 0 {
                        self.queues[0] + promoted_all(lower)
                    } else {
                        Seq::empty()
                    },
            ),
            events: self.events + self.boost_events(),
            ..self
        }
    }

    /// Whether advancing the clock by `delta` brings it to a multiple of the
    /// boost interval.
    pub open spec fn advance_boosts(self, delta: u32) -> bool {
        (self.clock + delta) % (BOOST_INTERVAL as int) == 0
    }

    /// The state after the clock advanced by `delta`: a boost takes place when
    /// the new clock value is a multiple of the boost interval, and only then.
    pub open spec fn after_advance(self, delta: u32) -> SchedulerState {
        let ticked = SchedulerState { clock: (self.clock + delta) as nat, ..self };
        if self.advance_boosts(delta) {
            ticked.after_boost()
        } else {
            ticked
        }
    }
}

} // verus!
