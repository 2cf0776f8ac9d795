//! The scheduler.

use vstd::prelude::*;
use crate::event::{ConfigError, Event, ExecutionOutcome, Transition};
use crate::model::{
    promoted, promoted_all, promotion_event, promotion_events, SchedulerState, BOOST_INTERVAL,
};
use crate::process::Process;

verus! {

/// A multi-level feedback queue scheduler.
///
/// It owns one FIFO queue per priority level, a quantum for each level and a
/// logical clock. Nothing happens in it but through the calls of its driver.
pub struct MLFQ {
    queues: Vec<Vec<Process>>,
    time_quanta: Vec<u32>,
    current_time: u32,
    events: Vec<Event>,
}

impl View for MLFQ {
    type V = SchedulerState;

    closed spec fn view(&self) -> SchedulerState {
        SchedulerState {
            queues: Seq::new(self.queues@.len(), |l: int| self.queues@[l]@),
            quanta: self.time_quanta@,
            clock: self.current_time as nat,
            events: self.events@,
        }
    }
}

impl MLFQ {
    /// The invariant that every scheduler built by `new` satisfies and every
    /// operation keeps.
    pub open spec fn wf(&self) -> bool {
        self@.valid() && self@.clock <= u32::MAX
    }

    /// Builds a scheduler with `num_levels` empty levels, the clock at zero.
    ///
    /// Fails when there is no level, when `time_quanta` does not hold one
    /// quantum per level, or when some quantum is zero, in that order.
    pub fn new(num_levels: usize, time_quanta: Vec<u32>) -> (r: Result<MLFQ, ConfigError>)
        ensures
            match r {
                Ok(s) => {
                    &&& num_levels >= 1
                    &&& time_quanta@.len() == num_levels
                    &&& forall|l: int| 0 <= l < num_levels ==> time_quanta@[l] > 0
                    &&& s.wf()
                    &&& s@ == SchedulerState::initial(time_quanta@)
                },
                Err(ConfigError::NoLevels) => num_levels == 0,
                Err(ConfigError::QuantaLengthMismatch { expected, found }) => {
                    &&& num_levels != 0
                    &&& expected == num_levels
                    &&& found == time_quanta@.len()
                    &&& found != expected
                },
                Err(ConfigError::ZeroQuantum { level }) => {
                    &&& num_levels != 0
                    &&& time_quanta@.len() == num_levels
                    &&& level < num_levels
                    &&& time_quanta@[level as int] == 0
                    &&& forall|l: int| 0 <= l < level ==> time_quanta@[l] > 0
                },
            },
    {
        if num_levels == 0 {
            return Err(ConfigError::NoLevels);
        }
        if time_quanta.len() != num_levels {
            return Err(
                ConfigError::QuantaLengthMismatch { expected: num_levels, found: time_quanta.len() },
            );
        }
        let mut queues: Vec<Vec<Process>> = Vec::new();
        let mut level: usize = 0;
        while level < num_levels
            invariant
                level <= num_levels,
                time_quanta@.len() == num_levels,
                queues@.len() == level,
                forall|l: int| 0 <= l < level ==> time_quanta@[l] > 0,
                forall|l: int| 0 <= l < level ==> (#[trigger] queues@[l])@ == Seq::<Process>::empty(),
            decreases num_levels - level,
        {
            if time_quanta[level] == 0 {
                return Err(ConfigError::ZeroQuantum { level });
            }
            queues.push(Vec::new());
            level += 1;
        }
        let s = MLFQ { queues, time_quanta, current_time: 0, events: Vec::new() };
        assert(s@.queues =~= SchedulerState::initial(time_quanta@).queues);
        Ok(s)
    }

    /// Admits `process` at the tail of the level it asks for, or of the lowest
    /// level when there is no such level.
    ///
    /// The work of the process, done and left, must fit the counter of the
    /// work done.
    pub fn add_process(&mut self, process: Process)
        requires
            old(self).wf(),
            process.total_work() <= u32::MAX,
        ensures
            final(self).wf(),
            final(self)@ == old(self)@.after_add(process),
    {
        let mut process = process;
        if process.priority >= self.queues.len() {
            process.priority = self.queues.len() - 1;
        }
        self.queues[process.priority].push(process);
        assert(self@.queues =~= old(self)@.after_add(process).queues);
    }

    /// Executes the front process of level `queue_index` for one quantum at
    /// most, and says what happened.
    ///
    /// The clock advances by the work performed, so that work must fit in what
    /// is left of the clock's range.
    pub fn execute_process(&mut self, queue_index: usize) -> (outcome: ExecutionOutcome)
        requires
            old(self).wf(),
            old(self)@.after_execute(queue_index).clock <= u32::MAX,
        ensures
            final(self).wf(),
            outcome == old(self)@.execute_outcome(queue_index),
            final(self)@ == old(self)@.after_execute(queue_index),
    {
        if queue_index >= self.queues.len() {
            return ExecutionOutcome::InvalidLevelIndex;
        }
        if self.queues[queue_index].is_empty() {
            return ExecutionOutcome::Idle;
        }
        let mut process = self.queues[queue_index].remove(0);
        let time_quantum: u32 = self.time_quanta[queue_index];
        let actual_runtime: u32 = if process.remaining_time <= time_quantum {
            process.remaining_time
        } else {
            time_quantum
        };
        process.remaining_time -= actual_runtime;
        process.total_executed_time += actual_runtime;
        self.current_time += actual_runtime;
        self.events.push(
            Event::ItemExecuted { id: process.id, ran: actual_runtime, level: queue_index },
        );
        let transition = if process.remaining_time > 0 {
            let target: usize = if queue_index < self.queues.len() - 1 {
                queue_index + 1
            } else {
                queue_index
            };
            process.priority = target;
            self.queues[target].push(process);
            self.events.push(
                Event::ItemMoved {
                    id: process.id,
                    from: queue_index,
                    to: target,
                    remaining: process.remaining_time,
                },
            );
            Transition::Requeued(target)
        } else {
            self.events.push(Event::ItemCompleted { id: process.id });
            Transition::Completed
        };
        assert(self@.queues =~= old(self)@.after_execute(queue_index).queues);
        assert(self@.events =~= old(self)@.after_execute(queue_index).events);
        ExecutionOutcome::Ran { item_id: process.id, ran_amount: actual_runtime, transition }
    }

    /// Moves every process to level 0: the processes of level 0 stay ahead,
    /// the others follow level by level, each level in the order it had.
    pub fn priority_boost(&mut self)
        requires
            old(self).wf(),
        ensures
            final(self).wf(),
            final(self)@ == old(self)@.after_boost(),
    {
        let ghost before = self@;
        self.events.push(Event::BoostTriggered);
        let num_levels: usize = self.queues.len();
        let mut level: usize = 1;
        while level < num_levels
            invariant
                before.valid(),
                1 <= level <= num_levels,
                num_levels == before.queues.len(),
                self.queues@.len() == num_levels,
                self.time_quanta@ == before.quanta,
                self.current_time == before.clock,
                forall|l: int| level <= l < num_levels ==> (#[trigger] self.queues@[l])@ == before.queues[l],
                forall|l: int| 1 <= l < level ==> (#[trigger] self.queues@[l])@.len() == 0,
                self.queues@[0]@ == before.queues[0] + promoted_all(
                    before.queues.subrange(1, level as int).flatten(),
                ),
                self.events@ == before.events.push(Event::BoostTriggered) + promotion_events(
                    before.queues.subrange(1, level as int).flatten(),
                ),
            decreases num_levels - level,
        {
            let ghost done = before.queues.subrange(1, level as int).flatten();
            let mut drained: Vec<Process> = Vec::new();
            std::mem::swap(&mut drained, &mut self.queues[level]);
            let mut index: usize = 0;
            while index < drained.len()
                invariant
                    before.valid(),
                    1 <= level < num_levels,
                    num_levels == before.queues.len(),
                    index <= drained.len(),
                    drained@ == before.queues[level as int],
                    done == before.queues.subrange(1, level as int).flatten(),
                    self.queues@.len() == num_levels,
                    self.time_quanta@ == before.quanta,
                    self.current_time == before.clock,
                    forall|l: int|
                        level < l < num_levels ==> (#[trigger] self.queues@[l])@ == before.queues[l],
                    forall|l: int| 1 <= l <= level ==> (#[trigger] self.queues@[l])@.len() == 0,
                    self.queues@[0]@ == before.queues[0] + promoted_all(
                        done + drained@.take(index as int),
                    ),
                    self.events@ == before.events.push(Event::BoostTriggered) + promotion_events(
                        done + drained@.take(index as int),
                    ),
                decreases drained.len() - index,
            {
                let mut process = drained[index];
                self.events.push(
                    Event::ItemMoved {
                        id: process.id,
                        from: process.priority,
                        to: 0,
                        remaining: process.remaining_time,
                    },
                );
                process.priority = 0;
                self.queues[0].push(process);
                proof {
                    assert(drained@.take(index + 1) =~= drained@.take(index as int).push(
                        drained@[index as int],
                    ));
                    assert(promoted_all(done + drained@.take(index + 1)) =~= promoted_all(
                        done + drained@.take(index as int),
                    ).push(promoted(drained@[index as int])));
                    assert(promotion_events(done + drained@.take(index + 1)) =~= promotion_events(
                        done + drained@.take(index as int),
                    ).push(promotion_event(drained@[index as int])));
                }
                index += 1;
            }
            proof {
                assert(drained@.take(index as int) =~= drained@);
                assert(before.queues.subrange(1, level + 1) =~= before.queues.subrange(
                    1,
                    level as int,
                ).push(before.queues[level as int]));
                before.queues.subrange(1, level as int).lemma_flatten_push(
                    before.queues[level as int],
                );
            }
            level += 1;
        }
        proof {
            assert(self@.queues =~~= before.after_boost().queues);
            assert(self@.events =~= before.after_boost().events);
            before.lemma_lower_levels_valid();
        }
    }

    /// Advances the clock by `elapsed_time`, and boosts every process when the
    /// clock then stands at a multiple of the boost interval.
    ///
    /// The clock must be able to hold the new time.
    pub fn update_time(&mut self, elapsed_time: u32)
        requires
            old(self).wf(),
            old(self)@.clock + elapsed_time <= u32::MAX,
        ensures
            final(self).wf(),
            final(self)@ == old(self)@.after_advance(elapsed_time),
    {
        self.current_time += elapsed_time;
        if self.current_time % BOOST_INTERVAL == 0 {
            self.priority_boost();
        }
    }

    /// The number of priority levels.
    pub fn num_levels(&self) -> (n: usize)
        ensures
            n == self@.queues.len(),
    {
        self.queues.len()
    }

    /// The logical clock: the work performed and the time advanced so far.
    pub fn current_time(&self) -> (t: u32)
        ensures
            t == self@.clock,
    {
        self.current_time
    }

    /// The quantum of `level`, if there is such a level.
    pub fn time_quantum(&self, level: usize) -> (q: Option<u32>)
        ensures
            q == if level < self@.quanta.len() {
                Some(self@.quanta[level as int])
            } else {
                None
            },
    {
        if level < self.time_quanta.len() {
            Some(self.time_quanta[level])
        } else {
            None
        }
    }

    /// The queue of `level`, front first, if there is such a level.
    pub fn queue(&self, level: usize) -> (q: Option<&Vec<Process>>)
        ensures
            match q {
                Some(queue) => level < self@.queues.len() && queue@ == self@.queues[level as int],
                None => level >= self@.queues.len(),
            },
    {
        if level < self.queues.len() {
            Some(&self.queues[level])
        } else {
            None
        }
    }

    /// The work that an execution at `queue_index` would perform now, or
    /// `None` if no process would run.
    pub fn pending_run(&self, queue_index: usize) -> (ran: Option<u32>)
        requires
            self.wf(),
        ensures
            ran == match self@.execute_outcome(queue_index) {
                ExecutionOutcome::Ran { ran_amount, .. } => Some(ran_amount),
                _ => None,
            },
    {
        if queue_index >= self.queues.len() || self.queues[queue_index].is_empty() {
            return None;
        }
        let remaining_time: u32 = self.queues[queue_index][0].remaining_time;
        let time_quantum: u32 = self.time_quanta[queue_index];
        if remaining_time <= time_quantum {
            Some(remaining_time)
        } else {
            Some(time_quantum)
        }
    }

    /// Hands out the events emitted since the last call, oldest first.
    pub fn take_events(&mut self) -> (events: Vec<Event>)
        ensures
            events@ == old(self)@.events,
            final(self)@ == old(self)@.without_events(),
            old(self).wf() ==> final(self).wf(),
    {
        let mut events: Vec<Event> = Vec::new();
        std::mem::swap(&mut events, &mut self.events);
        events
    }
}

} // verus!
