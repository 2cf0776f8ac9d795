//! The life of a queued process through any sequence of operations: it keeps
//! its identifier and its total work, and sinks one level per expired quantum
//! until a boost lifts it.

use vstd::prelude::*;
use crate::event::{ExecutionOutcome, Transition};
use crate::model::{clamped_level, Place, SchedulerState};
use crate::process::Process;
use crate::trace::{all_admissible, Command};

verus! {

impl SchedulerState {
    /// Across one command a queued process keeps its identifier and its total
    /// work, and loses none of the work it has done. If the command boosts, the
    /// process then stands at level 0. If not, it stands one level further
    /// down when its quantum expired, at the same level when it did not, and
    /// never below the lowest level. It leaves the queues only by being
    /// executed to completion.
    pub proof fn lemma_step_follows(self, command: Command, place: Place)
        requires
            self.valid(),
            command.admissible(),
            self.holds(place),
        ensures
            match self.place_after_step(command, place) {
                Some(next) => {
                    let after = self.step(command);
                    let sunk: int = if self.step_expires(command, place) {
                        1
                    } else {
                        0
                    };
                    &&& after.holds(next)
                    &&& after.at(next).id == self.at(place).id
                    &&& after.at(next).total_work() == self.at(place).total_work()
                    &&& after.at(next).total_executed_time >= self.at(place).total_executed_time
                    &&& self.step_boosts(command) ==> next.level == 0
                    &&& !self.step_boosts(command) ==> next.level == vstd::math::min(
                        place.level + sunk,
                        self.queues.len() - 1,
                    )
                },
                None => {
                    &&& command matches Command::Execute(level)
                    &&& place == Place::front(level as int)
                    &&& self.execute_outcome(level) matches ExecutionOutcome::Ran {
                        transition: Transition::Completed,
                        ..
                    }
                },
            },
    {
        match command {
            Command::Add(p) => {
                self.lemma_add(p);
            },
            Command::Execute(level) => {
                self.lemma_execute_follows(level, place);
                if self.execute_outcome(level) is Ran {
                    self.lemma_quantum_bound(level);
                }
            },
            Command::AdvanceTime(delta) => {
                self.lemma_advance(delta);
                if self.advance_boosts(delta) {
                    self.lemma_boost_follows(place);
                }
            },
            Command::Boost => {
                self.lemma_boost_follows(place);
            },
            Command::TakeEvents => {},
        }
    }

    /// For as long as a process is queued, through any sequence of commands,
    /// it keeps its identifier, and the work it has left and the work it has
    /// done add up to what they added up to at the start.
    pub proof fn lemma_work_conserved(self, commands: Seq<Command>, place: Place)
        requires
            self.valid(),
            all_admissible(commands),
            self.holds(place),
        ensures
            self.place_after_run(commands, place) matches Some(next) ==> {
                let after = self.run(commands);
                &&& after.holds(next)
                &&& after.at(next).id == self.at(place).id
                &&& after.at(next).total_work() == self.at(place).total_work()
                &&& after.at(next).total_executed_time >= self.at(place).total_executed_time
            },
        decreases commands.len(),
    {
        if commands.len() > 0 {
            let earlier = commands.drop_last();
            self.lemma_work_conserved(earlier, place);
            self.lemma_run_valid(earlier);
            if let Some(mid) = self.place_after_run(earlier, place) {
                self.run(earlier).lemma_step_follows(commands.last(), mid);
            }
        }
    }

    /// From its admission on, through any sequence of commands, for as long
    /// as it is queued, a process keeps the identifier it came with, and the
    /// work it has left and the work it has done add up to what it came with.
    pub proof fn lemma_work_conserved_since_admission(self, p: Process, commands: Seq<Command>)
        requires
            self.valid(),
            p.total_work() <= u32::MAX,
            all_admissible(commands),
        ensures
            ({
                let admitted = self.after_add(p);
                let level = clamped_level(p.priority, self.queues.len());
                let tail = self.tail(level as int);
                &&& admitted.holds(tail)
                &&& admitted.at(tail) == Process { priority: level, ..p }
                &&& admitted.place_after_run(commands, tail) matches Some(next) ==> {
                    let after = admitted.run(commands);
                    &&& after.holds(next)
                    &&& after.at(next).id == p.id
                    &&& after.at(next).remaining_time + after.at(next).total_executed_time
                        == p.remaining_time + p.total_executed_time
                    &&& p.total_executed_time == 0 ==> after.at(next).remaining_time + after.at(
                        next,
                    ).total_executed_time == p.remaining_time
                }
            }),
    {
        let admitted = self.after_add(p);
        let level = clamped_level(p.priority, self.queues.len());
        let tail = self.tail(level as int);
        self.lemma_add(p);
        admitted.lemma_work_conserved(commands, tail);
    }

    /// Through any sequence of commands of which none boosts, a process that
    /// is still queued stands as many levels further down as quanta of it
    /// expired, or at the lowest level if that is nearer: never higher than
    /// it stood.
    pub proof fn lemma_demotion_monotone(self, commands: Seq<Command>, place: Place)
        requires
            self.valid(),
            all_admissible(commands),
            self.holds(place),
            self.boost_free(commands),
        ensures
            self.place_after_run(commands, place) matches Some(next) ==> {
                &&& next.level == vstd::math::min(
                    place.level + self.expiries(commands, place),
                    self.queues.len() - 1,
                )
                &&& place.level <= next.level < self.queues.len()
            },
        decreases commands.len(),
    {
        if commands.len() > 0 {
            let earlier = commands.drop_last();
            self.lemma_demotion_monotone(earlier, place);
            self.lemma_run_valid(earlier);
            self.lemma_work_conserved(earlier, place);
            if let Some(mid) = self.place_after_run(earlier, place) {
                self.run(earlier).lemma_step_follows(commands.last(), mid);
            }
        }
    }
}

} // verus!
