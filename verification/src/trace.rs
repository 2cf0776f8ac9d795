//! Sequences of operations: the calls of a driver as commands, the state they
//! lead to, and the way of each queued process through them.

use vstd::prelude::*;
use crate::event::{Event, ExecutionOutcome, Transition};
use crate::model::{Place, SchedulerState};
use crate::process::Process;

verus! {

/// One call of the driver.
pub enum Command {
    /// Admit a process.
    Add(Process),
    /// Execute the front of a level.
    Execute(usize),
    /// Advance the clock.
    AdvanceTime(u32),
    /// Boost every process.
    Boost,
    /// Take the events emitted so far.
    TakeEvents,
}

impl Command {
    /// Whether the scheduler accepts the command: a process to admit must
    /// have a total work that fits its counter.
    pub open spec fn admissible(self) -> bool {
        self matches Command::Add(p) ==> p.total_work() <= u32::MAX
    }

    /// Whether the command admits a process with the given identifier.
    pub open spec fn admits(self, id: u32) -> bool {
        self matches Command::Add(p) && p.id == id
    }
}

/// Whether the scheduler accepts every command of the sequence.
pub open spec fn all_admissible(commands: Seq<Command>) -> bool {
    forall|k: int| 0 <= k < commands.len() ==> (#[trigger] commands[k]).admissible()
}

/// Whether no command of the sequence admits a process with the given
/// identifier.
pub open spec fn none_admits(commands: Seq<Command>, id: u32) -> bool {
    forall|k: int| 0 <= k < commands.len() ==> !(#[trigger] commands[k]).admits(id)
}

impl SchedulerState {
    /// The state after one command.
    pub open spec fn step(self, command: Command) -> SchedulerState {
        match command {
            Command::Add(p) => self.after_add(p),
            Command::Execute(level) => self.after_execute(level),
            Command::AdvanceTime(delta) => self.after_advance(delta),
            Command::Boost => self.after_boost(),
            Command::TakeEvents => self.without_events(),
        }
    }

    /// The events that one command emits.
    pub open spec fn emitted(self, command: Command) -> Seq<Event> {
        match command {
            Command::Execute(level) => self.execute_events(level),
            Command::AdvanceTime(delta) => if self.advance_boosts(delta) {
                self.boost_events()
            } else {
                Seq::empty()
            },
            Command::Boost => self.boost_events(),
            _ => Seq::empty(),
        }
    }

    /// The state after a sequence of commands, carried out first to last.
    pub open spec fn run(self, commands: Seq<Command>) -> SchedulerState
        decreases commands.len(),
    {
        if commands.len() == 0 {
            self
        } else {
            self.run(commands.drop_last()).step(commands.last())
        }
    }

    /// The events that a sequence of commands emits, oldest first.
    pub open spec fn run_events(self, commands: Seq<Command>) -> Seq<Event>
        decreases commands.len(),
    {
        if commands.len() == 0 {
            Seq::empty()
        } else {
            self.run_events(commands.drop_last()) + self.run(commands.drop_last()).emitted(
                commands.last(),
            )
        }
    }

    /// Whether the command boosts the processes of this state.
    pub open spec fn step_boosts(self, command: Command) -> bool {
        match command {
            Command::Boost => true,
            Command::AdvanceTime(delta) => self.advance_boosts(delta),
            _ => false,
        }
    }

    /// Whether no command of the sequence, carried out from this state,
    /// boosts.
    pub open spec fn boost_free(self, commands: Seq<Command>) -> bool
        decreases commands.len(),
    {
        if commands.len() == 0 {
            true
        } else {
            &&& self.boost_free(commands.drop_last())
            &&& !self.run(commands.drop_last()).step_boosts(commands.last())
        }
    }

    /// Whether every process that the sequence admits, carried out from this
    /// state, comes with an identifier that no queued process has at that
    /// moment.
    pub open spec fn admits_fresh(self, commands: Seq<Command>) -> bool
        decreases commands.len(),
    {
        if commands.len() == 0 {
            true
        } else {
            &&& self.admits_fresh(commands.drop_last())
            &&& commands.last() matches Command::Add(p) ==> !self.run(commands.drop_last()).has_id(
                p.id,
            )
        }
    }

    /// Whether the command executes the process queued at `place` without
    /// completing it: its quantum expires.
    pub open spec fn step_expires(self, command: Command, place: Place) -> bool {
        &&& command matches Command::Execute(level)
        &&& place == Place::front(level as int)
        &&& self.execute_outcome(level) matches ExecutionOutcome::Ran {
            transition: Transition::Requeued(_),
            ..
        }
    }

    /// Where the process queued at `place` stands after the command, or
    /// `None` if the command completed it.
    pub open spec fn place_after_step(self, command: Command, place: Place) -> Option<Place> {
        match command {
            Command::Add(_) => Some(place),
            Command::Execute(level) => self.place_after_execute(level, place),
            Command::AdvanceTime(delta) => Some(self.place_after_advance(delta, place)),
            Command::Boost => Some(self.place_after_boost(place)),
            Command::TakeEvents => Some(place),
        }
    }

    /// Where the process queued at `place` stands after the sequence of
    /// commands, or `None` if one of them completed it.
    pub open spec fn place_after_run(self, commands: Seq<Command>, place: Place) -> Option<Place>
        decreases commands.len(),
    {
        if commands.len() == 0 {
            Some(place)
        } else {
            match self.place_after_run(commands.drop_last(), place) {
                Some(mid) => self.run(commands.drop_last()).place_after_step(commands.last(), mid),
                None => None,
            }
        }
    }

    /// How many quanta of the process queued at `place` expire in the course
    /// of the sequence of commands.
    pub open spec fn expiries(self, commands: Seq<Command>, place: Place) -> nat
        decreases commands.len(),
    {
        if commands.len() == 0 {
            0
        } else {
            let earlier = self.expiries(commands.drop_last(), place);
            match self.place_after_run(commands.drop_last(), place) {
                Some(mid) => if self.run(commands.drop_last()).step_expires(commands.last(), mid) {
                    earlier + 1
                } else {
                    earlier
                },
                None => earlier,
            }
        }
    }

    /// Every admissible command keeps the invariant, the number of levels and
    /// the quantum table, and never turns the clock back.
    pub proof fn lemma_step_valid(self, command: Command)
        requires
            self.valid(),
            command.admissible(),
        ensures
            self.step(command).valid(),
            self.step(command).quanta == self.quanta,
            self.step(command).queues.len() == self.queues.len(),
            self.step(command).clock >= self.clock,
    {
        match command {
            Command::Add(p) => self.lemma_add(p),
            Command::Execute(level) => self.lemma_execute_valid(level),
            Command::AdvanceTime(delta) => self.lemma_advance(delta),
            Command::Boost => self.lemma_boost_valid(),
            Command::TakeEvents => {},
        }
    }

    /// Every sequence of admissible commands keeps the invariant, the number
    /// of levels and the quantum table, and never turns the clock back.
    pub proof fn lemma_run_valid(self, commands: Seq<Command>)
        requires
            self.valid(),
            all_admissible(commands),
        ensures
            self.run(commands).valid(),
            self.run(commands).quanta == self.quanta,
            self.run(commands).queues.len() == self.queues.len(),
            self.run(commands).clock >= self.clock,
        decreases commands.len(),
    {
        if commands.len() > 0 {
            self.lemma_run_valid(commands.drop_last());
            self.run(commands.drop_last()).lemma_step_valid(commands.last());
        }
    }

    /// Taking the events leaves none; every other command keeps the events
    /// there were and puts behind them those that it emits.
    pub proof fn lemma_step_events(self, command: Command)
        requires
            self.valid(),
        ensures
            self.step(command).events == if command is TakeEvents {
                Seq::<Event>::empty()
            } else {
                self.events + self.emitted(command)
            },
    {
        let after = self.step(command);
        match command {
            Command::AdvanceTime(delta) => {
                self.lemma_advance(delta);
                assert(after.events =~= self.events + self.emitted(command));
            },
            _ => {
                assert(command !is TakeEvents ==> after.events =~= self.events + self.emitted(
                    command,
                ));
            },
        }
    }

    /// For as long as the events are not taken, they are those there were,
    /// followed by those that the commands emitted.
    pub proof fn lemma_run_events(self, commands: Seq<Command>)
        requires
            self.valid(),
            all_admissible(commands),
            forall|k: int| 0 <= k < commands.len() ==> !(#[trigger] commands[k] is TakeEvents),
        ensures
            self.run(commands).events == self.events + self.run_events(commands),
        decreases commands.len(),
    {
        if commands.len() > 0 {
            let earlier = commands.drop_last();
            self.lemma_run_events(earlier);
            self.lemma_run_valid(earlier);
            self.run(earlier).lemma_step_events(commands.last());
        }
        assert(self.run(commands).events =~= self.events + self.run_events(commands));
    }
}

} // verus!
