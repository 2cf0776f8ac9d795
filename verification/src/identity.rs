//! Identifiers: none comes into the queues but with a process that is
//! admitted, distinct identifiers stay distinct, and the identifier of a
//! completed process is not seen again.

use vstd::prelude::*;
use crate::event::{ExecutionOutcome, Transition};
use crate::model::{promotion_event, Place, SchedulerState};
use crate::process::Process;
use crate::seq_facts::lemma_flatten_all;
use crate::trace::{all_admissible, none_admits, Command};

verus! {

impl SchedulerState {
    /// A command brings no identifier into the queues but that of the process
    /// it admits, and emits no event about a process that is not queued.
    pub proof fn lemma_step_ids(self, command: Command, id: u32)
        requires
            self.valid(),
            command.admissible(),
            !self.has_id(id),
            !command.admits(id),
        ensures
            !self.step(command).has_id(id),
            forall|k: int|
                0 <= k < self.emitted(command).len() ==> !(#[trigger] self.emitted(command)[k]).mentions(
                    id,
                ),
    {
        let after = self.step(command);
        assert forall|next: Place| #[trigger] after.holds(next) implies after.at(next).id != id by {
            match command {
                Command::Add(p) => {
                    self.lemma_add(p);
                    if self.holds(next) {
                        assert(self.at(next).id != id);
                    }
                },
                Command::Execute(level) => {
                    self.lemma_execute_origin(level, next);
                    let place = choose|place: Place| #[trigger]
                        self.holds(place) && self.place_after_execute(level, place) == Some(next);
                    self.lemma_execute_follows(level, place);
                },
                Command::AdvanceTime(delta) => {
                    self.lemma_advance(delta);
                    if self.advance_boosts(delta) {
                        self.lemma_boost_origin(next);
                        let place = choose|place: Place| #[trigger]
                            self.holds(place) && self.place_after_boost(place) == next;
                        self.lemma_boost_follows(place);
                    } else {
                        assert(self.holds(next));
                    }
                },
                Command::Boost => {
                    self.lemma_boost_origin(next);
                    let place = choose|place: Place| #[trigger]
                        self.holds(place) && self.place_after_boost(place) == next;
                    self.lemma_boost_follows(place);
                },
                Command::TakeEvents => {
                    assert(self.holds(next));
                },
            }
        }
        assert forall|k: int| 0 <= k < self.emitted(command).len() implies !(
        #[trigger] self.emitted(command)[k]).mentions(id) by {
            match command {
                Command::Execute(level) => {
                    let front = Place::front(level as int);
                    assert(self.holds(front));
                },
                Command::AdvanceTime(delta) => {
                    self.lemma_boost_events(id, k);
                },
                Command::Boost => {
                    self.lemma_boost_events(id, k);
                },
                _ => {},
            }
        }
    }

    /// The events that a boost emits speak of queued processes only.
    pub proof fn lemma_boost_events(self, id: u32, k: int)
        requires
            self.valid(),
            !self.has_id(id),
            0 <= k < self.boost_events().len(),
        ensures
            !self.boost_events()[k].mentions(id),
    {
        let lower = self.queues.subrange(1, self.queues.len() as int);
        assert forall|l: int, i: int| 0 <= l < lower.len() && 0 <= i < lower[l].len() implies (
        #[trigger] lower[l][i]).id != id by {
            let place = Place { level: l + 1, index: i };
            assert(self.holds(place));
            assert(self.at(place) == lower[l][i]);
        }
        lemma_flatten_all(lower, |p: Process| p.id != id);
        if k > 0 {
            assert(self.boost_events()[k] == promotion_event(self.lower_levels()[k - 1]));
        }
    }

    /// A sequence of commands brings no identifier into the queues but those
    /// of the processes it admits, and emits no event about a process that is
    /// neither queued nor admitted.
    pub proof fn lemma_run_ids(self, commands: Seq<Command>, id: u32)
        requires
            self.valid(),
            all_admissible(commands),
            !self.has_id(id),
            none_admits(commands, id),
        ensures
            !self.run(commands).has_id(id),
            forall|k: int|
                0 <= k < self.run_events(commands).len() ==> !(#[trigger] self.run_events(
                    commands,
                )[k]).mentions(id),
        decreases commands.len(),
    {
        if commands.len() > 0 {
            let earlier = commands.drop_last();
            let last = self.run(earlier).emitted(commands.last());
            self.lemma_run_ids(earlier, id);
            self.lemma_run_valid(earlier);
            self.run(earlier).lemma_step_ids(commands.last(), id);
            assert forall|k: int| 0 <= k < self.run_events(commands).len() implies !(
            #[trigger] self.run_events(commands)[k]).mentions(id) by {
                let before = self.run_events(earlier).len();
                if k < before {
                    assert(self.run_events(commands)[k] == self.run_events(earlier)[k]);
                } else {
                    assert(self.run_events(commands)[k] == last[k - before]);
                }
            }
        }
    }

    /// Once a process is completed, the scheduler has nothing more to do with
    /// it: whatever commands follow, as long as none of them admits a process
    /// under the same identifier, no process with that identifier is queued
    /// after them, and none of the events they emit speaks of it.
    ///
    /// This is said of a scheduler in which no two queued processes share an
    /// identifier: of two that do, one remains when the other is completed.
    pub proof fn lemma_completed_never_reappears(self, level: usize, commands: Seq<Command>)
        requires
            self.valid(),
            self.distinct_ids(),
            self.execute_outcome(level) matches ExecutionOutcome::Ran {
                transition: Transition::Completed,
                ..
            },
            all_admissible(commands),
            none_admits(commands, self.queues[level as int][0].id),
        ensures
            ({
                let id = self.queues[level as int][0].id;
                let completed = self.after_execute(level);
                &&& self.execute_outcome(level)->item_id == id
                &&& !completed.has_id(id)
                &&& !completed.run(commands).has_id(id)
                &&& forall|k: int|
                    0 <= k < completed.run_events(commands).len() ==> !(
                    #[trigger] completed.run_events(commands)[k]).mentions(id)
            }),
    {
        let id = self.queues[level as int][0].id;
        let front = Place::front(level as int);
        let completed = self.after_execute(level);
        self.lemma_execute_valid(level);
        assert forall|next: Place| #[trigger] completed.holds(next) implies completed.at(next).id
            != id by {
            self.lemma_execute_origin(level, next);
            let place = choose|place: Place| #[trigger]
                self.holds(place) && self.place_after_execute(level, place) == Some(next);
            self.lemma_execute_follows(level, place);
            assert(self.holds(front));
            assert(place != front);
        }
        completed.lemma_run_ids(commands, id);
    }

    /// Identifiers stay distinct across a command, provided that a process
    /// that is admitted comes with an identifier that no queued process has.
    pub proof fn lemma_step_distinct_ids(self, command: Command)
        requires
            self.valid(),
            command.admissible(),
            self.distinct_ids(),
            command matches Command::Add(p) ==> !self.has_id(p.id),
        ensures
            self.step(command).distinct_ids(),
    {
        let after = self.step(command);
        assert forall|a: Place, b: Place|
            after.holds(a) && after.holds(b) && after.at(a).id == after.at(b).id implies a == b by {
            match command {
                Command::Add(p) => {
                    self.lemma_add(p);
                    if self.holds(a) && !self.holds(b) {
                        assert(self.at(a).id == p.id);
                    }
                    if self.holds(b) && !self.holds(a) {
                        assert(self.at(b).id == p.id);
                    }
                },
                Command::Execute(level) => {
                    self.lemma_execute_origin(level, a);
                    self.lemma_execute_origin(level, b);
                    let from_a = choose|place: Place| #[trigger]
                        self.holds(place) && self.place_after_execute(level, place) == Some(a);
                    let from_b = choose|place: Place| #[trigger]
                        self.holds(place) && self.place_after_execute(level, place) == Some(b);
                    self.lemma_execute_follows(level, from_a);
                    self.lemma_execute_follows(level, from_b);
                },
                Command::AdvanceTime(delta) => {
                    self.lemma_advance(delta);
                    if self.advance_boosts(delta) {
                        self.lemma_boost_distinct_ids(a, b);
                    } else {
                        assert(self.holds(a) && self.holds(b));
                        assert(self.at(a) == after.at(a) && self.at(b) == after.at(b));
                    }
                },
                Command::Boost => {
                    self.lemma_boost_distinct_ids(a, b);
                },
                Command::TakeEvents => {
                    assert(self.holds(a) && self.holds(b));
                    assert(self.at(a) == after.at(a) && self.at(b) == after.at(b));
                },
            }
        }
    }

    /// After a boost of a state with distinct identifiers, two places that
    /// hold the same identifier are one place.
    proof fn lemma_boost_distinct_ids(self, a: Place, b: Place)
        requires
            self.valid(),
            self.distinct_ids(),
            self.after_boost().holds(a),
            self.after_boost().holds(b),
            self.after_boost().at(a).id == self.after_boost().at(b).id,
        ensures
            a == b,
    {
        self.lemma_boost_origin(a);
        self.lemma_boost_origin(b);
        let from_a = choose|place: Place| #[trigger]
            self.holds(place) && self.place_after_boost(place) == a;
        let from_b = choose|place: Place| #[trigger]
            self.holds(place) && self.place_after_boost(place) == b;
        self.lemma_boost_follows(from_a);
        self.lemma_boost_follows(from_b);
    }

    /// Identifiers stay distinct through any sequence of commands that admits
    /// processes under fresh identifiers only.
    pub proof fn lemma_run_distinct_ids(self, commands: Seq<Command>)
        requires
            self.valid(),
            all_admissible(commands),
            self.distinct_ids(),
            self.admits_fresh(commands),
        ensures
            self.run(commands).distinct_ids(),
        decreases commands.len(),
    {
        if commands.len() > 0 {
            self.lemma_run_distinct_ids(commands.drop_last());
            self.lemma_run_valid(commands.drop_last());
            self.run(commands.drop_last()).lemma_step_distinct_ids(commands.last());
        }
    }
}

} // verus!
