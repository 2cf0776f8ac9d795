//! What holds of every single operation: the invariant is kept, and each
//! queued process can be followed from the state before to the state after.

use vstd::prelude::*;
use crate::event::{ExecutionOutcome, Transition};
use crate::model::{clamped_level, promoted, promoted_all, Place, SchedulerState};
use crate::process::Process;
use crate::seq_facts::{
    lemma_flatten_all, lemma_flatten_index, lemma_flatten_locate, lemma_flatten_take_grows,
    lemma_flatten_take_next,
};

verus! {

impl SchedulerState {
    /// Where the process queued at `place` stands after an execution at
    /// `level`, or `None` if that execution completed it.
    pub open spec fn place_after_execute(self, level: usize, place: Place) -> Option<Place> {
        match self.execute_outcome(level) {
            ExecutionOutcome::Ran { transition, .. } => {
                if place.level != level {
                    Some(place)
                } else if place.index != 0 {
                    Some(Place { level: place.level, index: place.index - 1 })
                } else {
                    match transition {
                        Transition::Completed => None,
                        Transition::Requeued(to) => Some(
                            Place {
                                level: to as int,
                                index: self.after_execute(level).queues[to as int].len() - 1,
                            },
                        ),
                    }
                }
            },
            _ => Some(place),
        }
    }

    /// Where the process queued at `place` stands after a boost: in level 0,
    /// behind every process that stood at a level above it or ahead of it in
    /// its own level.
    pub open spec fn place_after_boost(self, place: Place) -> Place {
        Place { level: 0, index: self.count_above(place.level) + place.index }
    }

    /// Where the process queued at `place` stands after the clock advanced by
    /// `delta`.
    pub open spec fn place_after_advance(self, delta: u32, place: Place) -> Place {
        if self.advance_boosts(delta) {
            self.place_after_boost(place)
        } else {
            place
        }
    }

    /// Admission keeps the invariant, leaves every queued process where it
    /// is, and puts the new process, its level clamped, at the tail of that
    /// level.
    pub proof fn lemma_add(self, p: Process)
        requires
            self.valid(),
            p.total_work() <= u32::MAX,
        ensures
            self.after_add(p).valid(),
            forall|place: Place| #[trigger]
                self.holds(place) ==> self.after_add(p).holds(place) && self.after_add(p).at(place)
                    == self.at(place),
            ({
                let level = clamped_level(p.priority, self.queues.len());
                let tail = self.tail(level as int);
                &&& level < self.queues.len()
                &&& p.priority < self.queues.len() ==> level == p.priority
                &&& p.priority >= self.queues.len() ==> level == self.queues.len() - 1
                &&& self.after_add(p).holds(tail)
                &&& self.after_add(p).at(tail) == Process { priority: level, ..p }
                &&& forall|place: Place| #[trigger]
                    self.after_add(p).holds(place) ==> self.holds(place) || place == tail
            }),
    {
    }

    /// Execution keeps the invariant, and changes nothing unless a process
    /// ran.
    pub proof fn lemma_execute_valid(self, level: usize)
        requires
            self.valid(),
        ensures
            self.after_execute(level).valid(),
            self.after_execute(level).quanta == self.quanta,
            self.after_execute(level).queues.len() == self.queues.len(),
            !(self.execute_outcome(level) is Ran) ==> self.after_execute(level) == self,
            self.execute_outcome(level) is InvalidLevelIndex <==> level >= self.queues.len(),
            self.execute_outcome(level) is Idle <==> level < self.queues.len()
                && self.queues[level as int].len() == 0,
    {
    }

    /// One execution performs exactly the smaller of the remaining work of the
    /// front process and the quantum of its level: the process has that much
    /// less to do and that much more done, and the clock advances by as much.
    /// The process is completed if that was all its work; otherwise it goes
    /// one level down, or stays at the lowest level.
    pub proof fn lemma_quantum_bound(self, level: usize)
        requires
            self.valid(),
            self.execute_outcome(level) is Ran,
        ensures
            ({
                let front = Place::front(level as int);
                let before = self.at(front);
                let quantum = self.quanta[level as int];
                let after = self.after_execute(level);
                &&& self.holds(front)
                &&& self.execute_outcome(level) matches ExecutionOutcome::Ran {
                    item_id,
                    ran_amount,
                    transition,
                }
                &&& item_id == before.id
                &&& ran_amount == vstd::math::min(before.remaining_time as int, quantum as int)
                &&& after.clock == self.clock + ran_amount
                &&& match transition {
                    Transition::Completed => {
                        &&& before.remaining_time <= quantum
                        &&& self.place_after_execute(level, front) is None
                    },
                    Transition::Requeued(to) => {
                        &&& before.remaining_time > quantum
                        &&& to == vstd::math::min(level + 1, self.queues.len() - 1)
                        &&& self.place_after_execute(level, front) matches Some(place)
                        &&& place.level == to
                        &&& place.index == after.queues[to as int].len() - 1
                        &&& after.holds(place)
                        &&& after.at(place).id == before.id
                        &&& after.at(place).priority == to
                        &&& after.at(place).remaining_time == before.remaining_time - ran_amount
                        &&& after.at(place).remaining_time > 0
                        &&& after.at(place).total_executed_time == before.total_executed_time
                            + ran_amount
                    },
                }
            }),
    {
    }

    /// An execution moves the front process of its level and nothing else:
    /// the processes behind it step one place forward, every other process
    /// stays where it is, and none of them changes.
    pub proof fn lemma_execute_follows(self, level: usize, place: Place)
        requires
            self.valid(),
            self.holds(place),
        ensures
            ({
                let front = Place::front(level as int);
                let after = self.after_execute(level);
                match self.place_after_execute(level, place) {
                    Some(next) => {
                        &&& after.holds(next)
                        &&& after.at(next).id == self.at(place).id
                        &&& after.at(next).total_work() == self.at(place).total_work()
                        &&& after.at(next).total_executed_time >= self.at(place).total_executed_time
                        &&& next.level >= place.level
                        &&& !(self.execute_outcome(level) is Ran && place == front) ==> {
                            &&& after.at(next) == self.at(place)
                            &&& next.level == place.level
                        }
                    },
                    None => {
                        &&& place == front
                        &&& self.execute_outcome(level) matches ExecutionOutcome::Ran {
                            transition: Transition::Completed,
                            ..
                        }
                    },
                }
            }),
    {
    }

    /// After an execution every queued process is one that was queued before.
    pub proof fn lemma_execute_origin(self, level: usize, next: Place)
        requires
            self.valid(),
            self.after_execute(level).holds(next),
        ensures
            exists|place: Place| #[trigger]
                self.holds(place) && self.place_after_execute(level, place) == Some(next),
    {
        let after = self.after_execute(level);
        if self.execute_outcome(level) is Ran {
            let front = Place::front(level as int);
            if next.level == level as int {
                if self.place_after_execute(level, front) == Some(next) {
                    assert(self.holds(front));
                } else {
                    let place = Place { level: next.level, index: next.index + 1 };
                    assert(self.holds(place));
                    assert(self.place_after_execute(level, place) == Some(next));
                }
            } else {
                if self.place_after_execute(level, front) == Some(next) {
                    assert(self.holds(front));
                } else {
                    assert(self.holds(next));
                    assert(self.place_after_execute(level, next) == Some(next));
                }
            }
        } else {
            assert(self.holds(next));
            assert(self.place_after_execute(level, next) == Some(next));
        }
    }

    /// Every process below level 0 of a valid state has a total work that
    /// fits its counter.
    pub proof fn lemma_lower_levels_valid(self)
        requires
            self.valid(),
        ensures
            forall|k: int|
                0 <= k < self.lower_levels().len() ==> (#[trigger] self.lower_levels()[k]).total_work()
                    <= u32::MAX,
    {
        let lower = self.queues.subrange(1, self.queues.len() as int);
        assert forall|l: int, i: int| 0 <= l < lower.len() && 0 <= i < lower[l].len() implies (
        #[trigger] lower[l][i]).total_work() <= u32::MAX by {
            assert(lower[l][i] == self.queues[l + 1][i]);
        }
        lemma_flatten_all(lower, |p: Process| p.total_work() <= u32::MAX);
    }

    /// After a boost, level 0 holds every process that was queued, level by
    /// level and each level front to back, each promoted.
    pub proof fn lemma_boost_level_zero(self)
        requires
            self.valid(),
        ensures
            self.after_boost().queues[0] == promoted_all(self.queues.flatten()),
            self.after_boost().queues[0].len() == self.count_above(self.queues.len() as int),
    {
        let lower = self.queues.subrange(1, self.queues.len() as int);
        assert(lower =~= self.queues.drop_first());
        assert(self.queues.flatten() =~= self.queues[0] + lower.flatten());
        assert forall|i: int| 0 <= i < self.queues[0].len() implies promoted(
            #[trigger] self.queues[0][i],
        ) == self.queues[0][i] by {
            assert(self.queues[0][i].priority == 0);
        }
        assert(self.after_boost().queues[0] =~= promoted_all(self.queues.flatten()));
        assert(self.queues.take(self.queues.len() as int) =~= self.queues);
    }

    /// A boost keeps the invariant, and leaves the clock and the quantum
    /// table as they are. Afterwards every queued process stands at level 0.
    pub proof fn lemma_boost_valid(self)
        requires
            self.valid(),
        ensures
            self.after_boost().valid(),
            self.after_boost().quanta == self.quanta,
            self.after_boost().clock == self.clock,
            self.after_boost().queues.len() == self.queues.len(),
            forall|place: Place| #[trigger]
                self.after_boost().holds(place) ==> place.level == 0 && self.after_boost().at(
                    place,
                ).priority == 0,
    {
        self.lemma_lower_levels_valid();
    }

    /// A boost moves the process queued at `place` to level 0, to the index
    /// that counts the processes of the levels above it and those ahead of it
    /// in its own level, and changes nothing of it but its level. A process of
    /// level 0 stays where it is, as it is.
    pub proof fn lemma_boost_follows(self, place: Place)
        requires
            self.valid(),
            self.holds(place),
        ensures
            ({
                let after = self.after_boost();
                let next = self.place_after_boost(place);
                &&& next.level == 0
                &&& after.holds(next)
                &&& after.at(next) == promoted(self.at(place))
                &&& place.level == 0 ==> next == place && after.at(next) == self.at(place)
            }),
    {
        self.lemma_boost_level_zero();
        lemma_flatten_index(self.queues, place.level, place.index);
        if place.level == 0 {
            assert(self.queues.take(0).flatten().len() == 0);
            assert(self.at(place).priority == 0);
        }
    }

    /// A boost keeps the order of the queue: of two processes, the one at the
    /// higher level, or ahead at the same level, stands ahead afterwards.
    pub proof fn lemma_boost_order(self, a: Place, b: Place)
        requires
            self.valid(),
            self.holds(a),
            self.holds(b),
            a.ahead_of(b),
        ensures
            self.place_after_boost(a).index < self.place_after_boost(b).index,
    {
        if a.level < b.level {
            lemma_flatten_take_next(self.queues, a.level);
            lemma_flatten_take_grows(self.queues, a.level + 1, b.level);
        }
    }

    /// After a boost every queued process is one that was queued before.
    pub proof fn lemma_boost_origin(self, next: Place)
        requires
            self.valid(),
            self.after_boost().holds(next),
        ensures
            exists|place: Place| #[trigger] self.holds(place) && self.place_after_boost(place) == next,
    {
        self.lemma_boost_level_zero();
        assert(self.queues.take(self.queues.len() as int) =~= self.queues);
        let (l, i) = lemma_flatten_locate(self.queues, self.queues.len() as int, next.index);
        let place = Place { level: l, index: i };
        assert(self.holds(place));
        assert(self.place_after_boost(place) == next);
    }

    /// Advancing the clock keeps the invariant and adds `delta` to the clock.
    /// Off the boost interval nothing else changes; on it, the queues and the
    /// events are those of a boost.
    pub proof fn lemma_advance(self, delta: u32)
        requires
            self.valid(),
        ensures
            self.after_advance(delta).valid(),
            self.after_advance(delta).clock == self.clock + delta,
            self.after_advance(delta).quanta == self.quanta,
            self.after_advance(delta).queues.len() == self.queues.len(),
            self.advance_boosts(delta) ==> {
                &&& self.after_advance(delta).queues == self.after_boost().queues
                &&& self.after_advance(delta).events == self.events + self.boost_events()
            },
            !self.advance_boosts(delta) ==> {
                &&& self.after_advance(delta).queues == self.queues
                &&& self.after_advance(delta).events == self.events
            },
    {
        let ticked = SchedulerState { clock: (self.clock + delta) as nat, ..self };
        ticked.lemma_boost_valid();
    }

    /// When advancing the clock brings it to a multiple of the boost interval,
    /// every process then stands at level 0, and level 0 holds them all in
    /// this order: the processes that stood at level 0, as they were; then
    /// the others, level after level from level 1 down, each level in the
    /// order it had, nothing changed of a process but its level.
    pub proof fn lemma_boost_on_interval(self, delta: u32)
        requires
            self.valid(),
            self.advance_boosts(delta),
        ensures
            ({
                let after = self.after_advance(delta);
                &&& after.clock == self.clock + delta
                &&& forall|place: Place| #[trigger]
                    after.holds(place) ==> place.level == 0 && after.at(place).priority == 0
                &&& after.queues[0].len() == self.count_above(self.queues.len() as int)
                &&& forall|place: Place| #[trigger]
                    self.holds(place) ==> {
                        let next = self.place_after_advance(delta, place);
                        &&& next.level == 0
                        &&& next.index == self.count_above(place.level) + place.index
                        &&& after.holds(next)
                        &&& after.at(next) == promoted(self.at(place))
                        &&& place.level == 0 ==> next == place && after.at(next) == self.at(place)
                    }
                &&& forall|a: Place, b: Place|
                    #![trigger self.holds(a), self.holds(b)]
                    self.holds(a) && self.holds(b) && a.ahead_of(b) ==> self.place_after_advance(
                        delta,
                        a,
                    ).index < self.place_after_advance(delta, b).index
                &&& forall|next: Place| #[trigger]
                    after.holds(next) ==> exists|place: Place| #[trigger]
                        self.holds(place) && self.place_after_advance(delta, place) == next
            }),
    {
        let after = self.after_advance(delta);
        self.lemma_advance(delta);
        self.lemma_boost_valid();
        self.lemma_boost_level_zero();
        assert forall|place: Place| #[trigger] self.holds(place) implies ({
            let next = self.place_after_advance(delta, place);
            &&& next.level == 0
            &&& next.index == self.count_above(place.level) + place.index
            &&& after.holds(next)
            &&& after.at(next) == promoted(self.at(place))
            &&& place.level == 0 ==> next == place && after.at(next) == self.at(place)
        }) by {
            self.lemma_boost_follows(place);
        }
        assert forall|a: Place, b: Place|
            #![trigger self.holds(a), self.holds(b)]
            self.holds(a) && self.holds(b) && a.ahead_of(b) implies self.place_after_advance(
            delta,
            a,
        ).index < self.place_after_advance(delta, b).index by {
            self.lemma_boost_order(a, b);
        }
        assert forall|next: Place| #[trigger] after.holds(next) implies exists|place: Place| #[trigger]
            self.holds(place) && self.place_after_advance(delta, place) == next by {
            self.lemma_boost_origin(next);
        }
    }
}

} // verus!
