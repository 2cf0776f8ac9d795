use mlfq_scheduler::event::{ConfigError, Event, ExecutionOutcome, Transition};
use mlfq_scheduler::mlfq::MLFQ;
use mlfq_scheduler::model::BOOST_INTERVAL;
use mlfq_scheduler::process::Process;

fn process(id: u32, priority: usize, remaining_time: u32) -> Process {
    Process { id, priority, remaining_time, total_executed_time: 0 }
}

fn three_levels() -> MLFQ {
    MLFQ::new(3, vec![2, 4, 8]).unwrap()
}

fn ids(mlfq: &MLFQ, level: usize) -> Vec<u32> {
    mlfq.queue(level).unwrap().iter().map(|p| p.id).collect()
}

#[test]
fn test_add_process() {
    let mut mlfq = MLFQ::new(3, vec![2, 4, 8]).unwrap();

    let process1 = Process { id: 1, priority: 0, remaining_time: 10, total_executed_time: 0 };
    let process2 = Process { id: 2, priority: 1, remaining_time: 5, total_executed_time: 0 };
    let process3 = Process { id: 3, priority: 5, remaining_time: 8, total_executed_time: 0 };

    mlfq.add_process(process1);
    mlfq.add_process(process2);
    mlfq.add_process(process3);

    assert_eq!(mlfq.queue(0).unwrap().len(), 1);
    assert_eq!(mlfq.queue(1).unwrap().len(), 1);
    assert_eq!(mlfq.queue(2).unwrap().len(), 1);
}

#[test]
fn test_execute_process() {
    let mut mlfq = MLFQ::new(3, vec![2, 4, 8]).unwrap();
    mlfq.add_process(Process { id: 1, priority: 0, remaining_time: 5, total_executed_time: 0 });

    mlfq.execute_process(0);

    assert_eq!(mlfq.queue(0).unwrap().len(), 0);
    assert_eq!(mlfq.queue(1).unwrap().len(), 1);
    assert_eq!(mlfq.queue(1).unwrap()[0].remaining_time, 3);
    assert_eq!(mlfq.queue(1).unwrap()[0].total_executed_time, 2);
}

#[test]
fn test_priority_boost() {
    let mut mlfq = MLFQ::new(3, vec![2, 4, 8]).unwrap();
    mlfq.add_process(Process { id: 1, priority: 1, remaining_time: 5, total_executed_time: 3 });
    mlfq.add_process(Process { id: 2, priority: 2, remaining_time: 3, total_executed_time: 7 });

    mlfq.update_time(100);

    assert_eq!(mlfq.queue(0).unwrap().len(), 2);
    assert_eq!(mlfq.queue(1).unwrap().len(), 0);
    assert_eq!(mlfq.queue(2).unwrap().len(), 0);
}

#[test]
fn new_scheduler_is_empty_with_clock_at_zero() {
    let mlfq = three_levels();
    assert_eq!(mlfq.num_levels(), 3);
    assert_eq!(mlfq.current_time(), 0);
    for level in 0..3 {
        assert!(mlfq.queue(level).unwrap().is_empty());
    }
    assert_eq!(mlfq.time_quantum(0), Some(2));
    assert_eq!(mlfq.time_quantum(1), Some(4));
    assert_eq!(mlfq.time_quantum(2), Some(8));
    assert_eq!(mlfq.time_quantum(3), None);
    assert!(mlfq.queue(3).is_none());
}

#[test]
fn new_rejects_a_scheduler_without_levels() {
    assert_eq!(MLFQ::new(0, vec![]).err(), Some(ConfigError::NoLevels));
    assert_eq!(MLFQ::new(0, vec![1, 2]).err(), Some(ConfigError::NoLevels));
}

#[test]
fn new_rejects_a_quantum_table_of_the_wrong_length() {
    assert_eq!(
        MLFQ::new(3, vec![2, 4]).err(),
        Some(ConfigError::QuantaLengthMismatch { expected: 3, found: 2 })
    );
    assert_eq!(
        MLFQ::new(1, vec![2, 4]).err(),
        Some(ConfigError::QuantaLengthMismatch { expected: 1, found: 2 })
    );
    assert_eq!(
        MLFQ::new(2, vec![0]).err(),
        Some(ConfigError::QuantaLengthMismatch { expected: 2, found: 1 })
    );
}

#[test]
fn new_rejects_a_zero_quantum_and_names_the_first() {
    assert_eq!(MLFQ::new(3, vec![2, 0, 8]).err(), Some(ConfigError::ZeroQuantum { level: 1 }));
    assert_eq!(MLFQ::new(3, vec![0, 0, 0]).err(), Some(ConfigError::ZeroQuantum { level: 0 }));
    assert_eq!(MLFQ::new(1, vec![0]).err(), Some(ConfigError::ZeroQuantum { level: 0 }));
}

#[test]
fn add_keeps_the_level_when_it_exists() {
    let mut mlfq = three_levels();
    mlfq.add_process(process(7, 2, 4));
    assert_eq!(mlfq.queue(2).unwrap()[0], process(7, 2, 4));
    assert!(mlfq.queue(0).unwrap().is_empty());
    assert!(mlfq.queue(1).unwrap().is_empty());
    assert!(mlfq.take_events().is_empty());
}

#[test]
fn add_clamps_a_level_that_does_not_exist() {
    let mut mlfq = three_levels();
    mlfq.add_process(process(2, 5, 1));
    mlfq.add_process(process(3, 3, 1));
    mlfq.add_process(process(4, usize::MAX, 1));
    let lowest = mlfq.queue(2).unwrap();
    assert_eq!(lowest.len(), 3);
    assert_eq!(lowest[0], process(2, 2, 1));
    assert_eq!(lowest[1], process(3, 2, 1));
    assert_eq!(lowest[2], process(4, 2, 1));
}

#[test]
fn add_appends_at_the_tail() {
    let mut mlfq = three_levels();
    mlfq.add_process(process(1, 0, 10));
    mlfq.add_process(process(2, 0, 10));
    mlfq.add_process(process(1, 0, 10));
    assert_eq!(ids(&mlfq, 0), vec![1, 2, 1]);
}

#[test]
fn execute_reports_an_invalid_level_and_changes_nothing() {
    let mut mlfq = three_levels();
    mlfq.add_process(process(1, 0, 5));
    assert_eq!(mlfq.execute_process(3), ExecutionOutcome::InvalidLevelIndex);
    assert_eq!(mlfq.execute_process(usize::MAX), ExecutionOutcome::InvalidLevelIndex);
    assert_eq!(mlfq.current_time(), 0);
    assert_eq!(mlfq.queue(0).unwrap()[0], process(1, 0, 5));
    assert!(mlfq.take_events().is_empty());
}

#[test]
fn execute_reports_an_idle_level_and_changes_nothing() {
    let mut mlfq = three_levels();
    mlfq.add_process(process(1, 0, 5));
    assert_eq!(mlfq.execute_process(1), ExecutionOutcome::Idle);
    assert_eq!(mlfq.execute_process(2), ExecutionOutcome::Idle);
    assert_eq!(mlfq.current_time(), 0);
    assert_eq!(mlfq.queue(0).unwrap()[0], process(1, 0, 5));
    assert!(mlfq.take_events().is_empty());
}

#[test]
fn a_process_is_demoted_then_completed() {
    let mut mlfq = three_levels();
    mlfq.add_process(process(1, 0, 5));

    let first = mlfq.execute_process(0);
    assert_eq!(
        first,
        ExecutionOutcome::Ran { item_id: 1, ran_amount: 2, transition: Transition::Requeued(1) }
    );
    assert!(mlfq.queue(0).unwrap().is_empty());
    assert_eq!(
        mlfq.queue(1).unwrap()[0],
        Process { id: 1, priority: 1, remaining_time: 3, total_executed_time: 2 }
    );
    assert_eq!(mlfq.current_time(), 2);

    let second = mlfq.execute_process(1);
    assert_eq!(
        second,
        ExecutionOutcome::Ran { item_id: 1, ran_amount: 3, transition: Transition::Completed }
    );
    for level in 0..3 {
        assert!(mlfq.queue(level).unwrap().is_empty());
    }
    assert_eq!(mlfq.current_time(), 5);
    assert_eq!(
        mlfq.take_events(),
        vec![
            Event::ItemExecuted { id: 1, ran: 2, level: 0 },
            Event::ItemMoved { id: 1, from: 0, to: 1, remaining: 3 },
            Event::ItemExecuted { id: 1, ran: 3, level: 1 },
            Event::ItemCompleted { id: 1 },
        ]
    );
}

#[test]
fn the_clock_advances_by_the_work_done_not_by_the_quantum() {
    let mut mlfq = three_levels();
    mlfq.add_process(process(1, 2, 3));
    assert_eq!(
        mlfq.execute_process(2),
        ExecutionOutcome::Ran { item_id: 1, ran_amount: 3, transition: Transition::Completed }
    );
    assert_eq!(mlfq.current_time(), 3);
}

#[test]
fn a_process_whose_work_equals_the_quantum_completes() {
    let mut mlfq = three_levels();
    mlfq.add_process(process(1, 1, 4));
    assert_eq!(
        mlfq.execute_process(1),
        ExecutionOutcome::Ran { item_id: 1, ran_amount: 4, transition: Transition::Completed }
    );
    assert!(mlfq.queue(1).unwrap().is_empty());
    assert!(mlfq.queue(2).unwrap().is_empty());
}

#[test]
fn a_process_without_work_completes_at_once() {
    let mut mlfq = three_levels();
    mlfq.add_process(process(9, 0, 0));
    assert_eq!(
        mlfq.execute_process(0),
        ExecutionOutcome::Ran { item_id: 9, ran_amount: 0, transition: Transition::Completed }
    );
    assert!(mlfq.queue(0).unwrap().is_empty());
    assert_eq!(mlfq.current_time(), 0);
}

#[test]
fn the_lowest_level_is_a_round_robin() {
    let mut mlfq = three_levels();
    mlfq.add_process(process(1, 2, 20));
    mlfq.add_process(process(2, 2, 9));

    assert_eq!(
        mlfq.execute_process(2),
        ExecutionOutcome::Ran { item_id: 1, ran_amount: 8, transition: Transition::Requeued(2) }
    );
    assert_eq!(ids(&mlfq, 2), vec![2, 1]);
    assert_eq!(
        mlfq.queue(2).unwrap()[1],
        Process { id: 1, priority: 2, remaining_time: 12, total_executed_time: 8 }
    );

    assert_eq!(
        mlfq.execute_process(2),
        ExecutionOutcome::Ran { item_id: 2, ran_amount: 8, transition: Transition::Requeued(2) }
    );
    assert_eq!(ids(&mlfq, 2), vec![1, 2]);
    assert_eq!(mlfq.current_time(), 16);
}

#[test]
fn a_single_level_requeues_in_place() {
    let mut mlfq = MLFQ::new(1, vec![3]).unwrap();
    mlfq.add_process(process(1, 0, 7));
    assert_eq!(
        mlfq.execute_process(0),
        ExecutionOutcome::Ran { item_id: 1, ran_amount: 3, transition: Transition::Requeued(0) }
    );
    assert_eq!(
        mlfq.queue(0).unwrap()[0],
        Process { id: 1, priority: 0, remaining_time: 4, total_executed_time: 3 }
    );
}

#[test]
fn a_demoted_process_goes_behind_those_that_wait_there() {
    let mut mlfq = three_levels();
    mlfq.add_process(process(1, 1, 9));
    mlfq.add_process(process(2, 0, 9));
    mlfq.add_process(process(3, 0, 9));
    mlfq.execute_process(0);
    assert_eq!(ids(&mlfq, 0), vec![3]);
    assert_eq!(ids(&mlfq, 1), vec![1, 2]);
}

#[test]
fn levels_rise_by_one_per_expired_quantum_up_to_the_lowest() {
    let mut mlfq = three_levels();
    mlfq.add_process(process(1, 0, 100));
    let mut level = 0;
    let mut seen = vec![];
    for _ in 0..4 {
        match mlfq.execute_process(level) {
            ExecutionOutcome::Ran { transition: Transition::Requeued(to), .. } => {
                seen.push(to);
                level = to;
            }
            other => panic!("unexpected outcome {:?}", other),
        }
    }
    assert_eq!(seen, vec![1, 2, 2, 2]);
    assert_eq!(mlfq.queue(2).unwrap()[0].priority, 2);
}

#[test]
fn work_is_conserved_until_completion() {
    let mut mlfq = three_levels();
    mlfq.add_process(process(1, 0, 37));
    let mut level = 0;
    let mut total = 0;
    loop {
        match mlfq.execute_process(level) {
            ExecutionOutcome::Ran { ran_amount, transition, .. } => {
                total += ran_amount;
                match transition {
                    Transition::Requeued(to) => {
                        let p = mlfq.queue(to).unwrap()[0];
                        assert_eq!(p.remaining_time + p.total_executed_time, 37);
                        assert_eq!(p.total_executed_time, total);
                        level = to;
                    }
                    Transition::Completed => break,
                }
            }
            other => panic!("unexpected outcome {:?}", other),
        }
    }
    assert_eq!(total, 37);
    assert_eq!(mlfq.current_time(), 37);
}

#[test]
fn work_done_before_admission_is_kept() {
    let mut mlfq = three_levels();
    mlfq.add_process(Process { id: 1, priority: 1, remaining_time: 5, total_executed_time: 3 });
    mlfq.execute_process(1);
    assert_eq!(
        mlfq.queue(2).unwrap()[0],
        Process { id: 1, priority: 2, remaining_time: 1, total_executed_time: 7 }
    );
}

#[test]
fn a_completed_process_is_gone_for_good() {
    let mut mlfq = three_levels();
    mlfq.add_process(process(1, 0, 2));
    mlfq.add_process(process(2, 0, 50));
    assert_eq!(
        mlfq.execute_process(0),
        ExecutionOutcome::Ran { item_id: 1, ran_amount: 2, transition: Transition::Completed }
    );
    mlfq.take_events();

    mlfq.execute_process(0);
    mlfq.execute_process(1);
    mlfq.update_time(100 - mlfq.current_time());
    mlfq.execute_process(0);

    for level in 0..3 {
        assert!(mlfq.queue(level).unwrap().iter().all(|p| p.id != 1));
    }
    let later = mlfq.take_events();
    assert!(!later.is_empty());
    for event in later {
        match event {
            Event::ItemExecuted { id, .. } => assert_eq!(id, 2),
            Event::ItemMoved { id, .. } => assert_eq!(id, 2),
            Event::ItemCompleted { id } => assert_eq!(id, 2),
            Event::BoostTriggered => {}
        }
    }
}

#[test]
fn execution_events_come_in_order() {
    let mut mlfq = three_levels();
    mlfq.add_process(process(1, 0, 5));
    mlfq.execute_process(0);
    mlfq.execute_process(1);
    mlfq.execute_process(1);
    assert_eq!(
        mlfq.take_events(),
        vec![
            Event::ItemExecuted { id: 1, ran: 2, level: 0 },
            Event::ItemMoved { id: 1, from: 0, to: 1, remaining: 3 },
            Event::ItemExecuted { id: 1, ran: 3, level: 1 },
            Event::ItemCompleted { id: 1 },
        ]
    );
    assert!(mlfq.take_events().is_empty());
}

#[test]
fn a_round_robin_move_names_the_same_level_twice() {
    let mut mlfq = three_levels();
    mlfq.add_process(process(4, 2, 10));
    mlfq.execute_process(2);
    assert_eq!(
        mlfq.take_events(),
        vec![
            Event::ItemExecuted { id: 4, ran: 8, level: 2 },
            Event::ItemMoved { id: 4, from: 2, to: 2, remaining: 2 },
        ]
    );
}

#[test]
fn the_boost_interval_is_one_hundred() {
    assert_eq!(BOOST_INTERVAL, 100);
}

#[test]
fn a_boost_moves_every_process_to_the_top_in_order() {
    let mut mlfq = three_levels();
    mlfq.add_process(process(1, 1, 5));
    mlfq.add_process(process(2, 2, 3));

    mlfq.update_time(100);

    assert_eq!(mlfq.current_time(), 100);
    let top = mlfq.queue(0).unwrap();
    assert_eq!(top.len(), 2);
    assert_eq!(top[0], process(1, 0, 5));
    assert_eq!(top[1], process(2, 0, 3));
    assert!(mlfq.queue(1).unwrap().is_empty());
    assert!(mlfq.queue(2).unwrap().is_empty());
}

#[test]
fn a_boost_keeps_the_top_level_ahead_and_each_level_in_its_order() {
    let mut mlfq = three_levels();
    mlfq.add_process(process(10, 2, 1));
    mlfq.add_process(process(11, 2, 1));
    mlfq.add_process(process(20, 1, 1));
    mlfq.add_process(process(21, 1, 1));
    mlfq.add_process(process(22, 1, 1));
    mlfq.add_process(process(30, 0, 1));
    mlfq.add_process(process(31, 0, 1));

    mlfq.priority_boost();

    assert_eq!(ids(&mlfq, 0), vec![30, 31, 20, 21, 22, 10, 11]);
    assert!(mlfq.queue(0).unwrap().iter().all(|p| p.priority == 0));
    assert!(mlfq.queue(1).unwrap().is_empty());
    assert!(mlfq.queue(2).unwrap().is_empty());
    assert_eq!(mlfq.current_time(), 0);
    assert_eq!(
        mlfq.take_events(),
        vec![
            Event::BoostTriggered,
            Event::ItemMoved { id: 20, from: 1, to: 0, remaining: 1 },
            Event::ItemMoved { id: 21, from: 1, to: 0, remaining: 1 },
            Event::ItemMoved { id: 22, from: 1, to: 0, remaining: 1 },
            Event::ItemMoved { id: 10, from: 2, to: 0, remaining: 1 },
            Event::ItemMoved { id: 11, from: 2, to: 0, remaining: 1 },
        ]
    );
}

#[test]
fn a_boost_of_an_empty_scheduler_only_reports_itself() {
    let mut mlfq = three_levels();
    mlfq.priority_boost();
    assert_eq!(mlfq.take_events(), vec![Event::BoostTriggered]);
    for level in 0..3 {
        assert!(mlfq.queue(level).unwrap().is_empty());
    }
}

#[test]
fn a_boost_keeps_work_and_identity() {
    let mut mlfq = three_levels();
    mlfq.add_process(Process { id: 1, priority: 1, remaining_time: 5, total_executed_time: 3 });
    mlfq.add_process(Process { id: 2, priority: 2, remaining_time: 3, total_executed_time: 7 });
    mlfq.priority_boost();
    let top = mlfq.queue(0).unwrap();
    assert_eq!(top[0], Process { id: 1, priority: 0, remaining_time: 5, total_executed_time: 3 });
    assert_eq!(top[1], Process { id: 2, priority: 0, remaining_time: 3, total_executed_time: 7 });
}

#[test]
fn time_that_skips_a_multiple_does_not_boost() {
    let mut mlfq = three_levels();
    mlfq.add_process(process(1, 1, 5));
    mlfq.update_time(99);
    mlfq.update_time(2);
    assert_eq!(mlfq.current_time(), 101);
    assert_eq!(ids(&mlfq, 1), vec![1]);
    assert!(mlfq.queue(0).unwrap().is_empty());
    assert!(mlfq.take_events().is_empty());
}

#[test]
fn time_that_lands_on_a_later_multiple_boosts() {
    let mut mlfq = three_levels();
    mlfq.add_process(process(1, 2, 5));
    mlfq.update_time(150);
    assert_eq!(ids(&mlfq, 2), vec![1]);
    mlfq.update_time(150);
    assert_eq!(mlfq.current_time(), 300);
    assert_eq!(ids(&mlfq, 0), vec![1]);
    assert!(mlfq.queue(2).unwrap().is_empty());
}

#[test]
fn no_time_at_clock_zero_is_a_multiple_too() {
    let mut mlfq = three_levels();
    mlfq.add_process(process(1, 1, 5));
    mlfq.update_time(0);
    assert_eq!(mlfq.current_time(), 0);
    assert_eq!(ids(&mlfq, 0), vec![1]);
    assert_eq!(
        mlfq.take_events(),
        vec![Event::BoostTriggered, Event::ItemMoved { id: 1, from: 1, to: 0, remaining: 5 }]
    );
}

#[test]
fn work_that_brings_the_clock_to_a_multiple_does_not_boost() {
    let mut mlfq = MLFQ::new(2, vec![100, 100]).unwrap();
    mlfq.add_process(process(1, 0, 150));
    assert_eq!(
        mlfq.execute_process(0),
        ExecutionOutcome::Ran { item_id: 1, ran_amount: 100, transition: Transition::Requeued(1) }
    );
    assert_eq!(mlfq.current_time(), 100);
    assert_eq!(ids(&mlfq, 1), vec![1]);
    assert!(mlfq.queue(0).unwrap().is_empty());
}

#[test]
fn work_and_time_add_up_on_one_clock() {
    let mut mlfq = three_levels();
    mlfq.add_process(process(1, 0, 5));
    mlfq.execute_process(0);
    mlfq.update_time(98);
    assert_eq!(mlfq.current_time(), 100);
    assert_eq!(ids(&mlfq, 0), vec![1]);
    assert_eq!(
        mlfq.queue(0).unwrap()[0],
        Process { id: 1, priority: 0, remaining_time: 3, total_executed_time: 2 }
    );
}

#[test]
fn the_clock_can_reach_its_last_value() {
    let mut mlfq = three_levels();
    mlfq.update_time(u32::MAX);
    assert_eq!(mlfq.current_time(), u32::MAX);
    assert_eq!(mlfq.execute_process(0), ExecutionOutcome::Idle);
}

#[test]
fn a_process_may_carry_all_the_work_a_counter_holds() {
    let mut mlfq = MLFQ::new(1, vec![u32::MAX]).unwrap();
    mlfq.add_process(process(1, 0, u32::MAX));
    assert_eq!(
        mlfq.execute_process(0),
        ExecutionOutcome::Ran {
            item_id: 1,
            ran_amount: u32::MAX,
            transition: Transition::Completed
        }
    );
    assert_eq!(mlfq.current_time(), u32::MAX);
}

#[test]
fn the_pending_run_is_what_the_next_execution_performs() {
    let mut mlfq = three_levels();
    assert_eq!(mlfq.pending_run(0), None);
    assert_eq!(mlfq.pending_run(3), None);
    mlfq.add_process(process(1, 0, 5));
    mlfq.add_process(process(2, 1, 3));
    mlfq.add_process(process(3, 2, 8));
    assert_eq!(mlfq.pending_run(0), Some(2));
    assert_eq!(mlfq.pending_run(1), Some(3));
    assert_eq!(mlfq.pending_run(2), Some(8));
    match mlfq.execute_process(0) {
        ExecutionOutcome::Ran { ran_amount, .. } => assert_eq!(ran_amount, 2),
        other => panic!("unexpected outcome {:?}", other),
    }
    assert_eq!(mlfq.pending_run(0), None);
}
