use task_scheduler::model::ExecEvent;
use task_scheduler::priority_scheduler::PriorityScheduler;
use task_scheduler::scheduler::{Scheduler, SchedulerBuilder};
use task_scheduler::task::{Frequency, Priority, TaskBuilder};

fn new_scheduler() -> Scheduler<u32, PriorityScheduler> {
    SchedulerBuilder::new().algorithm(PriorityScheduler::new()).build().unwrap()
}

fn add(scheduler: &mut Scheduler<u32, PriorityScheduler>, name: &str, frequency: Frequency, priority: Priority, action: u32) {
    let task = TaskBuilder::new()
        .name(name)
        .frequency(frequency)
        .priority(priority)
        .action(action)
        .build()
        .unwrap();
    assert!(task.is_valid());
    scheduler.add_task(task);
}

fn timeline(events: &[ExecEvent<u32>]) -> Vec<(u64, u32)> {
    events.iter().map(|e| (e.time, e.action)).collect()
}

#[test]
fn one_time_tasks_run_in_priority_order_then_finish() {
    let mut s = new_scheduler();
    add(&mut s, "A", Frequency::OneTime, Priority::Level5, 1);
    add(&mut s, "B", Frequency::OneTime, Priority::Level1, 2);
    let report = s.run(10_000, 100);
    assert!(report.finished);
    assert_eq!(timeline(&report.events), vec![(0, 1), (0, 2)]);
    assert_eq!(report.events[0].name, "A");
    assert_eq!(report.events[1].name, "B");
    assert_eq!(s.ready_count(), 0);
    assert_eq!(s.pending_count(), 0);
}

#[test]
fn periodic_tasks_fire_at_their_rates_in_priority_order() {
    let mut s = new_scheduler();
    add(&mut s, "C", Frequency::Periodic(1_000), Priority::Level5, 1);
    add(&mut s, "D", Frequency::Periodic(5_000), Priority::Level1, 2);
    let report = s.run(9_900, 100);
    assert!(!report.finished);
    let expected = vec![
        (0, 1),
        (0, 2),
        (1_000, 1),
        (2_000, 1),
        (3_000, 1),
        (4_000, 1),
        (5_000, 1),
        (5_000, 2),
        (6_000, 1),
        (7_000, 1),
        (8_000, 1),
        (9_000, 1),
    ];
    assert_eq!(timeline(&report.events), expected);
    let c_runs = report.events.iter().filter(|e| e.action == 1).count();
    let d_runs = report.events.iter().filter(|e| e.action == 2).count();
    assert_eq!(c_runs, 10);
    assert_eq!(d_runs, 2);
    assert_eq!(s.pending_count(), 2);
    assert_eq!(s.current_time(), 9_900);
}

#[test]
fn two_one_time_entries_with_one_name_each_run_once() {
    let mut s = new_scheduler();
    add(&mut s, "E", Frequency::OneTime, Priority::Level3, 1);
    add(&mut s, "E", Frequency::OneTime, Priority::Level3, 2);
    let report = s.run(10_000, 100);
    assert!(report.finished);
    assert_eq!(timeline(&report.events), vec![(0, 1), (0, 2)]);
    assert_eq!(report.events.iter().filter(|e| e.action == 1).count(), 1);
    assert_eq!(report.events.iter().filter(|e| e.action == 2).count(), 1);
}

#[test]
fn run_keeps_cycling_while_a_periodic_entry_remains() {
    let mut s = new_scheduler();
    add(&mut s, "once", Frequency::OneTime, Priority::Level6, 1);
    add(&mut s, "tick", Frequency::Periodic(300), Priority::Level2, 2);
    let report = s.run(500, 100);
    assert!(!report.finished);
    assert_eq!(timeline(&report.events), vec![(0, 1), (0, 2), (300, 2)]);
    assert_eq!(s.pending_count(), 1);
}

#[test]
fn one_time_entry_executes_in_no_further_cycle() {
    let mut s = new_scheduler();
    add(&mut s, "once", Frequency::OneTime, Priority::Level4, 9);
    let first = s.cycle(0);
    assert_eq!(timeline(&first), vec![(0, 9)]);
    assert!(s.cycle(100).is_empty());
    assert!(s.cycle(200).is_empty());
    assert_eq!(s.ready_count(), 0);
    assert_eq!(s.pending_count(), 0);
}

#[test]
fn periodic_entry_never_fires_before_its_interval() {
    let mut s = new_scheduler();
    add(&mut s, "tick", Frequency::Periodic(1_000), Priority::Level4, 7);
    assert_eq!(timeline(&s.cycle(0)), vec![(0, 7)]);
    assert!(s.cycle(400).is_empty());
    assert!(s.cycle(999).is_empty());
    assert_eq!(timeline(&s.cycle(1_000)), vec![(1_000, 7)]);
    assert!(s.cycle(1_900).is_empty());
    assert_eq!(timeline(&s.cycle(2_000)), vec![(2_000, 7)]);
}

#[test]
fn tasks_added_after_a_cycle_join_the_next_cycle() {
    let mut s = new_scheduler();
    add(&mut s, "early", Frequency::OneTime, Priority::Level2, 1);
    assert_eq!(timeline(&s.cycle(0)), vec![(0, 1)]);
    add(&mut s, "late", Frequency::OneTime, Priority::Level2, 2);
    assert_eq!(timeline(&s.cycle(50)), vec![(50, 2)]);
    assert!(s.cycle(100).is_empty());
}
