use task_scheduler::queue::{Entry, TaskQueue};
use task_scheduler::task::{Frequency, Priority, TaskBuilder};

fn entry(name: &str, priority: Priority, action: u32) -> Entry<u32> {
    let task = TaskBuilder::new()
        .name(name)
        .frequency(Frequency::OneTime)
        .priority(priority)
        .action(action)
        .build()
        .unwrap();
    Entry::fresh(task)
}

#[test]
fn queue_pops_highest_priority_first() {
    let mut q: TaskQueue<u32> = TaskQueue::new();
    q.push(entry("low", Priority::Level1, 1));
    q.push(entry("high", Priority::Level5, 2));
    q.push(entry("mid", Priority::Level3, 3));
    assert_eq!(q.len(), 3);
    assert_eq!(q.pop().unwrap().task.action, 2);
    assert_eq!(q.pop().unwrap().task.action, 3);
    assert_eq!(q.pop().unwrap().task.action, 1);
    assert!(q.is_empty());
    assert!(q.pop().is_none());
}

#[test]
fn queue_ties_come_out_first_in_first_out() {
    let mut q: TaskQueue<u32> = TaskQueue::new();
    q.push(entry("first", Priority::Level4, 1));
    q.push(entry("second", Priority::Level4, 2));
    q.push(entry("third", Priority::Level4, 3));
    assert_eq!(q.pop().unwrap().task.action, 1);
    assert_eq!(q.pop().unwrap().task.action, 2);
    assert_eq!(q.pop().unwrap().task.action, 3);
}

#[test]
fn fresh_entry_is_eligible_until_executed() {
    let e = entry("once", Priority::Level2, 9);
    assert_eq!(e.last_run, None);
    assert!(!e.executed);
    assert!(e.is_eligible(0));
    let latched = Entry { executed: true, ..e };
    assert!(!latched.is_eligible(0));
}

#[test]
fn periodic_entry_eligibility_follows_interval() {
    let task = TaskBuilder::new()
        .name("tick")
        .frequency(Frequency::Periodic(1000))
        .priority(Priority::Level2)
        .action(7u32)
        .build()
        .unwrap();
    let e = Entry::fresh(task);
    assert!(e.is_eligible(0));
    let ran = Entry { last_run: Some(200), ..e };
    assert!(!ran.is_eligible(1100));
    assert!(ran.is_eligible(1200));
    assert!(ran.is_eligible(5000));
}
