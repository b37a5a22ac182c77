use task_scheduler::priority_scheduler::PriorityScheduler;
use task_scheduler::scheduler::{SchedulerBuildError, SchedulerBuilder};
use task_scheduler::task::{Frequency, Priority, Task, TaskBuildError, TaskBuilder};

#[test]
fn builder_missing_name_fails() {
    let r = TaskBuilder::<u32>::new()
        .frequency(Frequency::OneTime)
        .priority(Priority::Level3)
        .action(1)
        .build();
    assert!(matches!(r, Err(TaskBuildError::MissingName)));
}

#[test]
fn builder_missing_frequency_fails() {
    let r = TaskBuilder::<u32>::new().name("t").priority(Priority::Level3).action(1).build();
    assert!(matches!(r, Err(TaskBuildError::MissingFrequency)));
}

#[test]
fn builder_missing_priority_fails() {
    let r = TaskBuilder::<u32>::new().name("t").frequency(Frequency::OneTime).action(1).build();
    assert!(matches!(r, Err(TaskBuildError::MissingPriority)));
}

#[test]
fn builder_missing_action_fails() {
    let r = TaskBuilder::<u32>::new()
        .name("t")
        .frequency(Frequency::OneTime)
        .priority(Priority::Level3)
        .build();
    assert!(matches!(r, Err(TaskBuildError::MissingAction)));
}

#[test]
fn builder_zero_interval_fails() {
    let r = TaskBuilder::<u32>::new()
        .name("t")
        .frequency(Frequency::Periodic(0))
        .priority(Priority::Level3)
        .action(1)
        .build();
    assert!(matches!(r, Err(TaskBuildError::InvalidInterval)));
}

#[test]
fn builder_complete_succeeds() {
    let task: Task<u32> = TaskBuilder::new()
        .name("heartbeat")
        .frequency(Frequency::Periodic(250))
        .priority(Priority::Level7)
        .action(42)
        .build()
        .unwrap();
    assert_eq!(task.name, "heartbeat");
    assert_eq!(task.frequency, Frequency::Periodic(250));
    assert_eq!(task.priority, Priority::Level7);
    assert_eq!(task.action, 42);
    assert!(task.is_valid());
}

#[test]
fn frequency_validity() {
    assert!(Frequency::OneTime.is_valid());
    assert!(Frequency::Periodic(1).is_valid());
    assert!(!Frequency::Periodic(0).is_valid());
}

#[test]
fn priority_levels_are_ordered_by_rank() {
    let levels = [
        Priority::Level1,
        Priority::Level2,
        Priority::Level3,
        Priority::Level4,
        Priority::Level5,
        Priority::Level6,
        Priority::Level7,
        Priority::Level8,
    ];
    for (i, p) in levels.iter().enumerate() {
        assert_eq!(p.level() as usize, i + 1);
    }
}

#[test]
fn scheduler_builder_missing_algorithm_fails() {
    let r = SchedulerBuilder::<PriorityScheduler>::new().build::<u32>();
    assert!(matches!(r, Err(SchedulerBuildError::MissingAlgorithm)));
}

#[test]
fn scheduler_builder_with_algorithm_succeeds() {
    let s = SchedulerBuilder::new().algorithm(PriorityScheduler::new()).build::<u32>();
    let scheduler = s.ok().unwrap();
    assert_eq!(scheduler.ready_count(), 0);
    assert_eq!(scheduler.pending_count(), 0);
    assert_eq!(scheduler.current_time(), 0);
}
