//! Task descriptors: priority levels, execution cadence, and the builder
//! through which callers assemble a task before handing it to the scheduler.

use vstd::prelude::*;

verus! {

/// One of eight discrete priority levels; a higher level is scheduled first.
#[derive(Clone, Copy, Debug, Hash, PartialEq, Eq, Structural)]
pub enum Priority {
    Level1,
    Level2,
    Level3,
    Level4,
    Level5,
    Level6,
    Level7,
    Level8,
}

impl Priority {
    /// The numeric rank of the level: `Level1` is 1 and `Level8` is 8.
    pub open spec fn rank(self) -> int {
        match self {
            Priority::Level1 => 1,
            Priority::Level2 => 2,
            Priority::Level3 => 3,
            Priority::Level4 => 4,
            Priority::Level5 => 5,
            Priority::Level6 => 6,
            Priority::Level7 => 7,
            Priority::Level8 => 8,
        }
    }

    /// The numeric rank as a machine integer.
    pub fn level(&self) -> (r: u8)
        ensures
            r == self.rank(),
    {
        match self {
            Priority::Level1 => 1,
            Priority::Level2 => 2,
            Priority::Level3 => 3,
            Priority::Level4 => 4,
            Priority::Level5 => 5,
            Priority::Level6 => 6,
            Priority::Level7 => 7,
            Priority::Level8 => 8,
        }
    }
}

/// How often a task runs: once, or repeatedly every `interval` milliseconds.
#[derive(Clone, Copy, Debug, PartialEq, Eq, Structural)]
pub enum Frequency {
    /// Execute once, then discard.
    OneTime,
    /// Execute repeatedly, at least `interval` milliseconds apart.
    Periodic(u64),
}

impl Frequency {
    /// A cadence is well formed when a periodic interval is positive.
    pub open spec fn wf(self) -> bool {
        match self {
            Frequency::OneTime => true,
            Frequency::Periodic(interval) => interval >= 1,
        }
    }

    /// Decides well-formedness of the cadence.
    pub fn is_valid(&self) -> (r: bool)
        ensures
            r == self.wf(),
    {
        match self {
            Frequency::OneTime => true,
            Frequency::Periodic(interval) => *interval >= 1,
        }
    }
}

/// A schedulable unit of work. The `name` is a diagnostic label only; the
/// `action` is an opaque handle (an identifier, say) under which the caller
/// keeps the executable side of the task.
pub struct Task<A> {
    pub name: String,
    pub frequency: Frequency,
    pub priority: Priority,
    pub action: A,
}

impl<A> Task<A> {
    /// A task is well formed when its cadence is.
    pub open spec fn wf(self) -> bool {
        self.frequency.wf()
    }

    /// Decides well-formedness of the task.
    pub fn is_valid(&self) -> (r: bool)
        ensures
            r == self.wf(),
    {
        self.frequency.is_valid()
    }
}

/// Why finalizing a task failed: a required field was never supplied, or the
/// supplied periodic interval was zero.
#[derive(Clone, Copy, Debug, PartialEq, Eq, Structural)]
pub enum TaskBuildError {
    MissingName,
    MissingFrequency,
    MissingPriority,
    MissingAction,
    InvalidInterval,
}

/// Assembles a [`Task`]. All four fields must be supplied explicitly;
/// [`TaskBuilder::build`] rejects an incomplete configuration.
pub struct TaskBuilder<A> {
    name: Option<String>,
    frequency: Option<Frequency>,
    priority: Option<Priority>,
    action: Option<A>,
}

impl<A> TaskBuilder<A> {
    /// The name supplied so far, if any.
    pub closed spec fn spec_name(self) -> Option<Seq<char>> {
        match self.name {
            Option::Some(n) => Option::Some(n@),
            Option::None => Option::None,
        }
    }

    /// The cadence supplied so far, if any.
    pub closed spec fn spec_frequency(self) -> Option<Frequency> {
        self.frequency
    }

    /// The priority supplied so far, if any.
    pub closed spec fn spec_priority(self) -> Option<Priority> {
        self.priority
    }

    /// The action supplied so far, if any.
    pub closed spec fn spec_action(self) -> Option<A> {
        self.action
    }

    /// A builder with nothing supplied yet.
    pub fn new() -> (r: Self)
        ensures
            r.spec_name() is None,
            r.spec_frequency() is None,
            r.spec_priority() is None,
            r.spec_action() is None,
    {
        TaskBuilder { name: None, frequency: None, priority: None, action: None }
    }

    /// Supplies the diagnostic name.
    pub fn name(self, name: &str) -> (r: Self)
        ensures
            r.spec_name() == Some(name@),
            r.spec_frequency() == self.spec_frequency(),
            r.spec_priority() == self.spec_priority(),
            r.spec_action() == self.spec_action(),
    {
        TaskBuilder { name: Some(name.to_owned()), ..self }
    }

    /// Supplies the cadence.
    pub fn frequency(self, frequency: Frequency) -> (r: Self)
        ensures
            r.spec_name() == self.spec_name(),
            r.spec_frequency() == Some(frequency),
            r.spec_priority() == self.spec_priority(),
            r.spec_action() == self.spec_action(),
    {
        TaskBuilder { frequency: Some(frequency), ..self }
    }

    /// Supplies the priority.
    pub fn priority(self, priority: Priority) -> (r: Self)
        ensures
            r.spec_name() == self.spec_name(),
            r.spec_frequency() == self.spec_frequency(),
            r.spec_priority() == Some(priority),
            r.spec_action() == self.spec_action(),
    {
        TaskBuilder { priority: Some(priority), ..self }
    }

    /// Supplies the action handle.
    pub fn action(self, action: A) -> (r: Self)
        ensures
            r.spec_name() == self.spec_name(),
            r.spec_frequency() == self.spec_frequency(),
            r.spec_priority() == self.spec_priority(),
            r.spec_action() == Some(action),
    {
        TaskBuilder { action: Some(action), ..self }
    }

    /// Finalizes the task. Fails, naming the first omitted field in the order
    /// name, frequency, priority, action, when any required field was never
    /// supplied; fails with `InvalidInterval` when the cadence is periodic
    /// with a zero interval. Succeeds exactly on complete, well-formed
    /// configurations, and then returns the task assembled from the supplied
    /// fields.
    pub fn build(self) -> (r: Result<Task<A>, TaskBuildError>)
        ensures
            self.spec_name() is None ==> r == Err::<Task<A>, TaskBuildError>(
                TaskBuildError::MissingName,
            ),
            self.spec_name() is Some && self.spec_frequency() is None ==> r == Err::<
                Task<A>,
                TaskBuildError,
            >(TaskBuildError::MissingFrequency),
            self.spec_name() is Some && self.spec_frequency() is Some && self.spec_priority()
                is None ==> r == Err::<Task<A>, TaskBuildError>(TaskBuildError::MissingPriority),
            self.spec_name() is Some && self.spec_frequency() is Some && self.spec_priority()
                is Some && self.spec_action() is None ==> r == Err::<Task<A>, TaskBuildError>(
                TaskBuildError::MissingAction,
            ),
            self.spec_name() is Some && self.spec_frequency() is Some && self.spec_priority()
                is Some && self.spec_action() is Some && !self.spec_frequency()->0.wf() ==> r
                == Err::<Task<A>, TaskBuildError>(TaskBuildError::InvalidInterval),
            self.spec_name() is Some && self.spec_frequency() is Some && self.spec_priority()
                is Some && self.spec_action() is Some && self.spec_frequency()->0.wf() ==> {
                &&& r is Ok
                &&& r->Ok_0.name@ == self.spec_name()->0
                &&& r->Ok_0.frequency == self.spec_frequency()->0
                &&& r->Ok_0.priority == self.spec_priority()->0
                &&& r->Ok_0.action == self.spec_action()->0
                &&& r->Ok_0.wf()
            },
    {
        let TaskBuilder { name, frequency, priority, action } = self;
        let name = match name {
            Some(n) => n,
            None => { return Err(TaskBuildError::MissingName) },
        };
        let frequency = match frequency {
            Some(f) => f,
            None => { return Err(TaskBuildError::MissingFrequency) },
        };
        let priority = match priority {
            Some(p) => p,
            None => { return Err(TaskBuildError::MissingPriority) },
        };
        let action = match action {
            Some(a) => a,
            None => { return Err(TaskBuildError::MissingAction) },
        };
        if !frequency.is_valid() {
            return Err(TaskBuildError::InvalidInterval);
        }
        Ok(Task { name, frequency, priority, action })
    }
}

} // verus!
