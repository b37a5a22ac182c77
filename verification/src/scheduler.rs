//! The scheduler: owns the ready queue and the waiting set, accepts tasks,
//! and drives them through a pluggable scheduling algorithm.

use vstd::prelude::*;

use crate::model::{cycle_events, cycle_hold, run_model, ExecEvent};
use crate::queue::{all_wf, pq_push, sorted_desc, Entry, TaskQueue};
use crate::task::Task;

verus! {

/// What a run produced: the executions in order, and whether the run ended
/// because no work was left (`finished`) rather than because the horizon was
/// reached.
pub struct RunReport<A> {
    pub events: Vec<ExecEvent<A>>,
    pub finished: bool,
}

/// A scheduling algorithm: one cycle re-admits every waiting entry whose
/// interval has elapsed, then drains the ready queue in priority order,
/// executing eligible entries and holding the rest back; a run repeats
/// cycles over a simulated clock until no entry is left or the horizon is
/// reached. The contracts pin both down to the model in [`crate::model`].
pub trait SchedulerAlgorithm<A: Copy> {
    /// One cycle at instant `now`: drains the ready queue completely and
    /// returns the executions of this cycle in order.
    fn cycle(&self, tasks: &mut TaskQueue<A>, waiting: &mut Vec<Entry<A>>, now: u64) -> (ev: Vec<
        ExecEvent<A>,
    >)
        requires
            old(tasks).wf(),
            all_wf(old(waiting)@),
        ensures
            final(tasks).wf(),
            final(tasks)@ == Seq::<Entry<A>>::empty(),
            all_wf(final(waiting)@),
            ev@ == cycle_events(old(tasks)@, old(waiting)@, now),
            final(waiting)@ == cycle_hold(old(tasks)@, old(waiting)@, now),
    ;

    /// A whole run from instant `*clock`: cycle, and while entries remain
    /// pending and the horizon is not reached, advance the clock by `idle`
    /// milliseconds and cycle again. Leaves the clock at the last instant
    /// evaluated.
    fn run(
        &self,
        tasks: &mut TaskQueue<A>,
        waiting: &mut Vec<Entry<A>>,
        clock: &mut u64,
        horizon: u64,
        idle: u64,
    ) -> (r: RunReport<A>)
        requires
            old(tasks).wf(),
            all_wf(old(waiting)@),
            idle >= 1,
            horizon + idle <= u64::MAX,
        ensures
            ({
                let m = run_model(old(tasks)@, old(waiting)@, *old(clock), horizon, idle);
                &&& final(tasks).wf()
                &&& final(tasks)@ == Seq::<Entry<A>>::empty()
                &&& all_wf(final(waiting)@)
                &&& r.events@ == m.events
                &&& r.finished == m.finished
                &&& final(waiting)@ == m.pending
                &&& *final(clock) == m.clock
            }),
    ;
}

/// The scheduler: a ready queue of entries ordered by priority, the waiting
/// set of periodic entries sitting out their interval, a simulated clock,
/// and the algorithm that drives them.
pub struct Scheduler<A, G> {
    tasks: TaskQueue<A>,
    waiting: Vec<Entry<A>>,
    clock: u64,
    algorithm: G,
}

impl<A, G> Scheduler<A, G> {
    /// The entries currently in the ready queue, highest priority first.
    pub closed spec fn ready(self) -> Seq<Entry<A>> {
        self.tasks@
    }

    /// The entries currently waiting out their interval, in arrival order.
    pub closed spec fn pending(self) -> Seq<Entry<A>> {
        self.waiting@
    }

    /// The instant the scheduler last evaluated.
    pub closed spec fn time(self) -> u64 {
        self.clock
    }

    /// The scheduler invariant: the ready queue is sorted by descending
    /// priority and every entry it holds is well formed.
    pub open spec fn wf(self) -> bool {
        &&& sorted_desc(self.ready())
        &&& all_wf(self.ready())
        &&& all_wf(self.pending())
    }

    /// How many entries are waiting out their interval.
    pub fn pending_count(&self) -> (n: usize)
        ensures
            n == self.pending().len(),
    {
        self.waiting.len()
    }

    /// How many entries are in the ready queue.
    pub fn ready_count(&self) -> (n: usize)
        ensures
            n == self.ready().len(),
    {
        self.tasks.len()
    }

    /// The instant the scheduler last evaluated.
    pub fn current_time(&self) -> (t: u64)
        ensures
            t == self.time(),
    {
        self.clock
    }

    /// Registers a fully built task: it enters the ready queue behind the
    /// entries of its priority or higher, having never run.
    pub fn add_task(&mut self, task: Task<A>)
        requires
            old(self).wf(),
            task.wf(),
        ensures
            final(self).wf(),
            final(self).ready() == pq_push(
                old(self).ready(),
                (Entry { task, last_run: None, executed: false }),
            ),
            final(self).pending() == old(self).pending(),
            final(self).time() == old(self).time(),
    {
        self.tasks.push(Entry::fresh(task));
    }
}

impl<A: Copy, G: SchedulerAlgorithm<A>> Scheduler<A, G> {
    /// One scheduling cycle at instant `now`: returns the executions of the
    /// cycle in order and records `now` as the last evaluated instant.
    pub fn cycle(&mut self, now: u64) -> (ev: Vec<ExecEvent<A>>)
        requires
            old(self).wf(),
        ensures
            final(self).wf(),
            ev@ == cycle_events(old(self).ready(), old(self).pending(), now),
            final(self).ready() == Seq::<Entry<A>>::empty(),
            final(self).pending() == cycle_hold(old(self).ready(), old(self).pending(), now),
            final(self).time() == now,
    {
        let ev = self.algorithm.cycle(&mut self.tasks, &mut self.waiting, now);
        self.clock = now;
        ev
    }

    /// Runs the scheduling loop from the current clock: for a task set of
    /// one-time entries only it returns once every entry has executed or
    /// been discarded; while periodic entries remain it keeps cycling until
    /// the horizon is reached.
    pub fn run(&mut self, horizon: u64, idle: u64) -> (r: RunReport<A>)
        requires
            old(self).wf(),
            idle >= 1,
            horizon + idle <= u64::MAX,
        ensures
            ({
                let m = run_model(
                    old(self).ready(),
                    old(self).pending(),
                    old(self).time(),
                    horizon,
                    idle,
                );
                &&& final(self).wf()
                &&& final(self).ready() == Seq::<Entry<A>>::empty()
                &&& r.events@ == m.events
                &&& r.finished == m.finished
                &&& final(self).pending() == m.pending
                &&& final(self).time() == m.clock
            }),
    {
        self.algorithm.run(&mut self.tasks, &mut self.waiting, &mut self.clock, horizon, idle)
    }
}

/// Why finalizing a scheduler failed: no algorithm was supplied.
#[derive(Clone, Copy, Debug, PartialEq, Eq, Structural)]
pub enum SchedulerBuildError {
    MissingAlgorithm,
}

/// Assembles a [`Scheduler`]; the algorithm must be supplied explicitly.
pub struct SchedulerBuilder<G> {
    algorithm: Option<G>,
}

impl<G> SchedulerBuilder<G> {
    /// The algorithm supplied so far, if any.
    pub closed spec fn spec_algorithm(self) -> Option<G> {
        self.algorithm
    }

    /// A builder with no algorithm supplied yet.
    pub fn new() -> (r: Self)
        ensures
            r.spec_algorithm() is None,
    {
        SchedulerBuilder { algorithm: None }
    }

    /// Supplies the scheduling algorithm.
    pub fn algorithm(self, algorithm: G) -> (r: Self)
        ensures
            r.spec_algorithm() == Some(algorithm),
    {
        SchedulerBuilder { algorithm: Some(algorithm) }
    }

    /// Finalizes the scheduler. Fails when no algorithm was supplied;
    /// succeeds otherwise, with an empty queue, an empty waiting set and the
    /// clock at zero.
    pub fn build<A>(self) -> (r: Result<Scheduler<A, G>, SchedulerBuildError>)
        ensures
            self.spec_algorithm() is None ==> r == Err::<Scheduler<A, G>, SchedulerBuildError>(
                SchedulerBuildError::MissingAlgorithm,
            ),
            self.spec_algorithm() is Some ==> {
                &&& r is Ok
                &&& r->Ok_0.wf()
                &&& r->Ok_0.ready() == Seq::<Entry<A>>::empty()
                &&& r->Ok_0.pending() == Seq::<Entry<A>>::empty()
                &&& r->Ok_0.time() == 0
            },
    {
        match self.algorithm {
            None => Err(SchedulerBuildError::MissingAlgorithm),
            Some(algorithm) => Ok(
                Scheduler { tasks: TaskQueue::new(), waiting: Vec::new(), clock: 0, algorithm },
            ),
        }
    }
}

} // verus!
