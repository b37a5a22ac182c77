//! The priority scheduling algorithm: drain the ready queue highest priority
//! first, hold periodic entries out until their interval elapses, re-admit
//! them when it has, and idle over the simulated clock otherwise.

use vstd::prelude::*;

use crate::model::{
    after_run, cycle_events, cycle_hold, drain_carry, drain_events, event_of, readmit_hold,
    readmit_queue, run_model, ExecEvent,
};
use crate::queue::{all_wf, Entry, TaskQueue};
use crate::scheduler::{RunReport, SchedulerAlgorithm};
use crate::task::Frequency;

verus! {

/// The priority scheduling algorithm; it keeps no state of its own.
pub struct PriorityScheduler {}

impl PriorityScheduler {
    /// A fresh instance of the algorithm.
    pub fn new() -> (r: Self)
        ensures
            r == (PriorityScheduler {}),
    {
        PriorityScheduler {}
    }
}

/// The record of `e` executing at instant `now`.
fn make_event<A: Copy>(e: &Entry<A>, now: u64) -> (r: ExecEvent<A>)
    ensures
        r == event_of(*e, now),
{
    ExecEvent {
        time: now,
        name: e.task.name.clone(),
        priority: e.task.priority,
        action: e.task.action,
    }
}

/// Moves every waiting entry whose interval has elapsed at `now` back into
/// the ready queue, keeping the rest waiting.
fn readmit_waiting<A: Copy>(tasks: &mut TaskQueue<A>, waiting: &mut Vec<Entry<A>>, now: u64)
    requires
        old(tasks).wf(),
        all_wf(old(waiting)@),
    ensures
        final(tasks).wf(),
        final(tasks)@ == readmit_queue(old(tasks)@, old(waiting)@, now),
        final(waiting)@ == readmit_hold(old(waiting)@, now),
        all_wf(final(waiting)@),
{
    let ghost q0 = tasks@;
    let ghost w0 = waiting@;
    let mut kept: Vec<Entry<A>> = Vec::new();
    while waiting.len() > 0
        invariant
            all_wf(w0),
            waiting@.len() <= w0.len(),
            waiting@ == w0.subrange(w0.len() - waiting@.len(), w0.len() as int),
            tasks.wf(),
            tasks@ == readmit_queue(q0, w0.take(w0.len() - waiting@.len()), now),
            kept@ == readmit_hold(w0.take(w0.len() - waiting@.len()), now),
            all_wf(kept@),
        decreases waiting@.len(),
    {
        let ghost i: int = w0.len() - waiting@.len();
        let e = waiting.remove(0);
        proof {
            assert(e == w0[i]);
            assert(e.wf());
            assert(waiting@ =~= w0.subrange(i + 1, w0.len() as int));
            assert(w0.take(i + 1).drop_last() =~= w0.take(i));
            assert(w0.take(i + 1).last() == w0[i]);
        }
        if e.is_eligible(now) {
            tasks.push(e);
        } else {
            kept.push(e);
        }
    }
    proof {
        assert(w0.take(w0.len() as int) =~= w0);
    }
    *waiting = kept;
}

/// Drains the ready queue front to back at instant `now`: discards executed
/// one-time entries, executes eligible entries — moving executed periodic
/// ones to the waiting set with their last-run time updated — and holds
/// entries whose interval has not yet elapsed. Returns the executions in
/// order.
fn drain_ready<A: Copy>(tasks: &mut TaskQueue<A>, waiting: &mut Vec<Entry<A>>, now: u64) -> (ev:
    Vec<ExecEvent<A>>)
    requires
        old(tasks).wf(),
        all_wf(old(waiting)@),
    ensures
        final(tasks).wf(),
        final(tasks)@ == Seq::<Entry<A>>::empty(),
        ev@ == drain_events(old(tasks)@, now),
        final(waiting)@ == old(waiting)@ + drain_carry(old(tasks)@, now),
        all_wf(final(waiting)@),
{
    let ghost q0 = tasks@;
    let ghost w0 = waiting@;
    let mut ev: Vec<ExecEvent<A>> = Vec::new();
    proof {
        assert(waiting@ =~= w0 + drain_carry(q0.take(0), now));
    }
    while !tasks.is_empty()
        invariant
            all_wf(q0),
            tasks@.len() <= q0.len(),
            tasks@ == q0.subrange(q0.len() - tasks@.len(), q0.len() as int),
            tasks.wf(),
            ev@ == drain_events(q0.take(q0.len() - tasks@.len()), now),
            waiting@ == w0 + drain_carry(q0.take(q0.len() - tasks@.len()), now),
            all_wf(waiting@),
        decreases tasks@.len(),
    {
        let ghost i: int = q0.len() - tasks@.len();
        let e = tasks.pop().unwrap();
        proof {
            assert(e == q0[i]);
            assert(e.wf());
            assert(tasks@ =~= q0.subrange(i + 1, q0.len() as int));
            assert(q0.take(i + 1).drop_last() =~= q0.take(i));
            assert(q0.take(i + 1).last() == q0[i]);
        }
        match e.task.frequency {
            Frequency::OneTime => {
                if e.executed {
                    // Already latched: discard without executing.
                    proof {
                        assert(ev@ =~= drain_events(q0.take(i + 1), now));
                        assert(waiting@ =~= w0 + drain_carry(q0.take(i + 1), now));
                    }
                } else {
                    // Executes once, latches, and is discarded.
                    let record = make_event(&e, now);
                    ev.push(record);
                    proof {
                        assert(ev@ =~= drain_events(q0.take(i + 1), now));
                        assert(waiting@ =~= w0 + drain_carry(q0.take(i + 1), now));
                    }
                }
            },
            Frequency::Periodic(_interval) => {
                if e.is_eligible(now) {
                    let record = make_event(&e, now);
                    ev.push(record);
                    let updated = Entry { last_run: Some(now), executed: e.executed, task: e.task };
                    proof {
                        assert(updated == after_run(e, now));
                        assert(updated.wf());
                    }
                    waiting.push(updated);
                    proof {
                        assert(ev@ =~= drain_events(q0.take(i + 1), now));
                        assert(waiting@ =~= w0 + drain_carry(q0.take(i + 1), now));
                    }
                } else {
                    waiting.push(e);
                    proof {
                        assert(ev@ =~= drain_events(q0.take(i + 1), now));
                        assert(waiting@ =~= w0 + drain_carry(q0.take(i + 1), now));
                    }
                }
            },
        }
    }
    proof {
        assert(q0.take(q0.len() as int) =~= q0);
        assert(tasks@ =~= Seq::<Entry<A>>::empty());
    }
    ev
}

impl<A: Copy> SchedulerAlgorithm<A> for PriorityScheduler {
    fn cycle(&self, tasks: &mut TaskQueue<A>, waiting: &mut Vec<Entry<A>>, now: u64) -> (ev: Vec<
        ExecEvent<A>,
    >) {
        readmit_waiting(tasks, waiting, now);
        drain_ready(tasks, waiting, now)
    }

    #[verifier::loop_isolation(false)]
    fn run(
        &self,
        tasks: &mut TaskQueue<A>,
        waiting: &mut Vec<Entry<A>>,
        clock: &mut u64,
        horizon: u64,
        idle: u64,
    ) -> (r: RunReport<A>) {
        let ghost q0 = tasks@;
        let ghost w0 = waiting@;
        let ghost n0: u64 = *clock;
        let mut events: Vec<ExecEvent<A>> = Vec::new();
        let mut now: u64 = *clock;
        loop
            invariant
                idle >= 1,
                horizon + idle <= u64::MAX,
                tasks.wf(),
                all_wf(waiting@),
                ({
                    let whole = run_model(q0, w0, n0, horizon, idle);
                    let left = run_model(tasks@, waiting@, now, horizon, idle);
                    &&& whole.events == events@ + left.events
                    &&& whole.finished == left.finished
                    &&& whole.pending == left.pending
                    &&& whole.clock == left.clock
                }),
            decreases horizon + idle - now,
        {
            let ghost q_pre = tasks@;
            let ghost w_pre = waiting@;
            readmit_waiting(tasks, waiting, now);
            let mut ev = drain_ready(tasks, waiting, now);
            proof {
                assert(ev@ == cycle_events(q_pre, w_pre, now));
                assert(waiting@ == cycle_hold(q_pre, w_pre, now));
            }
            events.append(&mut ev);
            if waiting.len() == 0 {
                *clock = now;
                proof {
                    let whole = run_model(q0, w0, n0, horizon, idle);
                    let left = run_model(q_pre, w_pre, now, horizon, idle);
                    assert(left.events == cycle_events(q_pre, w_pre, now));
                    assert(left.finished);
                    assert(left.pending == cycle_hold(q_pre, w_pre, now));
                    assert(left.clock == now);
                    assert(events@ =~= whole.events);
                }
                return RunReport { events, finished: true };
            }
            if now >= horizon {
                *clock = now;
                proof {
                    let whole = run_model(q0, w0, n0, horizon, idle);
                    let left = run_model(q_pre, w_pre, now, horizon, idle);
                    assert(left.events == cycle_events(q_pre, w_pre, now));
                    assert(!left.finished);
                    assert(left.pending == cycle_hold(q_pre, w_pre, now));
                    assert(left.clock == now);
                    assert(events@ =~= whole.events);
                }
                return RunReport { events, finished: false };
            }
            proof {
                let left = run_model(q_pre, w_pre, now, horizon, idle);
                let rest = run_model(
                    Seq::<Entry<A>>::empty(),
                    cycle_hold(q_pre, w_pre, now),
                    (now + idle) as u64,
                    horizon,
                    idle,
                );
                assert(left.events == cycle_events(q_pre, w_pre, now) + rest.events);
                assert(tasks@ =~= Seq::<Entry<A>>::empty());
                assert(events@ + rest.events =~= run_model(q0, w0, n0, horizon, idle).events);
            }
            now = now + idle;
        }
    }
}

} // verus!
