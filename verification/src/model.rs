//! The mathematical model of one scheduling cycle and of a whole run.
//!
//! A cycle at instant `now` first re-admits every waiting entry whose
//! interval has elapsed into the ready queue, then drains the queue front to
//! back: an already-executed one-time entry is discarded, an eligible entry
//! executes (its execution is recorded as an [`ExecEvent`]) and, if periodic,
//! moves to the waiting set with its last-run time updated, and an entry
//! whose interval has not yet elapsed is held back into the waiting set.
//! A run repeats cycles, advancing the clock by the idle pause whenever a
//! cycle leaves work pending, until nothing is left (a finished run) or the
//! horizon is reached.

use vstd::prelude::*;

use crate::queue::{pq_push, Entry};
use crate::task::Priority;

verus! {

/// The record of one task execution: when it ran, which task it was, and the
/// caller's handle for the executable action to invoke.
pub struct ExecEvent<A> {
    pub time: u64,
    pub name: String,
    pub priority: Priority,
    pub action: A,
}

/// The event recording that `e` executed at instant `now`.
pub open spec fn event_of<A>(e: Entry<A>, now: u64) -> ExecEvent<A> {
    ExecEvent { time: now, name: e.task.name, priority: e.task.priority, action: e.task.action }
}

/// The entry as it re-enters the waiting set after executing at `now`.
pub open spec fn after_run<A>(e: Entry<A>, now: u64) -> Entry<A> {
    Entry {
        last_run: Some(now),
        executed: e.task.frequency is OneTime || e.executed,
        ..e
    }
}

/// The events one drained entry contributes: one if it executes, none if it
/// is discarded or held.
pub open spec fn entry_events<A>(e: Entry<A>, now: u64) -> Seq<ExecEvent<A>> {
    if e.discardable() {
        Seq::empty()
    } else if e.eligible(now) {
        seq![event_of(e, now)]
    } else {
        Seq::empty()
    }
}

/// What one drained entry adds to the waiting set: an executed periodic
/// entry with its last-run time updated, a held entry unchanged, nothing for
/// a discarded or an executed one-time entry.
pub open spec fn entry_carry<A>(e: Entry<A>, now: u64) -> Seq<Entry<A>> {
    if e.discardable() {
        Seq::empty()
    } else if e.eligible(now) {
        if e.is_periodic() {
            seq![after_run(e, now)]
        } else {
            Seq::empty()
        }
    } else {
        seq![e]
    }
}

/// The executions of draining queue `q` front to back at instant `now`.
pub open spec fn drain_events<A>(q: Seq<Entry<A>>, now: u64) -> Seq<ExecEvent<A>>
    decreases q.len(),
{
    if q.len() == 0 {
        Seq::empty()
    } else {
        drain_events(q.drop_last(), now) + entry_events(q.last(), now)
    }
}

/// What draining queue `q` at instant `now` adds to the waiting set, in
/// drain order.
pub open spec fn drain_carry<A>(q: Seq<Entry<A>>, now: u64) -> Seq<Entry<A>>
    decreases q.len(),
{
    if q.len() == 0 {
        Seq::empty()
    } else {
        drain_carry(q.drop_last(), now) + entry_carry(q.last(), now)
    }
}

/// The ready queue after re-admitting, in order, every waiting entry whose
/// interval has elapsed at instant `now`.
pub open spec fn readmit_queue<A>(q: Seq<Entry<A>>, w: Seq<Entry<A>>, now: u64) -> Seq<Entry<A>>
    decreases w.len(),
{
    if w.len() == 0 {
        q
    } else {
        let prev = readmit_queue(q, w.drop_last(), now);
        if w.last().eligible(now) {
            pq_push(prev, w.last())
        } else {
            prev
        }
    }
}

/// The waiting entries still held back after re-admission at instant `now`.
pub open spec fn readmit_hold<A>(w: Seq<Entry<A>>, now: u64) -> Seq<Entry<A>>
    decreases w.len(),
{
    if w.len() == 0 {
        Seq::empty()
    } else {
        let prev = readmit_hold(w.drop_last(), now);
        if w.last().eligible(now) {
            prev
        } else {
            prev.push(w.last())
        }
    }
}

/// The executions of one full cycle — re-admission, then drain — at `now`.
pub open spec fn cycle_events<A>(q: Seq<Entry<A>>, w: Seq<Entry<A>>, now: u64) -> Seq<
    ExecEvent<A>,
> {
    drain_events(readmit_queue(q, w, now), now)
}

/// The waiting set one full cycle at `now` leaves behind; the ready queue it
/// leaves behind is always empty.
pub open spec fn cycle_hold<A>(q: Seq<Entry<A>>, w: Seq<Entry<A>>, now: u64) -> Seq<Entry<A>> {
    readmit_hold(w, now) + drain_carry(readmit_queue(q, w, now), now)
}

/// What a whole run produces: its executions in order, whether it ran out of
/// work (rather than out of simulated time), the entries still pending, and
/// the instant the clock stopped at.
pub ghost struct RunModel<A> {
    pub events: Seq<ExecEvent<A>>,
    pub finished: bool,
    pub pending: Seq<Entry<A>>,
    pub clock: u64,
}

/// The run starting from ready queue `q`, waiting set `w` and instant `now`:
/// cycle, and while entries remain pending and the horizon is not reached,
/// idle for `idle` milliseconds and cycle again.
pub open spec fn run_model<A>(
    q: Seq<Entry<A>>,
    w: Seq<Entry<A>>,
    now: u64,
    horizon: u64,
    idle: u64,
) -> RunModel<A>
    decreases horizon + idle - now,
    when idle >= 1 && horizon + idle <= u64::MAX
{
    let ev = cycle_events(q, w, now);
    let pending = cycle_hold(q, w, now);
    if pending.len() == 0 {
        RunModel { events: ev, finished: true, pending, clock: now }
    } else if now >= horizon {
        RunModel { events: ev, finished: false, pending, clock: now }
    } else {
        let rest = run_model(Seq::<Entry<A>>::empty(), pending, (now + idle) as u64, horizon, idle);
        RunModel { events: ev + rest.events, finished: rest.finished, pending: rest.pending, clock: rest.clock }
    }
}

} // verus!
