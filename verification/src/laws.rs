//! The guarantees the scheduler gives, stated and proved against the model
//! in [`crate::model`]: priority order within a drain, one-time tasks
//! executing exactly once, periodic tasks never firing early, and the run
//! finishing exactly when no periodic entry remains.

use vstd::prelude::*;

use crate::model::{
    cycle_events, cycle_hold, drain_carry, drain_events, entry_carry, entry_events, event_of,
    readmit_hold, readmit_queue, run_model, ExecEvent,
};
use crate::queue::{insert_pos, pq_push, sorted_desc, Entry};
use crate::task::Frequency;

verus! {

/// How many entries of `s` satisfy `p`.
pub open spec fn count_matching<A>(s: Seq<Entry<A>>, p: spec_fn(Entry<A>) -> bool) -> int
    decreases s.len(),
{
    if s.len() == 0 {
        0
    } else {
        count_matching(s.drop_last(), p) + if p(s.last()) {
            1int
        } else {
            0int
        }
    }
}

/// How many events of `ev` carry the action handle `a`.
pub open spec fn count_action<A>(ev: Seq<ExecEvent<A>>, a: A) -> int
    decreases ev.len(),
{
    if ev.len() == 0 {
        0
    } else {
        count_action(ev.drop_last(), a) + if ev.last().action == a {
            1int
        } else {
            0int
        }
    }
}

/// The predicate holding of the entries that carry the action handle `a`.
pub open spec fn has_action<A>(a: A) -> spec_fn(Entry<A>) -> bool {
    |e: Entry<A>| e.task.action == a
}

/// The predicate holding of the periodic entries.
pub open spec fn is_periodic_entry<A>() -> spec_fn(Entry<A>) -> bool {
    |e: Entry<A>| e.is_periodic()
}

proof fn lemma_count_matching_zero<A>(s: Seq<Entry<A>>, p: spec_fn(Entry<A>) -> bool)
    ensures
        count_matching(s, p) == 0 <==> (forall|k: int| 0 <= k < s.len() ==> !p(s[k])),
        count_matching(s, p) >= 0,
    decreases s.len(),
{
    if s.len() == 0 {
    } else {
        lemma_count_matching_zero(s.drop_last(), p);
        assert(forall|k: int|
            0 <= k < s.len() - 1 ==> s.drop_last()[k] == s[k]);
        assert(s.last() == s[s.len() - 1]);
    }
}

proof fn lemma_count_matching_concat<A>(
    s: Seq<Entry<A>>,
    t: Seq<Entry<A>>,
    p: spec_fn(Entry<A>) -> bool,
)
    ensures
        count_matching(s + t, p) == count_matching(s, p) + count_matching(t, p),
    decreases t.len(),
{
    if t.len() == 0 {
        assert(s + t =~= s);
    } else {
        lemma_count_matching_concat(s, t.drop_last(), p);
        assert((s + t).drop_last() =~= s + t.drop_last());
        assert((s + t).last() == t.last());
    }
}

proof fn lemma_count_matching_push<A>(s: Seq<Entry<A>>, e: Entry<A>, p: spec_fn(Entry<A>) -> bool)
    ensures
        count_matching(s.push(e), p) == count_matching(s, p) + if p(e) {
            1int
        } else {
            0int
        },
{
    assert(s.push(e).drop_last() =~= s);
    assert(s.push(e).last() == e);
}

proof fn lemma_count_matching_insert<A>(
    s: Seq<Entry<A>>,
    i: int,
    e: Entry<A>,
    p: spec_fn(Entry<A>) -> bool,
)
    requires
        0 <= i <= s.len(),
    ensures
        count_matching(s.insert(i, e), p) == count_matching(s, p) + if p(e) {
            1int
        } else {
            0int
        },
{
    let front = s.subrange(0, i);
    let back = s.subrange(i, s.len() as int);
    assert(s.insert(i, e) == front.push(e) + back);
    lemma_count_matching_concat(front.push(e), back, p);
    lemma_count_matching_push(front, e, p);
    assert(s =~= front + back);
    lemma_count_matching_concat(front, back, p);
}

proof fn lemma_count_matching_pq_push<A>(
    s: Seq<Entry<A>>,
    e: Entry<A>,
    p: spec_fn(Entry<A>) -> bool,
)
    ensures
        count_matching(pq_push(s, e), p) == count_matching(s, p) + if p(e) {
            1int
        } else {
            0int
        },
{
    crate::queue::lemma_insert_pos_props(s, e);
    lemma_count_matching_insert(s, insert_pos(s, e), e, p);
}

proof fn lemma_count_action_zero<A>(ev: Seq<ExecEvent<A>>, a: A)
    ensures
        count_action(ev, a) == 0 <==> (forall|k: int| 0 <= k < ev.len() ==> ev[k].action != a),
        count_action(ev, a) >= 0,
    decreases ev.len(),
{
    if ev.len() == 0 {
    } else {
        lemma_count_action_zero(ev.drop_last(), a);
        assert(forall|k: int| 0 <= k < ev.len() - 1 ==> ev.drop_last()[k] == ev[k]);
        assert(ev.last() == ev[ev.len() - 1]);
    }
}

proof fn lemma_count_action_concat<A>(s: Seq<ExecEvent<A>>, t: Seq<ExecEvent<A>>, a: A)
    ensures
        count_action(s + t, a) == count_action(s, a) + count_action(t, a),
    decreases t.len(),
{
    if t.len() == 0 {
        assert(s + t =~= s);
    } else {
        lemma_count_action_concat(s, t.drop_last(), a);
        assert((s + t).drop_last() =~= s + t.drop_last());
        assert((s + t).last() == t.last());
    }
}

proof fn lemma_count_action_at_least<A>(ev: Seq<ExecEvent<A>>, a: A, i: int)
    requires
        0 <= i < ev.len(),
        ev[i].action == a,
    ensures
        count_action(ev, a) >= 1,
    decreases ev.len(),
{
    lemma_count_action_zero(ev.drop_last(), a);
    if i == ev.len() - 1 {
    } else {
        assert(ev.drop_last()[i] == ev[i]);
        lemma_count_action_at_least(ev.drop_last(), a, i);
    }
}

proof fn lemma_count_action_two<A>(ev: Seq<ExecEvent<A>>, a: A, i: int, j: int)
    requires
        0 <= i < j < ev.len(),
        ev[i].action == a,
        ev[j].action == a,
    ensures
        count_action(ev, a) >= 2,
    decreases ev.len(),
{
    if j == ev.len() - 1 {
        assert(ev.last() == ev[j]);
        assert(ev.drop_last()[i] == ev[i]);
        lemma_count_action_at_least(ev.drop_last(), a, i);
    } else {
        assert(ev.drop_last()[i] == ev[i]);
        assert(ev.drop_last()[j] == ev[j]);
        lemma_count_action_two(ev.drop_last(), a, i, j);
        lemma_count_action_zero(ev.drop_last(), a);
    }
}

// ---------------------------------------------------------------------------
// Priority order within one drain.
// ---------------------------------------------------------------------------
/// In a drain where every queued entry is ready, every entry executes, in
/// queue order.
proof fn lemma_drain_all_ready<A>(q: Seq<Entry<A>>, now: u64)
    requires
        forall|k: int| 0 <= k < q.len() ==> (#[trigger] q[k].eligible(now)) && !q[k].discardable(),
    ensures
        drain_events(q, now).len() == q.len(),
        forall|k: int| 0 <= k < q.len() ==> #[trigger] drain_events(q, now)[k] == event_of(
            q[k],
            now,
        ),
    decreases q.len(),
{
    if q.len() == 0 {
    } else {
        assert(forall|k: int| 0 <= k < q.len() - 1 ==> q.drop_last()[k] == q[k]);
        lemma_drain_all_ready(q.drop_last(), now);
        assert(q.last() == q[q.len() - 1]);
        let ev = drain_events(q, now);
        assert(ev == drain_events(q.drop_last(), now) + entry_events(q.last(), now));
        assert(entry_events(q.last(), now) == seq![event_of(q.last(), now)]);
    }
}

/// When a set of entries with pairwise distinct priorities is all ready at
/// once, a single drain cycle executes every one of them, in strictly
/// descending priority order.
pub proof fn lemma_drain_executes_in_priority_order<A>(q: Seq<Entry<A>>, now: u64)
    requires
        sorted_desc(q),
        forall|k: int| 0 <= k < q.len() ==> (#[trigger] q[k].eligible(now)) && !q[k].discardable(),
        forall|i: int, j: int|
            0 <= i < j < q.len() ==> #[trigger] q[i].prio() != #[trigger] q[j].prio(),
    ensures
        cycle_events(q, Seq::<Entry<A>>::empty(), now).len() == q.len(),
        forall|k: int|
            0 <= k < q.len() ==> #[trigger] cycle_events(q, Seq::<Entry<A>>::empty(), now)[k]
                == event_of(q[k], now),
        forall|i: int, j: int|
            0 <= i < j < q.len() ==> cycle_events(q, Seq::<Entry<A>>::empty(), now)[i]
                .priority.rank() > cycle_events(q, Seq::<Entry<A>>::empty(), now)[j]
                .priority.rank(),
{
    assert(readmit_queue(q, Seq::<Entry<A>>::empty(), now) == q);
    lemma_drain_all_ready(q, now);
    let ev = cycle_events(q, Seq::<Entry<A>>::empty(), now);
    assert forall|i: int, j: int| 0 <= i < j < q.len() implies ev[i].priority.rank()
        > ev[j].priority.rank() by {
        assert(ev[i] == event_of(q[i], now));
        assert(ev[j] == event_of(q[j], now));
        assert(q[i].prio() >= q[j].prio());
        assert(q[i].prio() != q[j].prio());
    }
}

// ---------------------------------------------------------------------------
// Termination of the run.
// ---------------------------------------------------------------------------
proof fn lemma_drain_carry_one_time<A>(q: Seq<Entry<A>>, now: u64)
    requires
        forall|k: int| 0 <= k < q.len() ==> (#[trigger] q[k].task.frequency) is OneTime,
    ensures
        drain_carry(q, now) == Seq::<Entry<A>>::empty(),
    decreases q.len(),
{
    if q.len() == 0 {
    } else {
        assert(forall|k: int| 0 <= k < q.len() - 1 ==> q.drop_last()[k] == q[k]);
        lemma_drain_carry_one_time(q.drop_last(), now);
        assert(q.last() == q[q.len() - 1]);
        assert(entry_carry(q.last(), now) == Seq::<Entry<A>>::empty());
        assert(drain_carry(q, now) =~= Seq::<Entry<A>>::empty());
    }
}

/// A task set of one-time entries only is finished after its first cycle:
/// the run terminates of itself, whatever the horizon.
pub proof fn lemma_one_time_set_finishes<A>(q: Seq<Entry<A>>, now: u64, horizon: u64, idle: u64)
    requires
        idle >= 1,
        horizon + idle <= u64::MAX,
        forall|k: int| 0 <= k < q.len() ==> (#[trigger] q[k].task.frequency) is OneTime,
    ensures
        run_model(q, Seq::<Entry<A>>::empty(), now, horizon, idle).finished,
        run_model(q, Seq::<Entry<A>>::empty(), now, horizon, idle).pending == Seq::<
            Entry<A>,
        >::empty(),
        run_model(q, Seq::<Entry<A>>::empty(), now, horizon, idle).clock == now,
{
    let w = Seq::<Entry<A>>::empty();
    assert(readmit_queue(q, w, now) == q);
    assert(readmit_hold(w, now) == Seq::<Entry<A>>::empty());
    lemma_drain_carry_one_time(q, now);
    assert(cycle_hold(q, w, now) =~= Seq::<Entry<A>>::empty());
}

proof fn lemma_drain_carry_periodic_count<A>(q: Seq<Entry<A>>, now: u64)
    ensures
        count_matching(drain_carry(q, now), is_periodic_entry()) == count_matching(
            q,
            is_periodic_entry(),
        ),
    decreases q.len(),
{
    let p = is_periodic_entry::<A>();
    if q.len() == 0 {
    } else {
        lemma_drain_carry_periodic_count(q.drop_last(), now);
        lemma_count_matching_concat(
            drain_carry(q.drop_last(), now),
            entry_carry(q.last(), now),
            p,
        );
        let e = q.last();
        if e.discardable() {
            assert(!p(e));
        } else if e.eligible(now) && e.is_periodic() {
            lemma_count_matching_push(Seq::<Entry<A>>::empty(), crate::model::after_run(e, now), p);
        } else if e.eligible(now) {
            assert(!p(e));
        } else {
            lemma_count_matching_push(Seq::<Entry<A>>::empty(), e, p);
        }
    }
}

proof fn lemma_readmit_count<A>(
    q: Seq<Entry<A>>,
    w: Seq<Entry<A>>,
    now: u64,
    p: spec_fn(Entry<A>) -> bool,
)
    ensures
        count_matching(readmit_queue(q, w, now), p) + count_matching(readmit_hold(w, now), p)
            == count_matching(q, p) + count_matching(w, p),
    decreases w.len(),
{
    if w.len() == 0 {
    } else {
        lemma_readmit_count(q, w.drop_last(), now, p);
        let e = w.last();
        if e.eligible(now) {
            lemma_count_matching_pq_push(readmit_queue(q, w.drop_last(), now), e, p);
        } else {
            lemma_count_matching_push(readmit_hold(w.drop_last(), now), e, p);
        }
    }
}

/// While a periodic entry remains — in the ready queue or waiting — the run
/// never finishes of itself: it cycles until the horizon is reached.
pub proof fn lemma_periodic_set_never_finishes<A>(
    q: Seq<Entry<A>>,
    w: Seq<Entry<A>>,
    now: u64,
    horizon: u64,
    idle: u64,
)
    requires
        idle >= 1,
        horizon + idle <= u64::MAX,
        count_matching(q, is_periodic_entry()) + count_matching(w, is_periodic_entry()) >= 1,
    ensures
        !run_model(q, w, now, horizon, idle).finished,
        count_matching(run_model(q, w, now, horizon, idle).pending, is_periodic_entry()) >= 1,
    decreases horizon + idle - now,
{
    let p = is_periodic_entry::<A>();
    let q1 = readmit_queue(q, w, now);
    let pending = cycle_hold(q, w, now);
    lemma_readmit_count(q, w, now, p);
    lemma_drain_carry_periodic_count(q1, now);
    lemma_count_matching_concat(readmit_hold(w, now), drain_carry(q1, now), p);
    assert(count_matching(pending, p) >= 1);
    assert(pending.len() > 0);
    if now >= horizon {
    } else {
        lemma_count_matching_zero(Seq::<Entry<A>>::empty(), p);
        lemma_periodic_set_never_finishes(
            Seq::<Entry<A>>::empty(),
            pending,
            (now + idle) as u64,
            horizon,
            idle,
        );
    }
}

// ---------------------------------------------------------------------------
// A one-time task executes exactly once.
// ---------------------------------------------------------------------------
proof fn lemma_drain_no_action<A>(q: Seq<Entry<A>>, now: u64, a: A)
    requires
        count_matching(q, has_action(a)) == 0,
    ensures
        count_action(drain_events(q, now), a) == 0,
        count_matching(drain_carry(q, now), has_action(a)) == 0,
    decreases q.len(),
{
    let pa = has_action::<A>(a);
    lemma_count_matching_zero(q, pa);
    if q.len() == 0 {
    } else {
        lemma_count_matching_zero(q.drop_last(), pa);
        assert(forall|k: int| 0 <= k < q.len() - 1 ==> q.drop_last()[k] == q[k]);
        lemma_drain_no_action(q.drop_last(), now, a);
        let e = q.last();
        assert(e == q[q.len() - 1]);
        assert(!pa(e));
        lemma_count_action_concat(drain_events(q.drop_last(), now), entry_events(e, now), a);
        lemma_count_action_zero(entry_events(e, now), a);
        lemma_count_matching_concat(drain_carry(q.drop_last(), now), entry_carry(e, now), pa);
        lemma_count_matching_zero(entry_carry(e, now), pa);
    }
}

proof fn lemma_drain_one_time_action<A>(q: Seq<Entry<A>>, now: u64, a: A)
    requires
        count_matching(q, has_action(a)) == 1,
        forall|k: int|
            0 <= k < q.len() ==> ((#[trigger] q[k]).task.action == a ==> q[k].task.frequency
                is OneTime && !q[k].executed),
    ensures
        count_action(drain_events(q, now), a) == 1,
        count_matching(drain_carry(q, now), has_action(a)) == 0,
    decreases q.len(),
{
    let pa = has_action::<A>(a);
    let e = q.last();
    assert(e == q[q.len() - 1]);
    assert(forall|k: int| 0 <= k < q.len() - 1 ==> q.drop_last()[k] == q[k]);
    lemma_count_action_concat(drain_events(q.drop_last(), now), entry_events(e, now), a);
    lemma_count_matching_concat(drain_carry(q.drop_last(), now), entry_carry(e, now), pa);
    if pa(e) {
        lemma_drain_no_action(q.drop_last(), now, a);
        assert(e.task.frequency is OneTime && !e.executed);
        assert(!e.discardable());
        assert(e.eligible(now));
        assert(entry_events(e, now) == seq![event_of(e, now)]);
        lemma_count_action_zero(entry_events(e, now), a);
        assert(entry_events(e, now)[0].action == a);
        lemma_count_action_at_least(entry_events(e, now), a, 0);
        assert(entry_events(e, now).drop_last() =~= Seq::<ExecEvent<A>>::empty());
        assert(entry_events(e, now).len() == 1);
        assert(entry_events(e, now).last() == event_of(e, now));
        assert(count_action(Seq::<ExecEvent<A>>::empty(), a) == 0);
        assert(count_action(entry_events(e, now), a) == 1);
        assert(entry_carry(e, now) == Seq::<Entry<A>>::empty());
    } else {
        lemma_drain_one_time_action(q.drop_last(), now, a);
        lemma_count_action_zero(entry_events(e, now), a);
        assert(forall|k: int|
            0 <= k < entry_events(e, now).len() ==> entry_events(e, now)[k].action != a);
        lemma_count_matching_zero(entry_carry(e, now), pa);
        assert(forall|k: int| 0 <= k < entry_carry(e, now).len() ==> !pa(entry_carry(e, now)[k]));
    }
}

proof fn lemma_pq_push_members<A>(s: Seq<Entry<A>>, e: Entry<A>, x: Entry<A>)
    requires
        pq_push(s, e).contains(x),
    ensures
        s.contains(x) || x == e,
{
    crate::queue::lemma_insert_pos_props(s, e);
    let p = insert_pos(s, e);
    s.insert_ensures(p, e);
    let t = pq_push(s, e);
    let i = choose|i: int| 0 <= i < t.len() && t[i] == x;
    if i < p {
        assert(s[i] == x);
    } else if i == p {
    } else {
        assert(s[i - 1] == x);
    }
}

proof fn lemma_readmit_members<A>(q: Seq<Entry<A>>, w: Seq<Entry<A>>, now: u64, x: Entry<A>)
    ensures
        readmit_queue(q, w, now).contains(x) ==> q.contains(x) || w.contains(x),
        readmit_hold(w, now).contains(x) ==> w.contains(x),
    decreases w.len(),
{
    if w.len() == 0 {
    } else {
        lemma_readmit_members(q, w.drop_last(), now, x);
        if w.drop_last().contains(x) {
            let i = choose|i: int| 0 <= i < w.drop_last().len() && w.drop_last()[i] == x;
            assert(w[i] == x);
        }
        let e = w.last();
        assert(w[w.len() - 1] == e);
        if e.eligible(now) {
            if readmit_queue(q, w, now).contains(x) {
                lemma_pq_push_members(readmit_queue(q, w.drop_last(), now), e, x);
            }
        } else {
            let h = readmit_hold(w, now);
            if h.contains(x) {
                let i = choose|i: int| 0 <= i < h.len() && h[i] == x;
                if i < h.len() - 1 {
                    assert(readmit_hold(w.drop_last(), now)[i] == x);
                }
            }
        }
    }
}

proof fn lemma_run_no_action<A>(
    q: Seq<Entry<A>>,
    w: Seq<Entry<A>>,
    now: u64,
    horizon: u64,
    idle: u64,
    a: A,
)
    requires
        idle >= 1,
        horizon + idle <= u64::MAX,
        count_matching(q, has_action(a)) == 0,
        count_matching(w, has_action(a)) == 0,
    ensures
        count_action(run_model(q, w, now, horizon, idle).events, a) == 0,
        count_matching(run_model(q, w, now, horizon, idle).pending, has_action(a)) == 0,
    decreases horizon + idle - now,
{
    let pa = has_action::<A>(a);
    let q1 = readmit_queue(q, w, now);
    let hold = readmit_hold(w, now);
    let pending = cycle_hold(q, w, now);
    lemma_readmit_count(q, w, now, pa);
    lemma_count_matching_zero(q1, pa);
    lemma_count_matching_zero(hold, pa);
    lemma_drain_no_action(q1, now, a);
    lemma_count_matching_concat(hold, drain_carry(q1, now), pa);
    if pending.len() == 0 || now >= horizon {
    } else {
        lemma_run_no_action(Seq::<Entry<A>>::empty(), pending, (now + idle) as u64, horizon, idle, a);
        lemma_count_action_concat(
            cycle_events(q, w, now),
            run_model(Seq::<Entry<A>>::empty(), pending, (now + idle) as u64, horizon, idle).events,
            a,
        );
    }
}

/// A one-time task entry executes exactly once over a whole run, however
/// many further cycles follow: here `a` is the entry's action handle, borne
/// by no other live entry.
pub proof fn lemma_one_time_executes_once<A>(
    q: Seq<Entry<A>>,
    w: Seq<Entry<A>>,
    now: u64,
    horizon: u64,
    idle: u64,
    a: A,
)
    requires
        idle >= 1,
        horizon + idle <= u64::MAX,
        count_matching(q, has_action(a)) == 1,
        count_matching(w, has_action(a)) == 0,
        forall|k: int|
            0 <= k < q.len() ==> ((#[trigger] q[k]).task.action == a ==> q[k].task.frequency
                is OneTime && !q[k].executed),
    ensures
        count_action(run_model(q, w, now, horizon, idle).events, a) == 1,
{
    let pa = has_action::<A>(a);
    let q1 = readmit_queue(q, w, now);
    let hold = readmit_hold(w, now);
    let pending = cycle_hold(q, w, now);
    lemma_readmit_count(q, w, now, pa);
    lemma_count_matching_zero(w, pa);
    lemma_count_matching_zero(hold, pa);
    assert(count_matching(hold, pa) == 0) by {
        assert forall|k: int| 0 <= k < hold.len() implies !pa(hold[k]) by {
            assert(hold.contains(hold[k]));
            lemma_readmit_members(q, w, now, hold[k]);
            let i = choose|i: int| 0 <= i < w.len() && w[i] == hold[k];
        }
    }
    assert(count_matching(q1, pa) == 1);
    assert(forall|k: int|
        0 <= k < q1.len() ==> ((#[trigger] q1[k]).task.action == a ==> q1[k].task.frequency
            is OneTime && !q1[k].executed)) by {
        assert forall|k: int|
            0 <= k < q1.len() && (#[trigger] q1[k]).task.action == a implies q1[k].task.frequency
            is OneTime && !q1[k].executed by {
            assert(q1.contains(q1[k]));
            lemma_readmit_members(q, w, now, q1[k]);
            if q.contains(q1[k]) {
                let i = choose|i: int| 0 <= i < q.len() && q[i] == q1[k];
                assert(q[i].task.action == a);
            } else {
                let i = choose|i: int| 0 <= i < w.len() && w[i] == q1[k];
                assert(pa(w[i]));
            }
        }
    }
    lemma_drain_one_time_action(q1, now, a);
    lemma_count_matching_concat(hold, drain_carry(q1, now), pa);
    if pending.len() == 0 || now >= horizon {
    } else {
        lemma_run_no_action(Seq::<Entry<A>>::empty(), pending, (now + idle) as u64, horizon, idle, a);
        lemma_count_action_concat(
            cycle_events(q, w, now),
            run_model(Seq::<Entry<A>>::empty(), pending, (now + idle) as u64, horizon, idle).events,
            a,
        );
    }
}

// ---------------------------------------------------------------------------
// A periodic task never fires before its interval has elapsed.
// ---------------------------------------------------------------------------
/// Whether a periodic entry with interval `d` that last ran at `t0` may run
/// at instant `now`.
pub open spec fn eligible_at(t0: Option<u64>, d: u64, now: u64) -> bool {
    match t0 {
        Option::None => true,
        Option::Some(t) => now >= t + d,
    }
}

proof fn lemma_drain_periodic_action<A>(q: Seq<Entry<A>>, now: u64, a: A, d: u64, t0: Option<u64>)
    requires
        forall|k: int|
            0 <= k < q.len() ==> ((#[trigger] q[k]).task.action == a ==> q[k].task.frequency
                == Frequency::Periodic(d) && q[k].last_run == t0),
    ensures
        count_matching(drain_carry(q, now), has_action(a)) == count_matching(q, has_action(a)),
        forall|k: int|
            0 <= k < drain_carry(q, now).len() ==> ((#[trigger] drain_carry(q, now)[k]).task.action
                == a ==> drain_carry(q, now)[k].task.frequency == Frequency::Periodic(d)
                && drain_carry(q, now)[k].last_run == (if eligible_at(t0, d, now) {
                Option::Some(now)
            } else {
                t0
            })),
        eligible_at(t0, d, now) ==> count_action(drain_events(q, now), a) == count_matching(
            q,
            has_action(a),
        ),
        !eligible_at(t0, d, now) ==> count_action(drain_events(q, now), a) == 0,
        forall|k: int|
            0 <= k < drain_events(q, now).len() ==> ((#[trigger] drain_events(q, now)[k]).action
                == a ==> drain_events(q, now)[k].time == now),
    decreases q.len(),
{
    let pa = has_action::<A>(a);
    if q.len() == 0 {
    } else {
        assert(forall|k: int| 0 <= k < q.len() - 1 ==> q.drop_last()[k] == q[k]);
        lemma_drain_periodic_action(q.drop_last(), now, a, d, t0);
        let e = q.last();
        assert(e == q[q.len() - 1]);
        let ev_prev = drain_events(q.drop_last(), now);
        let ca_prev = drain_carry(q.drop_last(), now);
        lemma_count_action_concat(ev_prev, entry_events(e, now), a);
        lemma_count_matching_concat(ca_prev, entry_carry(e, now), pa);
        if pa(e) {
            assert(e.task.frequency == Frequency::Periodic(d) && e.last_run == t0);
            assert(!e.discardable());
            assert(e.eligible(now) == eligible_at(t0, d, now));
            if e.eligible(now) {
                assert(entry_events(e, now) == seq![event_of(e, now)]);
                assert(entry_events(e, now).drop_last() =~= Seq::<ExecEvent<A>>::empty());
                assert(count_action(Seq::<ExecEvent<A>>::empty(), a) == 0);
                assert(count_action(entry_events(e, now), a) == 1);
                assert(entry_carry(e, now) == seq![crate::model::after_run(e, now)]);
                assert(entry_carry(e, now).drop_last() =~= Seq::<Entry<A>>::empty());
                assert(count_matching(Seq::<Entry<A>>::empty(), pa) == 0);
                assert(count_matching(entry_carry(e, now), pa) == 1);
            } else {
                assert(entry_events(e, now) == Seq::<ExecEvent<A>>::empty());
                assert(entry_carry(e, now) == seq![e]);
                assert(entry_carry(e, now).drop_last() =~= Seq::<Entry<A>>::empty());
                assert(count_matching(Seq::<Entry<A>>::empty(), pa) == 0);
                assert(count_matching(entry_carry(e, now), pa) == 1);
            }
        } else {
            lemma_count_action_zero(entry_events(e, now), a);
            assert(forall|k: int|
                0 <= k < entry_events(e, now).len() ==> entry_events(e, now)[k].action != a);
            lemma_count_matching_zero(entry_carry(e, now), pa);
            assert(forall|k: int|
                0 <= k < entry_carry(e, now).len() ==> !pa(entry_carry(e, now)[k]));
        }
    }
}

proof fn lemma_readmit_hold_not_eligible<A>(w: Seq<Entry<A>>, now: u64)
    ensures
        forall|k: int|
            0 <= k < readmit_hold(w, now).len() ==> !(#[trigger] readmit_hold(w, now)[k]).eligible(
                now,
            ),
    decreases w.len(),
{
    if w.len() == 0 {
    } else {
        lemma_readmit_hold_not_eligible(w.drop_last(), now);
        let prev = readmit_hold(w.drop_last(), now);
        if !w.last().eligible(now) {
            assert(forall|k: int|
                0 <= k < prev.len() ==> readmit_hold(w, now)[k] == prev[k]);
            assert(readmit_hold(w, now).last() == w.last());
        }
    }
}

/// A periodic task entry with interval `d` never executes twice less than
/// `d` apart, and — when it last ran at `t0` — not before `t0 + d`: here `a`
/// is the entry's action handle, borne by at most one live entry, whose
/// recorded last run is `t0`.
pub proof fn lemma_periodic_interval_respected<A>(
    q: Seq<Entry<A>>,
    w: Seq<Entry<A>>,
    now: u64,
    horizon: u64,
    idle: u64,
    a: A,
    d: u64,
    t0: Option<u64>,
)
    requires
        idle >= 1,
        horizon + idle <= u64::MAX,
        count_matching(q, has_action(a)) + count_matching(w, has_action(a)) <= 1,
        forall|k: int|
            0 <= k < q.len() ==> ((#[trigger] q[k]).task.action == a ==> q[k].task.frequency
                == Frequency::Periodic(d) && q[k].last_run == t0),
        forall|k: int|
            0 <= k < w.len() ==> ((#[trigger] w[k]).task.action == a ==> w[k].task.frequency
                == Frequency::Periodic(d) && w[k].last_run == t0),
    ensures
        ({
            let ev = run_model(q, w, now, horizon, idle).events;
            &&& (t0 is Some ==> (forall|i: int|
                0 <= i < ev.len() ==> ((#[trigger] ev[i]).action == a ==> ev[i].time >= t0->0
                    + d)))
            &&& (forall|i: int, j: int|
                0 <= i < j < ev.len() ==> ((#[trigger] ev[i]).action == a && (
                #[trigger] ev[j]).action == a ==> ev[j].time >= ev[i].time + d))
        }),
    decreases horizon + idle - now,
{
    let pa = has_action::<A>(a);
    let q1 = readmit_queue(q, w, now);
    let hold = readmit_hold(w, now);
    let pending = cycle_hold(q, w, now);
    let cyc = cycle_events(q, w, now);
    let m = run_model(q, w, now, horizon, idle);
    lemma_count_matching_zero(q, pa);
    lemma_count_matching_zero(w, pa);
    lemma_readmit_count(q, w, now, pa);
    lemma_count_matching_zero(q1, pa);
    lemma_count_matching_zero(hold, pa);
    // The entry's descriptive facts survive re-admission.
    assert forall|k: int|
        0 <= k < q1.len() && (#[trigger] q1[k]).task.action == a implies q1[k].task.frequency
        == Frequency::Periodic(d) && q1[k].last_run == t0 by {
        assert(q1.contains(q1[k]));
        lemma_readmit_members(q, w, now, q1[k]);
        if q.contains(q1[k]) {
            let i = choose|i: int| 0 <= i < q.len() && q[i] == q1[k];
            assert(q[i].task.action == a);
        } else {
            let i = choose|i: int| 0 <= i < w.len() && w[i] == q1[k];
            assert(w[i].task.action == a);
        }
    }
    assert forall|k: int|
        0 <= k < hold.len() && (#[trigger] hold[k]).task.action == a implies hold[k].task.frequency
        == Frequency::Periodic(d) && hold[k].last_run == t0 && !hold[k].eligible(now) by {
        assert(hold.contains(hold[k]));
        lemma_readmit_members(q, w, now, hold[k]);
        let i = choose|i: int| 0 <= i < w.len() && w[i] == hold[k];
        assert(w[i].task.action == a);
        lemma_readmit_hold_not_eligible(w, now);
    }
    lemma_drain_periodic_action(q1, now, a, d, t0);
    let carry = drain_carry(q1, now);
    lemma_count_matching_concat(hold, carry, pa);
    let t1 = if eligible_at(t0, d, now) {
        Option::Some(now)
    } else {
        t0
    };
    // After the cycle, every live entry bearing `a` records `t1`.
    assert forall|k: int|
        0 <= k < pending.len() && (#[trigger] pending[k]).task.action == a implies pending[
        k
    ].task.frequency == Frequency::Periodic(d) && pending[k].last_run == t1 by {
        if k < hold.len() {
            assert(pending[k] == hold[k]);
            if eligible_at(t0, d, now) {
                assert(hold[k].eligible(now) == eligible_at(t0, d, now));
            }
        } else {
            assert(pending[k] == carry[k - hold.len()]);
        }
    }
    assert(count_matching(pending, pa) <= 1);
    // Within the cycle, `a` fires at most once, always at `now`.
    assert(count_action(cyc, a) <= 1);
    assert(forall|k: int|
        0 <= k < cyc.len() ==> ((#[trigger] cyc[k]).action == a ==> cyc[k].time == now));
    if t0 is Some {
        assert forall|k: int|
            0 <= k < cyc.len() && (#[trigger] cyc[k]).action == a implies cyc[k].time >= t0->0
            + d by {
            lemma_count_action_at_least(cyc, a, k);
            assert(eligible_at(t0, d, now));
        }
    }
    if pending.len() == 0 || now >= horizon {
        assert(m.events == cyc);
        assert forall|i: int, j: int|
            0 <= i < j < m.events.len() && (#[trigger] m.events[i]).action == a && (
            #[trigger] m.events[j]).action == a implies m.events[j].time >= m.events[i].time
            + d by {
            lemma_count_action_two(cyc, a, i, j);
        }
    } else {
        let rest = run_model(Seq::<Entry<A>>::empty(), pending, (now + idle) as u64, horizon, idle);
        assert(m.events == cyc + rest.events);
        lemma_count_matching_zero(Seq::<Entry<A>>::empty(), pa);
        lemma_periodic_interval_respected(
            Seq::<Entry<A>>::empty(),
            pending,
            (now + idle) as u64,
            horizon,
            idle,
            a,
            d,
            t1,
        );
        // When `a` fired in this cycle, every later firing is at least `d`
        // after `now`.
        assert forall|i: int, j: int|
            0 <= i < j < m.events.len() && (#[trigger] m.events[i]).action == a && (
            #[trigger] m.events[j]).action == a implies m.events[j].time >= m.events[i].time
            + d by {
            if j < cyc.len() {
                lemma_count_action_two(cyc, a, i, j);
            } else if i < cyc.len() {
                assert(m.events[i] == cyc[i]);
                assert(m.events[j] == rest.events[j - cyc.len()]);
                assert(cyc[i].time == now);
                lemma_count_action_at_least(cyc, a, i);
                assert(eligible_at(t0, d, now));
                assert(t1 == Option::Some(now));
            } else {
                assert(m.events[i] == rest.events[i - cyc.len()]);
                assert(m.events[j] == rest.events[j - cyc.len()]);
            }
        }
        if t0 is Some {
            assert forall|i: int|
                0 <= i < m.events.len() && (#[trigger] m.events[i]).action == a implies m.events[
            i].time >= t0->0 + d by {
                if i < cyc.len() {
                } else {
                    assert(m.events[i] == rest.events[i - cyc.len()]);
                    if eligible_at(t0, d, now) {
                        assert(t1 == Option::Some(now));
                        assert(rest.events[i - cyc.len()].time >= now + d);
                    } else {
                        assert(t1 == t0);
                    }
                }
            }
        }
    }
}

} // verus!
