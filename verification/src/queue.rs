//! The task registry: live entries and the ready queue, a priority queue kept
//! as a vector sorted by descending priority. Entries of equal priority leave
//! in the order they were inserted, so neither of two tied entries is starved.

use vstd::prelude::*;

use crate::task::{Frequency, Task};

verus! {

/// A task together with its runtime state: when it last ran, and — for
/// one-time tasks — whether it has already executed.
pub struct Entry<A> {
    pub task: Task<A>,
    pub last_run: Option<u64>,
    pub executed: bool,
}

impl<A> Entry<A> {
    /// Well-formedness: the underlying task is well formed.
    pub open spec fn wf(self) -> bool {
        self.task.wf()
    }

    /// The numeric priority of the underlying task.
    pub open spec fn prio(self) -> int {
        self.task.priority.rank()
    }

    /// Whether the entry repeats.
    pub open spec fn is_periodic(self) -> bool {
        self.task.frequency is Periodic
    }

    /// A one-time entry that has already executed: it is dropped on sight and
    /// never re-admitted.
    pub open spec fn discardable(self) -> bool {
        self.task.frequency is OneTime && self.executed
    }

    /// Whether the entry may execute at instant `now`: one-time entries are
    /// ready until they have executed; a periodic entry is ready when it has
    /// never run, or its interval has elapsed since its last run.
    pub open spec fn eligible(self, now: u64) -> bool {
        match self.task.frequency {
            Frequency::OneTime => !self.executed,
            Frequency::Periodic(interval) => match self.last_run {
                Option::None => true,
                Option::Some(t) => now >= t + interval,
            },
        }
    }

    /// An entry for a task that has never run.
    pub fn fresh(task: Task<A>) -> (r: Self)
        ensures
            r == (Entry { task, last_run: None::<u64>, executed: false }),
    {
        Entry { task, last_run: None, executed: false }
    }

    /// Decides eligibility at instant `now`.
    pub fn is_eligible(&self, now: u64) -> (r: bool)
        ensures
            r == self.eligible(now),
    {
        match &self.task.frequency {
            Frequency::OneTime => !self.executed,
            Frequency::Periodic(interval) => match &self.last_run {
                Option::None => true,
                Option::Some(t) => *t <= now && now - *t >= *interval,
            },
        }
    }
}

/// All entries of a sequence are well formed.
pub open spec fn all_wf<A>(s: Seq<Entry<A>>) -> bool {
    forall|i: int| 0 <= i < s.len() ==> #[trigger] s[i].wf()
}

/// The sequence is sorted by descending priority.
pub open spec fn sorted_desc<A>(s: Seq<Entry<A>>) -> bool {
    forall|i: int, j: int| 0 <= i < j < s.len() ==> #[trigger] s[i].prio() >= #[trigger] s[j].prio()
}

/// Where [`pq_push`] places a new entry: directly after the existing entries
/// whose priority is at least as high, so that entries of equal priority come
/// out first come, first served.
pub open spec fn insert_pos<A>(s: Seq<Entry<A>>, e: Entry<A>) -> int
    decreases s.len(),
{
    if s.len() == 0 {
        0
    } else if s[0].prio() >= e.prio() {
        1 + insert_pos(s.drop_first(), e)
    } else {
        0
    }
}

/// The queue contents after inserting `e` at its position.
pub open spec fn pq_push<A>(s: Seq<Entry<A>>, e: Entry<A>) -> Seq<Entry<A>> {
    s.insert(insert_pos(s, e), e)
}

/// `insert_pos` is in bounds, every entry before it has priority at least
/// `e`'s, and the entry at it (if any) has strictly lower priority.
pub proof fn lemma_insert_pos_props<A>(s: Seq<Entry<A>>, e: Entry<A>)
    ensures
        0 <= insert_pos(s, e) <= s.len(),
        forall|j: int| 0 <= j < insert_pos(s, e) ==> #[trigger] s[j].prio() >= e.prio(),
        insert_pos(s, e) < s.len() ==> s[insert_pos(s, e)].prio() < e.prio(),
    decreases s.len(),
{
    if s.len() == 0 {
    } else if s[0].prio() >= e.prio() {
        lemma_insert_pos_props(s.drop_first(), e);
        assert forall|j: int| 0 <= j < insert_pos(s, e) implies #[trigger] s[j].prio()
            >= e.prio() by {
            if j >= 1 {
                assert(s.drop_first()[j - 1] == s[j]);
            }
        }
        if insert_pos(s, e) < s.len() {
            assert(s.drop_first()[insert_pos(s, e) - 1] == s[insert_pos(s, e)]);
        }
    } else {
    }
}

/// Any position with the same characterization is `insert_pos`.
pub proof fn lemma_insert_pos_unique<A>(s: Seq<Entry<A>>, e: Entry<A>, i: int)
    requires
        0 <= i <= s.len(),
        forall|j: int| 0 <= j < i ==> #[trigger] s[j].prio() >= e.prio(),
        i < s.len() ==> s[i].prio() < e.prio(),
    ensures
        insert_pos(s, e) == i,
    decreases s.len(),
{
    if s.len() == 0 {
    } else if s[0].prio() >= e.prio() {
        assert(i >= 1);
        assert forall|j: int| 0 <= j < i - 1 implies #[trigger] s.drop_first()[j].prio()
            >= e.prio() by {
            assert(s.drop_first()[j] == s[j + 1]);
        }
        if i - 1 < s.drop_first().len() {
            assert(s.drop_first()[i - 1] == s[i]);
        }
        lemma_insert_pos_unique(s.drop_first(), e, i - 1);
    } else {
        assert(i == 0);
    }
}

/// Pushing into a sorted sequence keeps it sorted.
pub proof fn lemma_pq_push_sorted<A>(s: Seq<Entry<A>>, e: Entry<A>)
    requires
        sorted_desc(s),
    ensures
        sorted_desc(pq_push(s, e)),
{
    lemma_insert_pos_props(s, e);
    let p = insert_pos(s, e);
    s.insert_ensures(p, e);
    let t = pq_push(s, e);
    assert forall|i: int, j: int| 0 <= i < j < t.len() implies #[trigger] t[i].prio()
        >= #[trigger] t[j].prio() by {
        if i < p {
            assert(t[i] == s[i]);
        } else if i == p {
            assert(t[i] == e);
        } else {
            assert(t[i] == s[i - 1]);
        }
        if j < p {
            assert(t[j] == s[j]);
        } else if j == p {
            assert(t[j] == e);
        } else {
            assert(t[j] == s[j - 1]);
        }
    }
}

/// The ready queue: a priority queue of entries, highest priority first.
pub struct TaskQueue<A> {
    items: Vec<Entry<A>>,
}

impl<A> View for TaskQueue<A> {
    type V = Seq<Entry<A>>;

    closed spec fn view(&self) -> Seq<Entry<A>> {
        self.items@
    }
}

impl<A> TaskQueue<A> {
    /// The queue invariant: entries sorted by descending priority, all well
    /// formed.
    pub open spec fn wf(self) -> bool {
        sorted_desc(self@) && all_wf(self@)
    }

    /// An empty queue.
    pub fn new() -> (q: Self)
        ensures
            q@ == Seq::<Entry<A>>::empty(),
            q.wf(),
    {
        TaskQueue { items: Vec::new() }
    }

    /// How many entries are queued.
    pub fn len(&self) -> (n: usize)
        ensures
            n == self@.len(),
    {
        self.items.len()
    }

    /// Whether no entry is queued.
    pub fn is_empty(&self) -> (r: bool)
        ensures
            r == (self@.len() == 0),
    {
        self.items.len() == 0
    }

    /// Inserts an entry behind all entries of its priority or higher.
    pub fn push(&mut self, e: Entry<A>)
        requires
            old(self).wf(),
            e.wf(),
        ensures
            final(self).wf(),
            final(self)@ == pq_push(old(self)@, e),
    {
        let prio: u8 = e.task.priority.level();
        let mut i: usize = 0;
        while i < self.items.len() && self.items[i].task.priority.level() >= prio
            invariant
                0 <= i <= self.items.len(),
                forall|j: int| 0 <= j < i ==> #[trigger] self.items@[j].prio() >= e.prio(),
                prio == e.prio(),
            decreases self.items.len() - i,
        {
            i = i + 1;
        }
        proof {
            lemma_insert_pos_unique(self.items@, e, i as int);
            lemma_pq_push_sorted(self.items@, e);
        }
        self.items.insert(i, e);
        proof {
            let s = old(self)@;
            let p = insert_pos(s, e);
            s.insert_ensures(p, e);
            assert forall|k: int| 0 <= k < self@.len() implies #[trigger] self@[k].wf() by {
                if k < p {
                    assert(self@[k] == s[k]);
                } else if k == p {
                    assert(self@[k] == e);
                } else {
                    assert(self@[k] == s[k - 1]);
                }
            }
        }
    }

    /// Removes and returns the frontmost — highest-priority — entry, if any.
    pub fn pop(&mut self) -> (r: Option<Entry<A>>)
        requires
            old(self).wf(),
        ensures
            final(self).wf(),
            old(self)@.len() == 0 ==> r is None && final(self)@ == old(self)@,
            old(self)@.len() > 0 ==> r == Some(old(self)@[0]) && final(self)@ == old(
                self,
            )@.drop_first(),
    {
        if self.items.len() == 0 {
            None
        } else {
            let e = self.items.remove(0);
            assert(self@ =~= old(self)@.drop_first());
            Some(e)
        }
    }
}

} // verus!
