use vstd::prelude::*;
use std::collections::VecDeque;

verus! {

/// An item together with the time at which it may leave the queue.
pub struct TimedEntry<T> {
    pub release_at: u64,
    pub item: T,
}

/// Release times never decrease along the sequence.
pub open spec fn sorted_by_release<T>(s: Seq<TimedEntry<T>>) -> bool {
    forall|i: int, j: int| 0 <= i <= j < s.len() ==> s[i].release_at <= s[j].release_at
}

/// Length of the leading run of entries released at or before `t`.
pub open spec fn due_prefix_len<T>(s: Seq<TimedEntry<T>>, t: u64) -> nat
    decreases s.len(),
{
    if s.len() == 0 {
        0
    } else if s[0].release_at <= t {
        1 + due_prefix_len(s.drop_first(), t)
    } else {
        0
    }
}

/// The queue after `e` is scheduled: it goes behind every entry due no later
/// than it, so entries with equal release times keep their insertion order.
pub open spec fn scheduled<T>(s: Seq<TimedEntry<T>>, e: TimedEntry<T>) -> Seq<TimedEntry<T>> {
    s.insert(due_prefix_len(s, e.release_at) as int, e)
}

/// The queue obtained by scheduling `items` one after another into an empty one.
pub open spec fn scheduled_all<T>(items: Seq<TimedEntry<T>>) -> Seq<TimedEntry<T>>
    decreases items.len(),
{
    if items.len() == 0 {
        Seq::empty()
    } else {
        scheduled(scheduled_all(items.drop_last()), items.last())
    }
}

/// The front entry is ready at `now`.
pub open spec fn front_ready<T>(s: Seq<TimedEntry<T>>, now: u64) -> bool {
    s.len() > 0 && s[0].release_at <= now
}

/// The leading due run fits in the queue, holds only entries due at `t`,
/// and the entry after it is not due.
pub proof fn lemma_due_prefix_bounds<T>(s: Seq<TimedEntry<T>>, t: u64)
    ensures
        due_prefix_len(s, t) <= s.len(),
        forall|i: int| 0 <= i < due_prefix_len(s, t) ==> s[i].release_at <= t,
        due_prefix_len(s, t) < s.len() ==> s[due_prefix_len(s, t) as int].release_at > t,
    decreases s.len(),
{
    if s.len() > 0 && s[0].release_at <= t {
        let r = s.drop_first();
        lemma_due_prefix_bounds(r, t);
        assert forall|i: int| 0 <= i < due_prefix_len(s, t) implies s[i].release_at <= t by {
            if i > 0 {
                assert(s[i] == r[i - 1]);
            }
        }
    }
}

/// A position that splits `s` into entries due at or before `t` and a later
/// one is the length of the leading due run.
pub proof fn lemma_due_prefix_unique<T>(s: Seq<TimedEntry<T>>, t: u64, p: int)
    requires
        0 <= p <= s.len(),
        forall|i: int| 0 <= i < p ==> s[i].release_at <= t,
        p < s.len() ==> s[p].release_at > t,
    ensures
        due_prefix_len(s, t) == p,
    decreases p,
{
    if p > 0 {
        let r = s.drop_first();
        assert forall|i: int| 0 <= i < p - 1 implies r[i].release_at <= t by {
            assert(r[i] == s[i + 1]);
        }
        if p - 1 < r.len() {
            assert(r[p - 1] == s[p]);
        }
        lemma_due_prefix_unique(r, t, p - 1);
    }
}

/// Where `e` lands in a sorted queue: after the entries due at or before its
/// time, before all later ones; the queue stays sorted.
pub proof fn lemma_scheduled_position<T>(s: Seq<TimedEntry<T>>, e: TimedEntry<T>)
    requires
        sorted_by_release(s),
    ensures
        due_prefix_len(s, e.release_at) <= s.len(),
        forall|i: int|
            0 <= i < due_prefix_len(s, e.release_at) ==> s[i].release_at <= e.release_at,
        forall|i: int|
            due_prefix_len(s, e.release_at) <= i < s.len() ==> s[i].release_at > e.release_at,
        sorted_by_release(scheduled(s, e)),
        scheduled(s, e).len() == s.len() + 1,
{
    lemma_due_prefix_bounds(s, e.release_at);
    let p = due_prefix_len(s, e.release_at) as int;
    let q = scheduled(s, e);
    assert forall|i: int, j: int| 0 <= i <= j < q.len() implies q[i].release_at
        <= q[j].release_at by {
        if i < p && j == p {
        } else if i < p && j > p {
            assert(q[j] == s[j - 1]);
        } else if i == p && j > p {
            assert(q[j] == s[j - 1]);
            assert(s[p].release_at <= s[j - 1].release_at);
        } else if i > p {
            assert(q[i] == s[i - 1]);
            assert(q[j] == s[j - 1]);
        }
    }
}

/// Items leave a queue in the order of their release times, and items with
/// equal release times leave in the order in which they were scheduled.
///
/// Stated for items labelled by their insertion index: the queue built from
/// them holds each of them once, sorted by release time, and among equal
/// release times the labels increase.
pub proof fn lemma_release_order(items: Seq<TimedEntry<nat>>)
    requires
        forall|k: int| 0 <= k < items.len() ==> items[k].item == k,
    ensures
        scheduled_all(items).len() == items.len(),
        sorted_by_release(scheduled_all(items)),
        forall|k: int| 0 <= k < items.len() ==> scheduled_all(items).contains(items[k]),
        forall|i: int, j: int|
            0 <= i < j < scheduled_all(items).len() && scheduled_all(items)[i].release_at
                == scheduled_all(items)[j].release_at ==> scheduled_all(items)[i].item
                < scheduled_all(items)[j].item,
        forall|i: int|
            0 <= i < scheduled_all(items).len() ==> scheduled_all(items)[i].item < items.len(),
    decreases items.len(),
{
    if items.len() > 0 {
        let prev = items.drop_last();
        let n = (items.len() - 1) as int;
        let e = items.last();
        assert forall|k: int| 0 <= k < prev.len() implies prev[k].item == k by {
            assert(prev[k] == items[k]);
        }
        lemma_release_order(prev);
        let s = scheduled_all(prev);
        let q = scheduled_all(items);
        lemma_scheduled_position(s, e);
        let p = due_prefix_len(s, e.release_at) as int;
        assert(q == s.insert(p, e));
        assert(e.item == n);
        assert forall|k: int| 0 <= k < items.len() implies q.contains(items[k]) by {
            if k == n {
                assert(q[p] == e);
            } else {
                assert(items[k] == prev[k]);
                let w = choose|w: int| 0 <= w < s.len() && s[w] == prev[k];
                if w < p {
                    assert(q[w] == s[w]);
                } else {
                    assert(q[w + 1] == s[w]);
                }
            }
        }
        assert forall|i: int, j: int|
            0 <= i < j < q.len() && q[i].release_at == q[j].release_at implies q[i].item
            < q[j].item by {
            if j < p {
                assert(q[i] == s[i] && q[j] == s[j]);
            } else if j == p {
                assert(q[i] == s[i]);
            } else if i < p {
                assert(q[i] == s[i] && q[j] == s[j - 1]);
            } else if i == p {
                assert(q[j] == s[j - 1]);
            } else {
                assert(q[i] == s[i - 1] && q[j] == s[j - 1]);
            }
        }
        assert forall|i: int| 0 <= i < q.len() implies q[i].item < items.len() by {
            if i < p {
                assert(q[i] == s[i]);
            } else if i > p {
                assert(q[i] == s[i - 1]);
            }
        }
    }
}

/// The front entry of a sorted queue is due no later than any other, and what
/// remains after it leaves is still sorted.
pub proof fn lemma_front_is_earliest<T>(s: Seq<TimedEntry<T>>)
    requires
        sorted_by_release(s),
        s.len() > 0,
    ensures
        forall|i: int| 0 <= i < s.len() ==> s[0].release_at <= #[trigger] s[i].release_at,
        sorted_by_release(s.drop_first()),
{
    assert forall|i: int, j: int| 0 <= i <= j < s.len() - 1 implies s.drop_first()[i].release_at
        <= s.drop_first()[j].release_at by {
        assert(s.drop_first()[i] == s[i + 1]);
        assert(s.drop_first()[j] == s[j + 1]);
    }
}

/// Items held until a release time, handed out in release-time order.
///
/// The entries are kept sorted in a ring buffer, earliest first. Scheduling
/// finds the place by binary search and shifts the shorter side of the
/// buffer, which for traffic scheduled in time order is nothing; taking the
/// earliest item is a pop from the front. Entries with equal release times
/// keep their insertion order by position, so no sequence counter is needed.
pub struct TimeQueue<T> {
    entries: VecDeque<TimedEntry<T>>,
}

impl<T> View for TimeQueue<T> {
    type V = Seq<TimedEntry<T>>;

    closed spec fn view(&self) -> Seq<TimedEntry<T>> {
        self.entries@
    }
}

impl<T> TimeQueue<T> {
    /// The queue's entries are sorted by release time.
    pub open spec fn wf(&self) -> bool {
        sorted_by_release(self@)
    }

    /// An empty queue.
    pub fn new() -> (r: TimeQueue<T>)
        ensures
            r@ == Seq::<TimedEntry<T>>::empty(),
            r.wf(),
    {
        TimeQueue { entries: VecDeque::new() }
    }

    /// Number of items waiting.
    pub fn len(&self) -> (r: usize)
        ensures
            r == self@.len(),
    {
        self.entries.len()
    }

    /// Whether no item is waiting.
    pub fn is_empty(&self) -> (r: bool)
        ensures
            r == (self@.len() == 0),
    {
        self.entries.len() == 0
    }

    /// Schedules `item` for release at `release_at`; a binary search finds
    /// its place.
    pub fn schedule(&mut self, item: T, release_at: u64)
        requires
            old(self).wf(),
        ensures
            final(self)@ == scheduled(old(self)@, TimedEntry { release_at, item }),
            final(self).wf(),
    {
        let ghost s = self@;
        let mut lo: usize = 0;
        let mut hi: usize = self.entries.len();
        while lo < hi
            invariant
                self@ == s,
                sorted_by_release(s),
                0 <= lo <= hi <= s.len(),
                forall|i: int| 0 <= i < lo ==> s[i].release_at <= release_at,
                forall|i: int| hi <= i < s.len() ==> s[i].release_at > release_at,
            decreases hi - lo,
        {
            let mid = lo + (hi - lo) / 2;
            if self.entries[mid].release_at <= release_at {
                lo = mid + 1;
            } else {
                hi = mid;
            }
        }
        let e = TimedEntry { release_at, item };
        proof {
            lemma_due_prefix_unique(s, release_at, lo as int);
            lemma_scheduled_position(s, e);
        }
        self.entries.insert(lo, e);
    }

    /// Whether the earliest item is due at `now`.
    pub fn has_ready(&self, now: u64) -> (r: bool)
        ensures
            r == front_ready(self@, now),
    {
        self.entries.len() > 0 && self.entries[0].release_at <= now
    }

    /// Removes and returns the earliest item if it is due at `now`.
    pub fn pop_ready(&mut self, now: u64) -> (r: Option<T>)
        requires
            old(self).wf(),
        ensures
            final(self).wf(),
            front_ready(old(self)@, now) ==> r == Some(old(self)@[0].item) && final(self)@
                == old(self)@.drop_first(),
            !front_ready(old(self)@, now) ==> r is None && final(self)@ == old(self)@,
    {
        if self.has_ready(now) {
            proof {
                lemma_front_is_earliest(self@);
            }
            match self.entries.pop_front() {
                Some(e) => Some(e.item),
                None => None,
            }
        } else {
            None
        }
    }
}

} // verus!
