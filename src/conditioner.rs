use vstd::prelude::*;
use crate::config::{LinkConditionerConfig, PROBABILITY_ONE};
use crate::time_queue::{
    TimeQueue,
    TimedEntry,
    scheduled,
    sorted_by_release,
    lemma_due_prefix_unique,
    front_ready,
};

verus! {

/// The random values that decide what happens to one packet.
///
/// `loss_roll` and `jitter_roll` are uniform in `[0, PROBABILITY_ONE)`;
/// `jitter_offset` is uniform in `[0, jitter]`; `jitter_up` says whether the
/// offset is added to the latency or taken from it.
#[derive(Clone, Copy, Debug, PartialEq, Eq, Structural)]
pub struct ConditionDraws {
    pub loss_roll: u32,
    pub jitter_roll: u32,
    pub jitter_offset: u32,
    pub jitter_up: bool,
}

/// The draws lie in the ranges that `config` gives them.
pub open spec fn draws_fit(config: LinkConditionerConfig, d: ConditionDraws) -> bool {
    &&& d.loss_roll < PROBABILITY_ONE
    &&& d.jitter_roll < PROBABILITY_ONE
    &&& d.jitter_offset <= config.jitter
}

/// The packet is lost: the loss draw falls under the loss probability.
pub open spec fn is_lost(config: LinkConditionerConfig, d: ConditionDraws) -> bool {
    d.loss_roll < config.loss_probability
}

/// The jitter draw falls under the jitter probability.
pub open spec fn jitter_fires(config: LinkConditionerConfig, d: ConditionDraws) -> bool {
    d.jitter_roll < config.jitter_probability
}

/// The delay of a packet that is not lost: the latency, moved by the jitter
/// offset when jitter fires, and never below zero.
pub open spec fn delay_of(config: LinkConditionerConfig, d: ConditionDraws) -> nat {
    if jitter_fires(config, d) {
        if d.jitter_up {
            (config.latency + d.jitter_offset) as nat
        } else if d.jitter_offset <= config.latency {
            (config.latency - d.jitter_offset) as nat
        } else {
            0
        }
    } else {
        config.latency as nat
    }
}

/// `now + delay`, held at the largest time where it would not fit.
pub open spec fn release_time(now: u64, delay: nat) -> u64 {
    if now + delay > u64::MAX {
        u64::MAX
    } else {
        (now + delay) as u64
    }
}

/// The queue after a packet arriving at `arrival.release_at` is conditioned.
pub open spec fn conditioned<T>(
    config: LinkConditionerConfig,
    s: Seq<TimedEntry<T>>,
    arrival: TimedEntry<T>,
    d: ConditionDraws,
) -> Seq<TimedEntry<T>> {
    if is_lost(config, d) {
        s
    } else {
        scheduled(
            s,
            TimedEntry {
                release_at: release_time(arrival.release_at, delay_of(config, d)),
                item: arrival.item,
            },
        )
    }
}

/// The queue after `arrivals` are conditioned one after another, the k-th
/// with the k-th draws.
pub open spec fn conditioned_all<T>(
    config: LinkConditionerConfig,
    s: Seq<TimedEntry<T>>,
    arrivals: Seq<TimedEntry<T>>,
    draws: Seq<ConditionDraws>,
) -> Seq<TimedEntry<T>>
    recommends
        arrivals.len() == draws.len(),
    decreases arrivals.len(),
{
    if arrivals.len() == 0 || draws.len() == 0 {
        s
    } else {
        conditioned(
            config,
            conditioned_all(config, s, arrivals.drop_last(), draws.drop_last()),
            arrivals.last(),
            draws.last(),
        )
    }
}

/// The delay given to a packet, or `None` when the packet is lost.
pub fn packet_delay(config: &LinkConditionerConfig, draws: &ConditionDraws) -> (r: Option<u64>)
    ensures
        is_lost(*config, *draws) ==> r is None,
        !is_lost(*config, *draws) ==> r == Some(delay_of(*config, *draws) as u64),
{
    if draws.loss_roll < config.loss_probability {
        None
    } else if draws.jitter_roll < config.jitter_probability {
        if draws.jitter_up {
            Some(config.latency as u64 + draws.jitter_offset as u64)
        } else if draws.jitter_offset <= config.latency {
            Some((config.latency - draws.jitter_offset) as u64)
        } else {
            Some(0)
        }
    } else {
        Some(config.latency as u64)
    }
}

/// Loss, latency and jitter applied to a stream of items.
pub struct LinkConditioner<T> {
    pub config: LinkConditionerConfig,
    pub queue: TimeQueue<T>,
}

impl<T> LinkConditioner<T> {
    /// The queue is sorted and the configuration valid.
    pub open spec fn wf(&self) -> bool {
        self.queue.wf() && self.config.valid()
    }

    /// A conditioner with nothing in flight.
    pub fn new(config: LinkConditionerConfig) -> (r: LinkConditioner<T>)
        requires
            config.valid(),
        ensures
            r.config == config,
            r.queue@ == Seq::<TimedEntry<T>>::empty(),
            r.wf(),
    {
        LinkConditioner { config, queue: TimeQueue::new() }
    }

    /// Takes in `item`, which arrives at `now`: it is dropped, or held until
    /// its delay has passed.
    pub fn process(&mut self, item: T, now: u64, draws: &ConditionDraws)
        requires
            old(self).wf(),
        ensures
            final(self).wf(),
            final(self).config == old(self).config,
            final(self).queue@ == conditioned(
                old(self).config,
                old(self).queue@,
                TimedEntry { release_at: now, item },
                *draws,
            ),
    {
        match packet_delay(&self.config, draws) {
            None => {},
            Some(delay) => {
                let release_at = if delay > u64::MAX - now {
                    u64::MAX
                } else {
                    now + delay
                };
                self.queue.schedule(item, release_at);
            },
        }
    }

    /// Whether an item is due at `now`.
    pub fn has_ready(&self, now: u64) -> (r: bool)
        ensures
            r == (self.queue@.len() > 0 && self.queue@[0].release_at <= now),
    {
        self.queue.has_ready(now)
    }

    /// Hands out the earliest item that is due at `now`, if any.
    pub fn pop_ready(&mut self, now: u64) -> (r: Option<T>)
        requires
            old(self).wf(),
        ensures
            final(self).wf(),
            final(self).config == old(self).config,
            old(self).queue@.len() > 0 && old(self).queue@[0].release_at <= now ==> r == Some(
                old(self).queue@[0].item,
            ) && final(self).queue@ == old(self).queue@.drop_first(),
            !(old(self).queue@.len() > 0 && old(self).queue@[0].release_at <= now) ==> r is None
                && final(self).queue@ == old(self).queue@,
    {
        self.queue.pop_ready(now)
    }
}

/// With no loss, no latency and no jitter, a conditioner changes nothing:
/// items that arrive in time order behind what is queued are each released
/// at their arrival time, in the order in which they arrived.
pub proof fn lemma_passthrough<T>(
    config: LinkConditionerConfig,
    s: Seq<TimedEntry<T>>,
    arrivals: Seq<TimedEntry<T>>,
    draws: Seq<ConditionDraws>,
)
    requires
        config.loss_probability == 0,
        config.latency == 0,
        config.jitter == 0,
        draws.len() == arrivals.len(),
        forall|k: int| 0 <= k < draws.len() ==> draws_fit(config, #[trigger] draws[k]),
        sorted_by_release(s + arrivals),
    ensures
        conditioned_all(config, s, arrivals, draws) == s + arrivals,
    decreases arrivals.len(),
{
    if arrivals.len() == 0 {
        assert(s + arrivals =~= s);
    } else {
        let pa = arrivals.drop_last();
        let pd = draws.drop_last();
        assert forall|k: int| 0 <= k < pd.len() implies draws_fit(config, #[trigger] pd[k]) by {
            assert(pd[k] == draws[k]);
        }
        let all = s + arrivals;
        let prev = s + pa;
        assert(prev =~= all.drop_last());
        assert forall|i: int, j: int| 0 <= i <= j < prev.len() implies prev[i].release_at
            <= prev[j].release_at by {
            assert(prev[i] == all[i] && prev[j] == all[j]);
        }
        lemma_passthrough(config, s, pa, pd);
        let d = draws.last();
        assert(draws_fit(config, draws[draws.len() - 1]));
        let e = arrivals.last();
        assert(delay_of(config, d) == 0);
        let t = e.release_at;
        assert(all[all.len() - 1] == e);
        assert forall|i: int| 0 <= i < prev.len() implies prev[i].release_at <= t by {
            assert(prev[i] == all[i]);
        }
        lemma_due_prefix_unique(prev, t, prev.len() as int);
        assert(scheduled(prev, TimedEntry { release_at: t, item: e.item }) =~= all);
    }
}

/// Items arriving together at `now`.
pub open spec fn arrivals_at<T>(now: u64, items: Seq<T>) -> Seq<TimedEntry<T>> {
    items.map_values(|x: T| TimedEntry { release_at: now, item: x })
}

/// `after` is the queue `before` once `items` arrived at `now`, one after
/// another, each with draws of its own that fit `config`.
pub open spec fn ingested<T>(
    before: Seq<TimedEntry<T>>,
    after: Seq<TimedEntry<T>>,
    config: LinkConditionerConfig,
    now: u64,
    items: Seq<T>,
) -> bool {
    exists|draws: Seq<ConditionDraws>|
        #![trigger conditioned_all(config, before, arrivals_at(now, items), draws)]
        {
            &&& draws.len() == items.len()
            &&& forall|k: int| 0 <= k < draws.len() ==> draws_fit(config, #[trigger] draws[k])
            &&& after == conditioned_all(config, before, arrivals_at(now, items), draws)
        }
}

/// What releasing from the queue `mid` at `now` gives: the front item when
/// it is due, which then leaves; otherwise nothing, and the queue stays.
pub open spec fn popped<T>(
    mid: Seq<TimedEntry<T>>,
    after: Seq<TimedEntry<T>>,
    now: u64,
    out: Option<T>,
) -> bool {
    if front_ready(mid, now) {
        out == Some(mid[0].item) && after == mid.drop_first()
    } else {
        out is None && after == mid
    }
}

/// Nothing arriving leaves the queue as it is.
pub proof fn lemma_ingested_none<T>(
    s: Seq<TimedEntry<T>>,
    config: LinkConditionerConfig,
    now: u64,
)
    ensures
        ingested(s, s, config, now, Seq::<T>::empty()),
{
    let draws = Seq::<ConditionDraws>::empty();
    assert(arrivals_at(now, Seq::<T>::empty()).len() == 0);
    assert(s == conditioned_all(config, s, arrivals_at(now, Seq::<T>::empty()), draws));
}

/// One more item conditioned extends a run of arrivals.
pub proof fn lemma_ingested_step<T>(
    before: Seq<TimedEntry<T>>,
    prev: Seq<TimedEntry<T>>,
    after: Seq<TimedEntry<T>>,
    config: LinkConditionerConfig,
    now: u64,
    items: Seq<T>,
    x: T,
    d: ConditionDraws,
)
    requires
        ingested(before, prev, config, now, items),
        draws_fit(config, d),
        after == conditioned(config, prev, TimedEntry { release_at: now, item: x }, d),
    ensures
        ingested(before, after, config, now, items.push(x)),
{
    let draws = choose|draws: Seq<ConditionDraws>|
        #![trigger conditioned_all(config, before, arrivals_at(now, items), draws)]
        {
            &&& draws.len() == items.len()
            &&& forall|k: int| 0 <= k < draws.len() ==> draws_fit(config, #[trigger] draws[k])
            &&& prev == conditioned_all(config, before, arrivals_at(now, items), draws)
        };
    let nd = draws.push(d);
    let na = arrivals_at(now, items.push(x));
    assert(na.drop_last() =~= arrivals_at(now, items));
    assert(nd.drop_last() =~= draws);
    assert(na.last() == TimedEntry { release_at: now, item: x });
    assert forall|k: int| 0 <= k < nd.len() implies draws_fit(config, #[trigger] nd[k]) by {
        if k < draws.len() {
            assert(nd[k] == draws[k]);
        }
    }
    assert(after == conditioned_all(config, before, na, nd));
}

/// With a loss probability of one, no item is ever scheduled: the queue
/// stays as it was, whatever arrives.
pub proof fn lemma_total_loss<T>(
    config: LinkConditionerConfig,
    s: Seq<TimedEntry<T>>,
    arrivals: Seq<TimedEntry<T>>,
    draws: Seq<ConditionDraws>,
)
    requires
        config.loss_probability == PROBABILITY_ONE,
        forall|k: int| 0 <= k < draws.len() ==> draws_fit(config, #[trigger] draws[k]),
    ensures
        conditioned_all(config, s, arrivals, draws) == s,
    decreases arrivals.len(),
{
    if arrivals.len() > 0 && draws.len() > 0 {
        let pd = draws.drop_last();
        assert forall|k: int| 0 <= k < pd.len() implies draws_fit(config, #[trigger] pd[k]) by {
            assert(pd[k] == draws[k]);
        }
        lemma_total_loss(config, s, arrivals.drop_last(), pd);
        assert(draws_fit(config, draws[draws.len() - 1]));
    }
}

} // verus!
