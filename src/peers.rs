use vstd::prelude::*;
use rand::rngs::StdRng;
use crate::conditioner::{
    ConditionDraws,
    LinkConditioner,
    conditioned,
    draws_fit,
    ingested,
    lemma_ingested_none,
    lemma_ingested_step,
    popped,
};
use crate::config::LinkConditionerConfig;
use crate::packet::Packet;
use crate::random::{draw_conditions, seeded_rng};
use crate::time_queue::{TimedEntry, due_prefix_len, lemma_due_prefix_unique};

verus! {

/// The random generator of one remote peer, which decides the fate of that
/// peer's packets alone.
pub struct PeerLink {
    pub address: u64,
    pub rng: StdRng,
}

/// The peers after a packet from `address` drew from the generator of peer
/// `i`: an existing peer, or a new one added at the end. Every other peer,
/// its generator included, stays as it was.
pub open spec fn drew_from(before: Seq<PeerLink>, after: Seq<PeerLink>, address: u64, i: int) -> bool {
    &&& 0 <= i < after.len()
    &&& after[i].address == address
    &&& forall|j: int| 0 <= j < before.len() && j != i ==> after[j] == before[j]
    &&& if i < before.len() {
        &&& before[i].address == address
        &&& after.len() == before.len()
    } else {
        &&& i == before.len()
        &&& after.len() == before.len() + 1
        &&& forall|j: int| 0 <= j < before.len() ==> before[j].address != address
    }
}

/// The packets of an optional one.
pub open spec fn option_seq(p: Option<Packet>) -> Seq<Packet> {
    match p {
        Some(x) => seq![x],
        None => Seq::empty(),
    }
}

/// Conditioning for a server's peers. Every peer draws loss and jitter from
/// a generator of its own, so no peer's traffic changes another's fate;
/// conditioned packets of all peers wait in one time queue and leave by
/// release time, and among equal release times in arrival order. Strict
/// order across peers lets no peer be passed over for one that came later.
pub struct PeerTable {
    pub conditioner: LinkConditioner<Packet>,
    pub peers: Vec<PeerLink>,
    /// The seed that the next new peer's generator gets.
    pub next_seed: u64,
}

impl PeerTable {
    /// The conditioner is well formed and each peer has its own address.
    pub open spec fn wf(&self) -> bool {
        &&& self.conditioner.wf()
        &&& forall|i: int, j: int|
            0 <= i < j < self.peers@.len() ==> self.peers@[i].address != self.peers@[j].address
    }

    /// The configuration all peers are conditioned under.
    pub open spec fn config(&self) -> LinkConditionerConfig {
        self.conditioner.config
    }

    /// The conditioned packets waiting, earliest first.
    pub open spec fn queue(&self) -> Seq<TimedEntry<Packet>> {
        self.conditioner.queue@
    }

    /// A table with no peers; peers' generators are seeded from `seed` on.
    pub fn new(config: LinkConditionerConfig, seed: u64) -> (r: PeerTable)
        requires
            config.valid(),
        ensures
            r.wf(),
            r.config() == config,
            r.queue() == Seq::<TimedEntry<Packet>>::empty(),
            r.peers@.len() == 0,
            r.next_seed == seed,
    {
        PeerTable { conditioner: LinkConditioner::new(config), peers: Vec::new(), next_seed: seed }
    }

    /// Number of peers.
    pub fn peer_count(&self) -> (r: usize)
        ensures
            r == self.peers@.len(),
    {
        self.peers.len()
    }

    /// Number of conditioned packets waiting.
    pub fn waiting(&self) -> (r: usize)
        ensures
            r == self.queue().len(),
    {
        self.conditioner.queue.len()
    }

    /// Finds the peer with `address`.
    pub fn find(&self, address: u64) -> (r: Option<usize>)
        ensures
            r matches Some(i) ==> i < self.peers@.len() && self.peers@[i as int].address == address,
            r is None ==> forall|i: int|
                0 <= i < self.peers@.len() ==> self.peers@[i].address != address,
    {
        let mut i: usize = 0;
        while i < self.peers.len()
            invariant
                i <= self.peers@.len(),
                forall|j: int| 0 <= j < i ==> self.peers@[j].address != address,
            decreases self.peers@.len() - i,
        {
            if self.peers[i].address == address {
                return Some(i);
            }
            i = i + 1;
        }
        None
    }

    /// Takes in a packet that arrived at `now`, with loss and jitter drawn
    /// from its peer's own generator; a peer seen for the first time gets
    /// one. No other peer's generator changes.
    pub fn accept(&mut self, packet: Packet, now: u64)
        requires
            old(self).wf(),
        ensures
            final(self).wf(),
            final(self).config() == old(self).config(),
            exists|d: ConditionDraws|
                draws_fit(old(self).config(), d) && final(self).queue() == #[trigger] conditioned(
                    old(self).config(),
                    old(self).queue(),
                    TimedEntry { release_at: now, item: packet },
                    d,
                ),
            exists|i: int| #[trigger] drew_from(old(self).peers@, final(self).peers@, packet.address, i),
    {
        let idx = match self.find(packet.address) {
            Some(i) => i,
            None => {
                let link = PeerLink { address: packet.address, rng: seeded_rng(self.next_seed) };
                self.next_seed = self.next_seed.wrapping_add(1);
                self.peers.push(link);
                self.peers.len() - 1
            },
        };
        let config = self.conditioner.config;
        let d = draw_conditions(&mut self.peers[idx].rng, &config);
        let ghost arrival = TimedEntry { release_at: now, item: packet };
        self.conditioner.process(packet, now, &d);
        proof {
            assert(drew_from(old(self).peers@, self.peers@, packet.address, idx as int));
            assert(draws_fit(old(self).config(), d));
            assert(self.queue() == conditioned(old(self).config(), old(self).queue(), arrival, d));
        }
    }

    /// Hands out the earliest conditioned packet, if it is due at `now`.
    pub fn next_ready(&mut self, now: u64) -> (r: Option<Packet>)
        requires
            old(self).wf(),
        ensures
            final(self).wf(),
            final(self).config() == old(self).config(),
            final(self).peers == old(self).peers,
            final(self).next_seed == old(self).next_seed,
            popped(old(self).queue(), final(self).queue(), now, r),
    {
        self.conditioner.pop_ready(now)
    }

    /// Hands out, earliest first, every conditioned packet due at `now`.
    pub fn take_due(&mut self, now: u64) -> (r: Vec<Packet>)
        requires
            old(self).wf(),
        ensures
            final(self).wf(),
            final(self).config() == old(self).config(),
            final(self).peers == old(self).peers,
            r@.len() == due_prefix_len(old(self).queue(), now),
            forall|k: int| 0 <= k < r@.len() ==> r@[k] == (#[trigger] old(self).queue()[k]).item,
            final(self).queue() == old(self).queue().subrange(
                due_prefix_len(old(self).queue(), now) as int,
                old(self).queue().len() as int,
            ),
    {
        let ghost q = self.queue();
        let mut out: Vec<Packet> = Vec::new();
        while self.conditioner.has_ready(now)
            invariant
                self.wf(),
                self.conditioner.config == old(self).conditioner.config,
                self.peers == old(self).peers,
                q == old(self).queue(),
                out@.len() <= q.len(),
                self.queue() == q.subrange(out@.len() as int, q.len() as int),
                forall|k: int| 0 <= k < out@.len() ==> out@[k] == (#[trigger] q[k]).item,
                forall|k: int| 0 <= k < out@.len() ==> (#[trigger] q[k]).release_at <= now,
            decreases self.queue().len(),
        {
            let ghost n = out@.len() as int;
            assert(self.queue()[0] == q[n]);
            match self.conditioner.pop_ready(now) {
                Some(p) => {
                    out.push(p);
                    assert(self.queue() =~= q.subrange(n + 1, q.len() as int));
                },
                None => {},
            }
        }
        proof {
            let n = out@.len() as int;
            if n < q.len() {
                assert(self.queue()[0] == q[n]);
            }
            lemma_due_prefix_unique(q, now, n);
        }
        out
    }

    /// One stage of a chain of conditioners: takes in `input`, if any,
    /// arriving at `now`, then hands out the earliest packet if it is due.
    pub fn relay(&mut self, input: Option<Packet>, now: u64) -> (r: Option<Packet>)
        requires
            old(self).wf(),
        ensures
            final(self).wf(),
            final(self).config() == old(self).config(),
            relay_step(*old(self), *final(self), input, now, r),
    {
        let ghost before = self.queue();
        let ghost config = self.config();
        proof {
            lemma_ingested_none(before, config, now);
        }
        match input {
            None => {},
            Some(p) => {
                self.accept(p, now);
                proof {
                    let d = choose|d: ConditionDraws|
                        draws_fit(config, d) && self.queue() == #[trigger] conditioned(
                            config,
                            before,
                            TimedEntry { release_at: now, item: p },
                            d,
                        );
                    lemma_ingested_step(before, before, self.queue(), config, now, Seq::<Packet>::empty(), p, d);
                    assert(Seq::<Packet>::empty().push(p) =~= option_seq(input));
                }
            },
        }
        let ghost mid = self.queue();
        let r = self.next_ready(now);
        proof {
            assert(ingested(before, mid, config, now, option_seq(input)));
        }
        r
    }

    /// Drops the generator of the peer with `address`, when its session
    /// ends; its packets already in flight still arrive.
    pub fn remove_peer(&mut self, address: u64) -> (r: bool)
        requires
            old(self).wf(),
        ensures
            final(self).wf(),
            final(self).conditioner == old(self).conditioner,
            r == (exists|i: int| 0 <= i < old(self).peers@.len() && old(self).peers@[i].address == address),
            r ==> exists|i: int|
                0 <= i < old(self).peers@.len() && #[trigger] old(self).peers@[i].address == address
                    && final(self).peers@ == old(self).peers@.remove(i),
            !r ==> final(self).peers@ == old(self).peers@,
    {
        match self.find(address) {
            None => false,
            Some(i) => {
                self.peers.remove(i);
                proof {
                    let s = self.peers@;
                    let o = old(self).peers@;
                    assert forall|a: int, b: int| 0 <= a < b < s.len() implies s[a].address != s[b].address by {
                        let oa = if a < i { a } else { a + 1 };
                        let ob = if b < i { b } else { b + 1 };
                        assert(s[a] == o[oa] && s[b] == o[ob]);
                    }
                }
                true
            },
        }
    }
}

/// One stage of a chain went from `before` to `after`: `input` arrived at
/// `now` and was conditioned, then the earliest packet left if it was due.
pub open spec fn relay_step(
    before: PeerTable,
    after: PeerTable,
    input: Option<Packet>,
    now: u64,
    out: Option<Packet>,
) -> bool {
    &&& after.config() == before.config()
    &&& exists|mid: Seq<TimedEntry<Packet>>|
        #[trigger] ingested(before.queue(), mid, before.config(), now, option_seq(input)) && popped(
            mid,
            after.queue(),
            now,
            out,
        )
}

/// The input of stage `k` of a chain: `input` for the first, the output of
/// the stage before for the others.
pub open spec fn stage_input(input: Option<Packet>, outs: Seq<Option<Packet>>, k: int) -> Option<
    Packet,
> {
    if k == 0 {
        input
    } else {
        outs[k - 1]
    }
}

/// A chain of stages went from `before` to `after`: `input` entered the
/// first stage, stage `k` handed out `outs[k]`, and each stage's output
/// entered the next.
pub open spec fn relayed(
    before: Seq<PeerTable>,
    after: Seq<PeerTable>,
    input: Option<Packet>,
    now: u64,
    outs: Seq<Option<Packet>>,
) -> bool {
    &&& after.len() == before.len()
    &&& outs.len() == before.len()
    &&& forall|k: int|
        0 <= k < before.len() ==> #[trigger] relay_step(
            before[k],
            after[k],
            stage_input(input, outs, k),
            now,
            outs[k],
        )
}

/// Passes `input`, arriving at `now`, through a chain of conditioners, the
/// first stage first: each stage takes in what the one before it handed
/// out, and what the last one hands out comes back.
pub fn relay_through(stages: &mut Vec<PeerTable>, input: Option<Packet>, now: u64) -> (r: Option<
    Packet,
>)
    requires
        forall|j: int| 0 <= j < old(stages)@.len() ==> (#[trigger] old(stages)@[j]).wf(),
    ensures
        forall|j: int| 0 <= j < final(stages)@.len() ==> (#[trigger] final(stages)@[j]).wf(),
        exists|outs: Seq<Option<Packet>>|
            #[trigger] relayed(old(stages)@, final(stages)@, input, now, outs) && r
                == stage_input(input, outs, outs.len() as int),
{
    let ghost start = stages@;
    let ghost mut outs: Seq<Option<Packet>> = Seq::empty();
    let n = stages.len();
    let mut carried = input;
    let mut i: usize = 0;
    while i < n
        invariant
            n == start.len(),
            start == old(stages)@,
            stages@.len() == n,
            i <= n,
            outs.len() == i,
            carried == stage_input(input, outs, i as int),
            forall|j: int| 0 <= j < n ==> (#[trigger] stages@[j]).wf(),
            forall|j: int| i <= j < n ==> stages@[j] == start[j],
            forall|k: int|
                0 <= k < i ==> #[trigger] relay_step(
                    start[k],
                    stages@[k],
                    stage_input(input, outs, k),
                    now,
                    outs[k],
                ),
        decreases n - i,
    {
        let ghost prev = stages@;
        let ghost before_out = carried;
        carried = stages[i].relay(carried, now);
        proof {
            let old_outs = outs;
            outs = outs.push(carried);
            assert forall|k: int|
                0 <= k < i + 1 implies #[trigger] relay_step(
                start[k],
                stages@[k],
                stage_input(input, outs, k),
                now,
                outs[k],
            ) by {
                if k < i {
                    assert(stages@[k] == prev[k]);
                    assert(outs[k] == old_outs[k]);
                    assert(stage_input(input, outs, k) == stage_input(input, old_outs, k));
                } else {
                    assert(stage_input(input, outs, k) == before_out);
                }
            }
            assert forall|j: int| 0 <= j < n implies (#[trigger] stages@[j]).wf() by {
                if j != i {
                    assert(stages@[j] == prev[j]);
                }
            }
        }
        i = i + 1;
    }
    proof {
        assert(relayed(start, stages@, input, now, outs));
    }
    carried
}

} // verus!
