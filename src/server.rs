use vstd::prelude::*;
use crossbeam::channel::{Receiver, TryRecvError};
use std::time::Instant;
use crate::clock::{clock_now, millis_since};
use crate::config::LinkConditionerConfig;
use crate::error::SocketError;
use crate::packet::Packet;
use crate::conditioner::ConditionDraws;
use crate::config::PROBABILITY_ONE;
use crate::conditioner::{
    arrivals_at,
    conditioned,
    draws_fit,
    ingested,
    lemma_ingested_none,
    lemma_ingested_step,
    lemma_passthrough,
    lemma_total_loss,
    popped,
};
use crate::peers::{PeerTable, drew_from};
use crate::time_queue::TimedEntry;

verus! {

/// crossbeam's channel receiver, held opaque.
#[verifier::external_type_specification]
#[verifier::external_body]
#[verifier::reject_recursive_types(T)]
pub struct ExReceiver<T>(Receiver<T>);

/// What one look at a channel found.
#[derive(Clone, Debug, PartialEq, Eq)]
pub enum ChannelPoll<T> {
    /// The next message.
    Message(T),
    /// No message is waiting; more may come.
    Empty,
    /// No message is waiting and every sender is gone.
    Disconnected,
}

/// Relies on crossbeam's `Receiver::try_recv`: it returns at once, with the
/// next message, or tells an empty channel from one whose senders are all
/// gone. Which comes depends on the other side of the channel, so nothing is
/// stated of it.
#[verifier::external_body]
fn try_take<T>(rx: &Receiver<T>) -> (r: ChannelPoll<T>) {
    match rx.try_recv() {
        Ok(v) => ChannelPoll::Message(v),
        Err(TryRecvError::Empty) => ChannelPoll::Empty,
        Err(TryRecvError::Disconnected) => ChannelPoll::Disconnected,
    }
}

/// The most messages one poll moves into the conditioners. Messages beyond
/// it stay where they are and are taken by the next poll, so that a poll
/// returns in bounded time even while a sender keeps sending.
pub const MAX_INGEST_PER_POLL: usize = 4096;

/// Receives packets from the server socket.
pub trait PacketReceiverTrait {
    /// The receiver's own consistency condition, which `receive` keeps.
    spec fn receiver_wf(&self) -> bool;

    /// The error that ended the session, if one did.
    spec fn failed(&self) -> Option<SocketError>;

    /// One receive may take the receiver from `self` to `after` with result `r`.
    spec fn received(&self, after: &Self, r: Result<Option<Packet>, SocketError>) -> bool;

    /// The next packet, `Ok(None)` when none is available, or the error that
    /// ended the session, which every later call reports again.
    fn receive(&mut self) -> (r: Result<Option<Packet>, SocketError>)
        requires
            old(self).receiver_wf(),
        ensures
            final(self).receiver_wf(),
            old(self).failed() matches Some(e) ==> r == Err::<Option<Packet>, SocketError>(e),
            r matches Err(e) ==> final(self).failed() == Some(e),
            r is Ok ==> final(self).failed() is None,
            old(self).received(final(self), r),
    ;
}

/// What a receiver reports for one look at its channel, and its recorded
/// failure afterwards. A failure is reported again on every later call; a
/// channel whose senders are all gone fails the session.
pub open spec fn inbound_outcome(
    failure: Option<SocketError>,
    item: ChannelPoll<Result<Packet, SocketError>>,
) -> (Result<Option<Packet>, SocketError>, Option<SocketError>) {
    match failure {
        Some(e) => (Err(e), Some(e)),
        None => match item {
            ChannelPoll::Empty => (Ok(None), None),
            ChannelPoll::Message(Ok(p)) => (Ok(Some(p)), None),
            ChannelPoll::Message(Err(e)) => (Err(e), Some(e)),
            ChannelPoll::Disconnected => (
                Err(SocketError::SessionFailed),
                Some(SocketError::SessionFailed),
            ),
        },
    }
}

/// One conditioned poll at `now`, from the table `before` and the recorded
/// failure `failure` to `after` and `after_failure`, with result `r`.
///
/// A recorded failure is reported and nothing changes. Otherwise some
/// packets arrive and are conditioned; an error then ends the session, and
/// a success hands out the earliest conditioned packet if it is due, else
/// `Ok(None)`.
pub open spec fn conditioned_poll(
    failure: Option<SocketError>,
    before: PeerTable,
    after_failure: Option<SocketError>,
    after: PeerTable,
    now: u64,
    r: Result<Option<Packet>, SocketError>,
) -> bool {
    &&& after.config() == before.config()
    &&& match failure {
        Some(e) => r == Err::<Option<Packet>, SocketError>(e) && after == before && after_failure
            == failure,
        None => match r {
            Err(e) => after_failure == Some(e) && exists|pk: Seq<Packet>|
                #[trigger] ingested(before.queue(), after.queue(), before.config(), now, pk),
            Ok(out) => after_failure is None && exists|mid: Seq<TimedEntry<Packet>>, pk: Seq<Packet>|
                #[trigger] ingested(before.queue(), mid, before.config(), now, pk) && popped(
                    mid,
                    after.queue(),
                    now,
                    out,
                ),
        },
    }
}

/// A packet arriving at `now` was conditioned into the table: its peer drew
/// from its own generator, and the queue took the packet in under those
/// draws.
pub open spec fn took_in(before: PeerTable, after: PeerTable, p: Packet, now: u64) -> bool {
    &&& after.config() == before.config()
    &&& exists|d: ConditionDraws|
        draws_fit(before.config(), d) && after.queue() == #[trigger] conditioned(
            before.config(),
            before.queue(),
            TimedEntry { release_at: now, item: p },
            d,
        )
    &&& exists|i: int| #[trigger] drew_from(before.peers@, after.peers@, p.address, i)
}

/// Receives packets straight from the channel that the transport fills.
pub struct PacketReceiver {
    pub channel_receiver: Receiver<Result<Packet, SocketError>>,
    pub failure: Option<SocketError>,
}

impl PacketReceiver {
    /// Creates a new PacketReceiver
    pub fn new(channel_receiver: Receiver<Result<Packet, SocketError>>) -> (r: PacketReceiver)
        ensures
            r.channel_receiver == channel_receiver,
            r.failure is None,
    {
        PacketReceiver { channel_receiver, failure: None }
    }

    /// Settles one look at the channel.
    pub fn take_inbound(&mut self, item: ChannelPoll<Result<Packet, SocketError>>) -> (r: Result<
        Option<Packet>,
        SocketError,
    >)
        ensures
            (r, final(self).failure) == inbound_outcome(old(self).failure, item),
            final(self).channel_receiver == old(self).channel_receiver,
    {
        match self.failure {
            Some(e) => Err(e),
            None => match item {
                ChannelPoll::Empty => Ok(None),
                ChannelPoll::Message(Ok(p)) => Ok(Some(p)),
                ChannelPoll::Message(Err(e)) => {
                    self.failure = Some(e);
                    Err(e)
                },
                ChannelPoll::Disconnected => {
                    self.failure = Some(SocketError::SessionFailed);
                    Err(SocketError::SessionFailed)
                },
            },
        }
    }

    /// Takes the next message from the channel, without waiting.
    pub fn receive_next(&mut self) -> (r: Result<Option<Packet>, SocketError>)
        ensures
            final(self).channel_receiver == old(self).channel_receiver,
            exists|item: ChannelPoll<Result<Packet, SocketError>>|
                (r, final(self).failure) == #[trigger] inbound_outcome(old(self).failure, item),
    {
        if let Some(e) = self.failure {
            assert((Err::<Option<Packet>, SocketError>(e), self.failure) == inbound_outcome(
                self.failure,
                ChannelPoll::Empty,
            ));
            return Err(e);
        }
        let item = try_take(&self.channel_receiver);
        self.take_inbound(item)
    }

    /// Decorates this receiver with a link conditioner.
    pub fn with_link_conditioner(self, config: &LinkConditionerConfig, seed: u64) -> (r:
        LinkConditioned<PacketReceiver>)
        requires
            config.valid(),
        ensures
            r.inner == self,
            r.peers.config() == *config,
            r.peers.peers@.len() == 0,
            r.peers.queue() == Seq::<TimedEntry<Packet>>::empty(),
    {
        LinkConditioned::new(self, config, seed)
    }
}

impl PacketReceiverTrait for PacketReceiver {
    open spec fn receiver_wf(&self) -> bool {
        true
    }

    open spec fn failed(&self) -> Option<SocketError> {
        self.failure
    }

    open spec fn received(&self, after: &Self, r: Result<Option<Packet>, SocketError>) -> bool {
        &&& after.channel_receiver == self.channel_receiver
        &&& exists|item: ChannelPoll<Result<Packet, SocketError>>|
            (r, after.failure) == #[trigger] inbound_outcome(self.failure, item)
    }

    fn receive(&mut self) -> (r: Result<Option<Packet>, SocketError>) {
        self.receive_next()
    }
}

/// Receives packets from the channel through a link conditioner of each
/// peer's own.
pub struct ConditionedPacketReceiver {
    pub channel_receiver: Receiver<Result<Packet, SocketError>>,
    pub peers: PeerTable,
    pub failure: Option<SocketError>,
    pub started: Instant,
}

impl ConditionedPacketReceiver {
    pub open spec fn wf(&self) -> bool {
        self.peers.wf()
    }

    /// Creates a receiver whose peers are conditioned by
    /// `link_conditioner_config`, with generators seeded from `seed`.
    pub fn new(
        channel_receiver: Receiver<Result<Packet, SocketError>>,
        link_conditioner_config: &LinkConditionerConfig,
        seed: u64,
    ) -> (r: ConditionedPacketReceiver)
        requires
            link_conditioner_config.valid(),
        ensures
            r.channel_receiver == channel_receiver,
            r.peers.next_seed == seed,
            r.wf(),
            r.failure is None,
            r.peers.config() == *link_conditioner_config,
            r.peers.peers@.len() == 0,
            r.peers.queue() == Seq::<TimedEntry<Packet>>::empty(),
    {
        ConditionedPacketReceiver {
            channel_receiver,
            peers: PeerTable::new(*link_conditioner_config, seed),
            failure: None,
            started: clock_now(),
        }
    }

    /// Settles one look at the channel at time `now`, and says whether to
    /// look again: a packet is conditioned into the table; an empty channel
    /// ends the look; an error, or a channel whose senders are all gone,
    /// ends the session.
    pub fn settle_poll(&mut self, item: ChannelPoll<Result<Packet, SocketError>>, now: u64) -> (more:
        bool)
        requires
            old(self).wf(),
            old(self).failure is None,
        ensures
            final(self).wf(),
            final(self).channel_receiver == old(self).channel_receiver,
            final(self).started == old(self).started,
            final(self).peers.config() == old(self).peers.config(),
            item is Empty ==> !more && *final(self) == *old(self),
            item is Disconnected ==> !more && final(self).failure == Some(SocketError::SessionFailed)
                && final(self).peers == old(self).peers,
            item matches ChannelPoll::Message(Err(e)) ==> !more && final(self).failure == Some(e)
                && final(self).peers == old(self).peers,
            item matches ChannelPoll::Message(Ok(p)) ==> more && final(self).failure is None
                && took_in(old(self).peers, final(self).peers, p, now),
    {
        match item {
            ChannelPoll::Empty => false,
            ChannelPoll::Disconnected => {
                self.failure = Some(SocketError::SessionFailed);
                false
            },
            ChannelPoll::Message(Err(e)) => {
                self.failure = Some(e);
                false
            },
            ChannelPoll::Message(Ok(p)) => {
                self.peers.accept(p, now);
                true
            },
        }
    }

    /// One poll at time `now` (milliseconds since the receiver was made):
    /// moves what waits in the channel, up to `MAX_INGEST_PER_POLL` messages,
    /// into the conditioner in channel order, then hands out the earliest
    /// conditioned packet if it is due. A channel whose senders are all gone
    /// fails the session.
    pub fn receive_at(&mut self, now: u64) -> (r: Result<Option<Packet>, SocketError>)
        requires
            old(self).wf(),
        ensures
            final(self).wf(),
            final(self).channel_receiver == old(self).channel_receiver,
            final(self).started == old(self).started,
            conditioned_poll(
                old(self).failure,
                old(self).peers,
                final(self).failure,
                final(self).peers,
                now,
                r,
            ),
    {
        if let Some(e) = self.failure {
            return Err(e);
        }
        let ghost start = self.peers;
        proof {
            lemma_ingested_none(start.queue(), start.config(), now);
        }
        let mut taken: usize = 0;
        while taken < MAX_INGEST_PER_POLL
            invariant
                self.wf(),
                self.failure is None,
                old(self).failure is None,
                start == old(self).peers,
                self.channel_receiver == old(self).channel_receiver,
                self.started == old(self).started,
                self.peers.config() == start.config(),
                exists|pk: Seq<Packet>|
                    #[trigger] ingested(start.queue(), self.peers.queue(), start.config(), now, pk),
            decreases MAX_INGEST_PER_POLL - taken,
        {
            let ghost prev = self.peers;
            let ghost pk = choose|pk: Seq<Packet>|
                #[trigger] ingested(start.queue(), prev.queue(), start.config(), now, pk);
            let item = try_take(&self.channel_receiver);
            let ghost seen = item;
            if !self.settle_poll(item, now) {
                if let Some(e) = self.failure {
                    return Err(e);
                }
                break;
            }
            proof {
                if let ChannelPoll::Message(Ok(p)) = seen {
                    let d = choose|d: ConditionDraws|
                        draws_fit(start.config(), d) && self.peers.queue() == #[trigger] conditioned(
                            start.config(),
                            prev.queue(),
                            TimedEntry { release_at: now, item: p },
                            d,
                        );
                    lemma_ingested_step(start.queue(), prev.queue(), self.peers.queue(), start.config(), now, pk, p, d);
                }
            }
            taken = taken + 1;
        }
        let ghost mid = self.peers.queue();
        let out = self.peers.next_ready(now);
        proof {
            let pk = choose|pk: Seq<Packet>| #[trigger] ingested(start.queue(), mid, start.config(), now, pk);
            assert(ingested(start.queue(), mid, start.config(), now, pk) && popped(mid, self.peers.queue(), now, out));
        }
        Ok(out)
    }

    /// Milliseconds since the receiver was made.
    pub fn elapsed_millis(&self) -> (r: u64) {
        millis_since(&self.started)
    }
}

impl PacketReceiverTrait for ConditionedPacketReceiver {
    open spec fn receiver_wf(&self) -> bool {
        self.wf()
    }

    open spec fn failed(&self) -> Option<SocketError> {
        self.failure
    }

    open spec fn received(&self, after: &Self, r: Result<Option<Packet>, SocketError>) -> bool {
        &&& after.channel_receiver == self.channel_receiver
        &&& after.started == self.started
        &&& exists|now: u64|
            #[trigger] conditioned_poll(self.failure, self.peers, after.failure, after.peers, now, r)
    }

    fn receive(&mut self) -> (r: Result<Option<Packet>, SocketError>) {
        let now = self.elapsed_millis();
        self.receive_at(now)
    }
}

/// Any receiver, decorated with a link conditioner: what the inner receiver
/// yields is conditioned per peer before it is handed out. A decorated
/// receiver can be decorated again, which chains two conditioners.
pub struct LinkConditioned<S> {
    pub inner: S,
    pub peers: PeerTable,
    pub failure: Option<SocketError>,
    pub started: Instant,
}

impl<S: PacketReceiverTrait> LinkConditioned<S> {
    pub open spec fn wf(&self) -> bool {
        self.inner.receiver_wf() && self.peers.wf()
    }

    /// Decorates `inner` with conditioning under `config`, with generators
    /// seeded from `seed`.
    pub fn new(inner: S, config: &LinkConditionerConfig, seed: u64) -> (r: LinkConditioned<S>)
        requires
            config.valid(),
        ensures
            r.peers.next_seed == seed,
            r.inner == inner,
            r.peers.wf(),
            r.peers.config() == *config,
            r.peers.peers@.len() == 0,
            r.peers.queue() == Seq::<TimedEntry<Packet>>::empty(),
            r.failure is None,
    {
        LinkConditioned {
            inner,
            peers: PeerTable::new(*config, seed),
            failure: None,
            started: clock_now(),
        }
    }

    /// Settles one result of the inner receiver at time `now`, and says
    /// whether to ask again: a packet is conditioned into the table;
    /// `Ok(None)` ends the asking; an error ends the session.
    pub fn settle(&mut self, item: Result<Option<Packet>, SocketError>, now: u64) -> (more: bool)
        requires
            old(self).wf(),
            old(self).failure is None,
        ensures
            final(self).wf(),
            final(self).inner == old(self).inner,
            final(self).started == old(self).started,
            final(self).peers.config() == old(self).peers.config(),
            item == Ok::<Option<Packet>, SocketError>(None) ==> !more && *final(self) == *old(self),
            item matches Err(e) ==> !more && final(self).failure == Some(e) && final(self).peers
                == old(self).peers,
            item matches Ok(Some(p)) ==> more && final(self).failure is None && took_in(
                old(self).peers,
                final(self).peers,
                p,
                now,
            ),
    {
        match item {
            Ok(None) => false,
            Err(e) => {
                self.failure = Some(e);
                false
            },
            Ok(Some(p)) => {
                self.peers.accept(p, now);
                true
            },
        }
    }

    /// One poll at time `now` (milliseconds since decoration): what the inner
    /// receiver yields, up to `MAX_INGEST_PER_POLL` packets, goes into the
    /// conditioner in order, then the earliest conditioned packet comes out
    /// if it is due. An error of the inner receiver is reported now and on
    /// every later poll.
    pub fn receive_at(&mut self, now: u64) -> (r: Result<Option<Packet>, SocketError>)
        requires
            old(self).wf(),
        ensures
            final(self).wf(),
            final(self).started == old(self).started,
            conditioned_poll(
                old(self).failure,
                old(self).peers,
                final(self).failure,
                final(self).peers,
                now,
                r,
            ),
    {
        if let Some(e) = self.failure {
            return Err(e);
        }
        let ghost start = self.peers;
        proof {
            lemma_ingested_none(start.queue(), start.config(), now);
        }
        let mut taken: usize = 0;
        while taken < MAX_INGEST_PER_POLL
            invariant
                self.wf(),
                self.failure is None,
                old(self).failure is None,
                start == old(self).peers,
                self.started == old(self).started,
                self.peers.config() == start.config(),
                exists|pk: Seq<Packet>|
                    #[trigger] ingested(start.queue(), self.peers.queue(), start.config(), now, pk),
            decreases MAX_INGEST_PER_POLL - taken,
        {
            let ghost prev = self.peers;
            let ghost pk = choose|pk: Seq<Packet>|
                #[trigger] ingested(start.queue(), prev.queue(), start.config(), now, pk);
            let item = self.inner.receive();
            let ghost seen = item;
            if !self.settle(item, now) {
                if let Some(e) = self.failure {
                    return Err(e);
                }
                break;
            }
            proof {
                if let Ok(Some(p)) = seen {
                    let d = choose|d: ConditionDraws|
                        draws_fit(start.config(), d) && self.peers.queue() == #[trigger] conditioned(
                            start.config(),
                            prev.queue(),
                            TimedEntry { release_at: now, item: p },
                            d,
                        );
                    lemma_ingested_step(start.queue(), prev.queue(), self.peers.queue(), start.config(), now, pk, p, d);
                }
            }
            taken = taken + 1;
        }
        let ghost mid = self.peers.queue();
        let out = self.peers.next_ready(now);
        proof {
            let pk = choose|pk: Seq<Packet>| #[trigger] ingested(start.queue(), mid, start.config(), now, pk);
            assert(ingested(start.queue(), mid, start.config(), now, pk) && popped(mid, self.peers.queue(), now, out));
        }
        Ok(out)
    }

    /// Decorates this receiver once more.
    pub fn with_link_conditioner(self, config: &LinkConditionerConfig, seed: u64) -> (r:
        LinkConditioned<LinkConditioned<S>>)
        requires
            config.valid(),
        ensures
            r.inner == self,
            r.peers.config() == *config,
            r.peers.peers@.len() == 0,
            r.peers.queue() == Seq::<TimedEntry<Packet>>::empty(),
    {
        LinkConditioned::new(self, config, seed)
    }
}

impl<S: PacketReceiverTrait> PacketReceiverTrait for LinkConditioned<S> {
    open spec fn receiver_wf(&self) -> bool {
        self.wf()
    }

    open spec fn failed(&self) -> Option<SocketError> {
        self.failure
    }

    open spec fn received(&self, after: &Self, r: Result<Option<Packet>, SocketError>) -> bool {
        &&& after.started == self.started
        &&& exists|now: u64|
            #[trigger] conditioned_poll(self.failure, self.peers, after.failure, after.peers, now, r)
    }

    fn receive(&mut self) -> (r: Result<Option<Packet>, SocketError>) {
        let now = millis_since(&self.started);
        self.receive_at(now)
    }
}

/// With a loss probability of one, a conditioned poll delivers no packet
/// that arrived through it: the queue only gives up what it already held.
pub proof fn lemma_total_loss_poll(
    before: PeerTable,
    after_failure: Option<SocketError>,
    after: PeerTable,
    now: u64,
    r: Result<Option<Packet>, SocketError>,
)
    requires
        before.config().loss_probability == PROBABILITY_ONE,
        conditioned_poll(None, before, after_failure, after, now, r),
    ensures
        r matches Ok(out) ==> popped(before.queue(), after.queue(), now, out),
        r is Err ==> after.queue() == before.queue(),
        before.queue().len() == 0 ==> after.queue().len() == 0,
        before.queue().len() == 0 && r is Ok ==> r == Ok::<Option<Packet>, SocketError>(None),
{
    let cfg = before.config();
    match r {
        Ok(out) => {
            let (mid, pk) = choose|mid: Seq<TimedEntry<Packet>>, pk: Seq<Packet>|
                #[trigger] ingested(before.queue(), mid, cfg, now, pk) && popped(mid, after.queue(), now, out);
            let draws = choose|draws: Seq<ConditionDraws>|
                #![trigger crate::conditioner::conditioned_all(cfg, before.queue(), arrivals_at(now, pk), draws)]
                {
                    &&& draws.len() == pk.len()
                    &&& forall|k: int| 0 <= k < draws.len() ==> draws_fit(cfg, #[trigger] draws[k])
                    &&& mid == crate::conditioner::conditioned_all(cfg, before.queue(), arrivals_at(now, pk), draws)
                };
            lemma_total_loss(cfg, before.queue(), arrivals_at(now, pk), draws);
        },
        Err(_) => {
            let pk = choose|pk: Seq<Packet>| #[trigger] ingested(before.queue(), after.queue(), cfg, now, pk);
            let draws = choose|draws: Seq<ConditionDraws>|
                #![trigger crate::conditioner::conditioned_all(cfg, before.queue(), arrivals_at(now, pk), draws)]
                {
                    &&& draws.len() == pk.len()
                    &&& forall|k: int| 0 <= k < draws.len() ==> draws_fit(cfg, #[trigger] draws[k])
                    &&& after.queue() == crate::conditioner::conditioned_all(cfg, before.queue(), arrivals_at(now, pk), draws)
                };
            lemma_total_loss(cfg, before.queue(), arrivals_at(now, pk), draws);
        },
    }
}

/// With no loss, no latency and no jitter, a conditioned poll passes
/// packets through unchanged: when everything queued was due, the packets
/// that arrived join the back of the queue in arrival order, and the poll
/// hands out the front of that queue.
pub proof fn lemma_passthrough_poll(
    before: PeerTable,
    after_failure: Option<SocketError>,
    after: PeerTable,
    now: u64,
    r: Result<Option<Packet>, SocketError>,
)
    requires
        before.wf(),
        before.config().loss_probability == 0,
        before.config().latency == 0,
        before.config().jitter == 0,
        forall|k: int| 0 <= k < before.queue().len() ==> (#[trigger] before.queue()[k]).release_at <= now,
        conditioned_poll(None, before, after_failure, after, now, r),
    ensures
        r matches Ok(out) ==> exists|pk: Seq<Packet>|
            #[trigger] popped(before.queue() + arrivals_at(now, pk), after.queue(), now, out),
{
    let cfg = before.config();
    if let Ok(out) = r {
        let (mid, pk) = choose|mid: Seq<TimedEntry<Packet>>, pk: Seq<Packet>|
            #[trigger] ingested(before.queue(), mid, cfg, now, pk) && popped(mid, after.queue(), now, out);
        let draws = choose|draws: Seq<ConditionDraws>|
            #![trigger crate::conditioner::conditioned_all(cfg, before.queue(), arrivals_at(now, pk), draws)]
            {
                &&& draws.len() == pk.len()
                &&& forall|k: int| 0 <= k < draws.len() ==> draws_fit(cfg, #[trigger] draws[k])
                &&& mid == crate::conditioner::conditioned_all(cfg, before.queue(), arrivals_at(now, pk), draws)
            };
        let q = before.queue();
        let a = arrivals_at(now, pk);
        let all = q + a;
        assert forall|i: int, j: int| 0 <= i <= j < all.len() implies all[i].release_at <= all[j].release_at by {
            if j >= q.len() {
                assert(all[j] == a[j - q.len()]);
                if i < q.len() {
                    assert(all[i] == q[i]);
                } else {
                    assert(all[i] == a[i - q.len()]);
                }
            } else {
                assert(all[i] == q[i] && all[j] == q[j]);
            }
        }
        lemma_passthrough(cfg, q, a, draws);
        assert(popped(all, after.queue(), now, out));
    }
}

} // verus!
