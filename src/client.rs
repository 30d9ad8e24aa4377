use vstd::prelude::*;
use crate::bridge::BridgeQueue;
use crate::error::SocketError;
use crate::packet::Packet;
use crate::conditioner::{ConditionDraws, conditioned, draws_fit, ingested, lemma_ingested_step, popped};
use crate::peers::PeerTable;
use crate::time_queue::TimedEntry;

verus! {

/// Where a client session stands once it has been established.
#[derive(Clone, Copy, Debug, PartialEq, Eq, Structural)]
pub enum SessionState {
    Open,
    /// The session failed with this error, which every later receive reports.
    Failed(SocketError),
    /// The owner closed the socket.
    Closed,
}

/// The error that a session in a terminal state reports.
pub open spec fn terminal_error(state: SessionState) -> SocketError {
    match state {
        SessionState::Failed(e) => e,
        _ => SocketError::Closed,
    }
}

/// What one poll of the inbound queue gives, and the state after it.
pub open spec fn polled(state: SessionState, inbound: Seq<Result<Packet, SocketError>>) -> (
    Result<Option<Packet>, SocketError>,
    SessionState,
    Seq<Result<Packet, SocketError>>,
) {
    if state != SessionState::Open {
        (Err(terminal_error(state)), state, inbound)
    } else if inbound.len() == 0 {
        (Ok(None), state, inbound)
    } else {
        match inbound[0] {
            Ok(p) => (Ok(Some(p)), state, inbound.drop_first()),
            Err(e) => (Err(e), SessionState::Failed(e), inbound.drop_first()),
        }
    }
}

/// The decisions of a client socket's receive cycle. The owner holds the
/// inbound queue that the transport fills and the dropped-outgoing queue that
/// senders fill, and performs the sends that a cycle asks for.
pub struct ClientSession {
    pub state: SessionState,
}

impl ClientSession {
    /// A session that has just been established.
    pub fn new() -> (r: ClientSession)
        ensures
            r.state == SessionState::Open,
    {
        ClientSession { state: SessionState::Open }
    }

    /// Tears the session down; every later operation fails with `Closed`.
    pub fn close(&mut self)
        ensures
            final(self).state == SessionState::Closed,
    {
        self.state = SessionState::Closed;
    }

    /// Whether the session still carries traffic.
    pub fn is_open(&self) -> (r: bool)
        ensures
            r == (self.state == SessionState::Open),
    {
        match self.state {
            SessionState::Open => true,
            _ => false,
        }
    }

    /// First step of a receive cycle: the packets whose send failed, in the
    /// order they were sent, each to be tried once more now. A session that
    /// is no longer open retries nothing and reports its terminal error.
    pub fn begin_receive(&self, dropped: &mut BridgeQueue<Packet>) -> (r: Result<
        Vec<Packet>,
        SocketError,
    >)
        ensures
            self.state == SessionState::Open ==> (r matches Ok(v) && v@ == old(dropped)@),
            self.state == SessionState::Open ==> final(dropped)@ == Seq::<Packet>::empty(),
            self.state != SessionState::Open ==> r == Err::<Vec<Packet>, SocketError>(
                terminal_error(self.state),
            ) && final(dropped)@ == old(dropped)@,
    {
        match self.state {
            SessionState::Open => Ok(dropped.take_all()),
            SessionState::Failed(e) => Err(e),
            SessionState::Closed => Err(SocketError::Closed),
        }
    }

    /// Last step of a receive cycle: the next inbound packet, `Ok(None)` at
    /// once when none is waiting, or the session's error. An error taken from
    /// the queue fails the session for good.
    pub fn finish_receive(&mut self, inbound: &mut BridgeQueue<Result<Packet, SocketError>>) -> (r:
        Result<Option<Packet>, SocketError>)
        ensures
            (r, final(self).state, final(inbound)@) == polled(old(self).state, old(inbound)@),
    {
        match self.state {
            SessionState::Open => {},
            SessionState::Failed(e) => {
                return Err(e);
            },
            SessionState::Closed => {
                return Err(SocketError::Closed);
            },
        }
        match inbound.pop_front() {
            None => Ok(None),
            Some(Ok(p)) => Ok(Some(p)),
            Some(Err(e)) => {
                self.state = SessionState::Failed(e);
                Err(e)
            },
        }
    }

    /// Last step of a receive cycle through a link conditioner: everything
    /// waiting inbound moves into `conditioner` in queue order, arriving at
    /// `now`; then the earliest conditioned packet comes out if it is due, or
    /// `Ok(None)`. The first error in the queue fails the session for good.
    pub fn finish_receive_conditioned(
        &mut self,
        conditioner: &mut PeerTable,
        inbound: &mut BridgeQueue<Result<Packet, SocketError>>,
        now: u64,
    ) -> (r: Result<Option<Packet>, SocketError>)
        requires
            old(conditioner).wf(),
        ensures
            final(conditioner).wf(),
            final(conditioner).config() == old(conditioner).config(),
            old(self).state != SessionState::Open ==> r == Err::<Option<Packet>, SocketError>(
                terminal_error(old(self).state),
            ) && final(self).state == old(self).state && final(inbound)@ == old(inbound)@
                && *final(conditioner) == *old(conditioner),
            old(self).state == SessionState::Open && all_ok(old(inbound)@) ==> r is Ok,
            old(self).state == SessionState::Open && !all_ok(old(inbound)@) ==> r is Err,
            old(self).state == SessionState::Open ==> (r matches Err(e) ==> first_error_is(
                old(inbound)@,
                e,
            ) && final(self).state == SessionState::Failed(e)),
            old(self).state == SessionState::Open ==> (r matches Ok(out) ==> final(self).state
                == SessionState::Open && final(inbound)@.len() == 0 && exists|
                mid: Seq<TimedEntry<Packet>>,
            |
                #[trigger] ingested(
                    old(conditioner).queue(),
                    mid,
                    old(conditioner).config(),
                    now,
                    ok_packets(old(inbound)@),
                ) && popped(mid, final(conditioner).queue(), now, out)),
    {
        match self.state {
            SessionState::Open => {},
            SessionState::Failed(e) => {
                return Err(e);
            },
            SessionState::Closed => {
                return Err(SocketError::Closed);
            },
        }
        let ghost s = inbound@;
        let ghost start = *conditioner;
        proof {
            assert(s.subrange(0, 0) =~= Seq::<Result<Packet, SocketError>>::empty());
            assert(ok_packets(s.subrange(0, 0)) =~= Seq::<Packet>::empty());
            assert(inbound@ =~= s.subrange(0, s.len() as int));
            crate::conditioner::lemma_ingested_none(start.queue(), start.config(), now);
        }
        while !inbound.is_empty()
            invariant
                conditioner.wf(),
                conditioner.config() == start.config(),
                start == *old(conditioner),
                s == old(inbound)@,
                self.state == SessionState::Open,
                old(self).state == SessionState::Open,
                inbound@.len() <= s.len(),
                inbound@ == s.subrange(s.len() - inbound@.len(), s.len() as int),
                all_ok(s.subrange(0, s.len() - inbound@.len())),
                ingested(
                    start.queue(),
                    conditioner.queue(),
                    start.config(),
                    now,
                    ok_packets(s.subrange(0, s.len() - inbound@.len())),
                ),
            decreases inbound@.len(),
        {
            let ghost done = s.len() - inbound@.len();
            let ghost prev = conditioner.queue();
            assert(inbound@[0] == s[done]);
            match inbound.pop_front() {
                None => {},
                Some(Ok(p)) => {
                    conditioner.accept(p, now);
                    proof {
                        let pk = ok_packets(s.subrange(0, done));
                        let d = choose|d: ConditionDraws|
                            draws_fit(start.config(), d) && conditioner.queue() == #[trigger] conditioned(
                                start.config(),
                                prev,
                                TimedEntry { release_at: now, item: p },
                                d,
                            );
                        lemma_ingested_step(start.queue(), prev, conditioner.queue(), start.config(), now, pk, p, d);
                        assert(ok_packets(s.subrange(0, done + 1)) =~= pk.push(p));
                        assert(inbound@ =~= s.subrange(done + 1, s.len() as int));
                        assert forall|k: int| 0 <= k < done + 1 implies (#[trigger] s.subrange(0, done + 1)[k]) is Ok by {
                            if k < done {
                                assert(s.subrange(0, done + 1)[k] == s.subrange(0, done)[k]);
                            }
                        }
                    }
                },
                Some(Err(e)) => {
                    self.state = SessionState::Failed(e);
                    proof {
                        assert(s[done] == Err::<Packet, SocketError>(e));
                        assert(first_error_is(s, e) && !all_ok(s)) by {
                            assert(s[done] is Err);
                        }
                    }
                    return Err(e);
                },
            }
        }
        let ghost mid = conditioner.queue();
        let out = conditioner.next_ready(now);
        proof {
            assert(s.subrange(0, s.len() as int) =~= s);
        }
        Ok(out)
    }
}

/// Every item of the queue is a packet.
pub open spec fn all_ok(s: Seq<Result<Packet, SocketError>>) -> bool {
    forall|k: int| 0 <= k < s.len() ==> (#[trigger] s[k]) is Ok
}

/// `e` is the first error in the queue.
pub open spec fn first_error_is(s: Seq<Result<Packet, SocketError>>, e: SocketError) -> bool {
    exists|j: int|
        0 <= j < s.len() && #[trigger] s[j] == Err::<Packet, SocketError>(e) && all_ok(
            s.subrange(0, j),
        )
}

/// The packet of a queue item; only read where the item is a packet.
pub open spec fn ok_packet(x: Result<Packet, SocketError>) -> Packet {
    match x {
        Ok(p) => p,
        Err(_) => arbitrary(),
    }
}

/// The packets of a queue whose items are all packets.
pub open spec fn ok_packets(s: Seq<Result<Packet, SocketError>>) -> Seq<Packet> {
    s.map_values(|x: Result<Packet, SocketError>| ok_packet(x))
}

/// Once a session has failed or been closed, every later poll reports the
/// same error and leaves the state and the queue as they are.
pub proof fn lemma_terminal_is_sticky(
    state: SessionState,
    inbound: Seq<Result<Packet, SocketError>>,
)
    requires
        state != SessionState::Open,
    ensures
        polled(state, inbound) == (
            Err::<Option<Packet>, SocketError>(terminal_error(state)),
            state,
            inbound,
        ),
        polled(polled(state, inbound).1, polled(state, inbound).2) == polled(state, inbound),
{
}

/// An open session with nothing waiting reports `Ok(None)` and stays open.
pub proof fn lemma_empty_poll_is_quiet(state: SessionState, inbound: Seq<Result<Packet, SocketError>>)
    requires
        state == SessionState::Open,
        inbound.len() == 0,
    ensures
        polled(state, inbound) == (Ok::<Option<Packet>, SocketError>(None), state, inbound),
{
}

} // verus!
