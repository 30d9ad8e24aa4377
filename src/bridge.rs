use vstd::prelude::*;
use std::collections::VecDeque;
use crate::packet::Packet;

verus! {

/// An ordered hand-off queue: items enter at the tail and leave from the
/// head, in arrival order. Sharing it between contexts is left to the owner,
/// which guards each queue with its own lock.
pub struct BridgeQueue<T> {
    items: VecDeque<T>,
}

impl<T> View for BridgeQueue<T> {
    type V = Seq<T>;

    closed spec fn view(&self) -> Seq<T> {
        self.items@
    }
}

impl<T> BridgeQueue<T> {
    /// An empty queue.
    pub fn new() -> (r: BridgeQueue<T>)
        ensures
            r@ == Seq::<T>::empty(),
    {
        BridgeQueue { items: VecDeque::new() }
    }

    /// Number of items waiting.
    pub fn len(&self) -> (r: usize)
        ensures
            r == self@.len(),
    {
        self.items.len()
    }

    /// Whether no item is waiting.
    pub fn is_empty(&self) -> (r: bool)
        ensures
            r == (self@.len() == 0),
    {
        self.items.len() == 0
    }

    /// Appends `item` at the tail.
    pub fn push(&mut self, item: T)
        ensures
            final(self)@ == old(self)@.push(item),
    {
        self.items.push_back(item);
    }

    /// Removes the head, or returns `None` at once when the queue is empty.
    pub fn pop_front(&mut self) -> (r: Option<T>)
        ensures
            old(self)@.len() > 0 ==> r == Some(old(self)@[0]) && final(self)@ == old(self)@.drop_first(),
            old(self)@.len() == 0 ==> r is None && final(self)@ == old(self)@,
    {
        self.items.pop_front()
    }

    /// Removes every item, handing them out in queue order.
    pub fn take_all(&mut self) -> (r: Vec<T>)
        ensures
            r@ == old(self)@,
            final(self)@ == Seq::<T>::empty(),
    {
        let mut out: Vec<T> = Vec::new();
        let ghost s = self@;
        while self.items.len() > 0
            invariant
                s == out@ + self@,
            decreases self@.len(),
        {
            let ghost before = self@;
            match self.items.pop_front() {
                Some(x) => {
                    out.push(x);
                    assert(s == out@ + self@) by {
                        assert(before == seq![x] + self@);
                    }
                },
                None => {},
            }
        }
        assert(self@.len() == 0);
        assert(out@ == s);
        out
    }
}

/// The dropped-outgoing queue after one send attempt: a packet the transport
/// did not accept goes to its tail.
pub open spec fn after_attempt(dropped: Seq<Packet>, packet: Packet, accepted: bool) -> Seq<
    Packet,
> {
    if accepted {
        dropped
    } else {
        dropped.push(packet)
    }
}

/// The dropped-outgoing queue after a run of send attempts.
pub open spec fn after_attempts(dropped: Seq<Packet>, packets: Seq<Packet>, accepted: Seq<bool>) -> Seq<
    Packet,
>
    decreases packets.len(),
{
    if packets.len() == 0 || accepted.len() == 0 {
        dropped
    } else {
        after_attempt(
            after_attempts(dropped, packets.drop_last(), accepted.drop_last()),
            packets.last(),
            accepted.last(),
        )
    }
}

/// Settles one send attempt: a packet that the transport did not accept is
/// queued for a retry. Failure of a single packet is not reported to the
/// sender, so the result is always `Ok`.
pub fn settle_send(dropped: &mut BridgeQueue<Packet>, packet: Packet, accepted: bool) -> (r: Result<(), crate::error::SocketError>)
    ensures
        final(dropped)@ == after_attempt(old(dropped)@, packet, accepted),
        r is Ok,
{
    if !accepted {
        dropped.push(packet);
    }
    Ok(())
}

/// When every attempt in a run fails, the packets wait for their retry
/// behind what was queued before, each once and in the order sent; and when
/// every attempt succeeds, nothing more waits.
pub proof fn lemma_failed_sends_wait_in_order(
    dropped: Seq<Packet>,
    packets: Seq<Packet>,
    accepted: Seq<bool>,
)
    requires
        accepted.len() == packets.len(),
    ensures
        (forall|k: int| 0 <= k < accepted.len() ==> !accepted[k]) ==> after_attempts(
            dropped,
            packets,
            accepted,
        ) == dropped + packets,
        (forall|k: int| 0 <= k < accepted.len() ==> accepted[k]) ==> after_attempts(
            dropped,
            packets,
            accepted,
        ) == dropped,
    decreases packets.len(),
{
    if packets.len() > 0 {
        let pp = packets.drop_last();
        let pa = accepted.drop_last();
        lemma_failed_sends_wait_in_order(dropped, pp, pa);
        if forall|k: int| 0 <= k < accepted.len() ==> !accepted[k] {
            assert forall|k: int| 0 <= k < pa.len() implies !pa[k] by {
                assert(pa[k] == accepted[k]);
            }
            assert(!accepted[accepted.len() - 1]);
            assert(dropped + packets == (dropped + pp).push(packets.last()));
        }
        if forall|k: int| 0 <= k < accepted.len() ==> accepted[k] {
            assert forall|k: int| 0 <= k < pa.len() implies pa[k] by {
                assert(pa[k] == accepted[k]);
            }
            assert(accepted[accepted.len() - 1]);
        }
    }
}

/// The packets of a run of send attempts that the transport did not accept,
/// in the order sent.
pub open spec fn refused(packets: Seq<Packet>, accepted: Seq<bool>) -> Seq<Packet>
    decreases packets.len(),
{
    if packets.len() == 0 || accepted.len() == 0 {
        Seq::empty()
    } else if accepted.last() {
        refused(packets.drop_last(), accepted.drop_last())
    } else {
        refused(packets.drop_last(), accepted.drop_last()).push(packets.last())
    }
}

/// Whatever the outcomes of a run of send attempts, the packets the
/// transport refused wait behind what was queued before, each once and in
/// the order sent, and no accepted packet waits.
pub proof fn lemma_refused_sends_wait_in_order(
    dropped: Seq<Packet>,
    packets: Seq<Packet>,
    accepted: Seq<bool>,
)
    ensures
        after_attempts(dropped, packets, accepted) == dropped + refused(packets, accepted),
    decreases packets.len(),
{
    if packets.len() == 0 || accepted.len() == 0 {
        assert(dropped + Seq::<Packet>::empty() =~= dropped);
    } else {
        lemma_refused_sends_wait_in_order(dropped, packets.drop_last(), accepted.drop_last());
        let r = refused(packets.drop_last(), accepted.drop_last());
        assert((dropped + r).push(packets.last()) =~= dropped + r.push(packets.last()));
    }
}

} // verus!
