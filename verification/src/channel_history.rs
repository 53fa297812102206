//! Histories of a channel: what holds after any sequence of operations.
//!
//! A history is the order in which the operations of all the tasks took effect. Nothing
//! is said about how that order came about, so what is proved here holds however the
//! tasks were scheduled.

use crate::channel::{ChannelView, Envelope};
use vstd::prelude::*;

verus! {

/// One operation on a channel, as it took effect.
pub enum ChannelOp<T> {
    /// `sender` was cloned.
    CloneSender { sender: nat },
    /// `sender` sent `payload`.
    Send { sender: nat, payload: T },
    /// `sender` was released.
    Release { sender: nat },
    /// The receiver asked for one message.
    Receive,
    /// The receiver took all that was queued.
    Drain,
    /// The receiver was dropped.
    HangUp,
}

/// The payloads that `sender` contributed to `messages`, in their order.
pub open spec fn from_sender<T>(messages: Seq<Envelope<T>>, sender: nat) -> Seq<T>
    decreases messages.len(),
{
    if messages.len() == 0 {
        Seq::empty()
    } else {
        let earlier = from_sender(messages.drop_last(), sender);
        if messages.last().sender == sender {
            earlier.push(messages.last().payload)
        } else {
            earlier
        }
    }
}

impl<T> ChannelView<T> {
    /// Whether `op` can be made in this state: a sender acts only while it is live, the
    /// receiver only while it exists.
    pub open spec fn enabled(self, op: ChannelOp<T>) -> bool {
        match op {
            ChannelOp::CloneSender { sender } => self.senders.live.contains(sender),
            ChannelOp::Send { sender, .. } => self.senders.live.contains(sender),
            ChannelOp::Release { sender } => self.senders.live.contains(sender),
            ChannelOp::Receive => self.receiver_alive,
            ChannelOp::Drain => self.receiver_alive,
            ChannelOp::HangUp => self.receiver_alive,
        }
    }

    /// The state after `op`.
    pub open spec fn step(self, op: ChannelOp<T>) -> ChannelView<T> {
        match op {
            ChannelOp::CloneSender { .. } => self.clone_sender(),
            ChannelOp::Send { sender, payload } => self.send(sender, payload),
            ChannelOp::Release { sender } => self.release(sender),
            ChannelOp::Receive => self.receive(),
            ChannelOp::Drain => if self.receiver_alive {
                self.drain()
            } else {
                self
            },
            ChannelOp::HangUp => self.hang_up(),
        }
    }

    /// What `op`, made in this state, adds to the queue.
    pub open spec fn takes(self, op: ChannelOp<T>) -> Seq<Envelope<T>> {
        match op {
            ChannelOp::Send { sender, payload } if self.receiver_alive => seq![
                Envelope { sender, payload },
            ],
            _ => Seq::empty(),
        }
    }

    /// What `op`, made in this state, hands to the receiver.
    pub open spec fn gives(self, op: ChannelOp<T>) -> Seq<Envelope<T>> {
        match op {
            ChannelOp::Receive if self.receiver_alive && self.queue.len() > 0 => seq![
                self.queue[0],
            ],
            ChannelOp::Drain if self.receiver_alive => self.queue,
            _ => Seq::empty(),
        }
    }

    /// The state after the operations of `ops`, in their order.
    pub open spec fn run(self, ops: Seq<ChannelOp<T>>) -> ChannelView<T>
        decreases ops.len(),
    {
        if ops.len() == 0 {
            self
        } else {
            self.run(ops.drop_last()).step(ops.last())
        }
    }

    /// Whether each operation of `ops` can be made when its turn comes.
    pub open spec fn legal(self, ops: Seq<ChannelOp<T>>) -> bool
        decreases ops.len(),
    {
        ops.len() > 0 ==> self.legal(ops.drop_last()) && self.run(ops.drop_last()).enabled(
            ops.last(),
        )
    }

    /// All that was queued along `ops`, in the order in which it was queued.
    pub open spec fn accepted(self, ops: Seq<ChannelOp<T>>) -> Seq<Envelope<T>>
        decreases ops.len(),
    {
        if ops.len() == 0 {
            Seq::empty()
        } else {
            self.accepted(ops.drop_last()) + self.run(ops.drop_last()).takes(ops.last())
        }
    }

    /// All that the receiver was handed along `ops`, in the order in which it got it.
    pub open spec fn delivered(self, ops: Seq<ChannelOp<T>>) -> Seq<Envelope<T>>
        decreases ops.len(),
    {
        if ops.len() == 0 {
            Seq::empty()
        } else {
            self.delivered(ops.drop_last()) + self.run(ops.drop_last()).gives(ops.last())
        }
    }
}

/// The contribution of a sender to two runs of messages, one after the other, is its
/// contribution to the first followed by its contribution to the second.
pub proof fn lemma_from_sender_concat<T>(
    first: Seq<Envelope<T>>,
    second: Seq<Envelope<T>>,
    sender: nat,
)
    ensures
        from_sender(first + second, sender) == from_sender(first, sender) + from_sender(
            second,
            sender,
        ),
    decreases second.len(),
{
    if second.len() > 0 {
        lemma_from_sender_concat(first, second.drop_last(), sender);
        assert((first + second).drop_last() =~= first + second.drop_last());
    }
}

/// A legal history keeps a valid channel valid, and never takes back an identity.
pub proof fn lemma_run_valid<T>(start: ChannelView<T>, ops: Seq<ChannelOp<T>>)
    requires
        start.valid(),
        start.legal(ops),
    ensures
        start.run(ops).valid(),
        start.senders.minted <= start.run(ops).senders.minted,
    decreases ops.len(),
{
    if ops.len() > 0 {
        lemma_run_valid(start, ops.drop_last());
    }
}

/// Nothing is lost, doubled or reordered on its way through the channel: what the
/// receiver was handed is the front of what was queued, in the same order, and while the
/// receiver exists the rest of it is exactly what still waits in the queue.
pub proof fn lemma_delivery_follows_queue_order<T>(start: ChannelView<T>, ops: Seq<ChannelOp<T>>)
    ensures
        start.delivered(ops).is_prefix_of(start.queue + start.accepted(ops)),
        start.run(ops).receiver_alive ==> start.delivered(ops) + start.run(ops).queue
            == start.queue + start.accepted(ops),
        !start.receiver_alive ==> !start.run(ops).receiver_alive,
    decreases ops.len(),
{
    if ops.len() > 0 {
        let earlier = ops.drop_last();
        let before = start.run(earlier);
        lemma_delivery_follows_queue_order(start, earlier);
        if start.run(ops).receiver_alive {
            assert(start.delivered(ops) + start.run(ops).queue =~= start.delivered(earlier)
                + before.queue + before.takes(ops.last()));
        }
    }
}

/// The messages of one sender reach the receiver in the order in which that sender sent
/// them: what the receiver got from it is the front of what it queued. While the
/// receiver exists, what is missing from that front is what still waits in the queue.
pub proof fn lemma_fifo_per_sender<T>(start: ChannelView<T>, ops: Seq<ChannelOp<T>>, sender: nat)
    ensures
        from_sender(start.delivered(ops), sender).is_prefix_of(
            from_sender(start.queue, sender) + from_sender(start.accepted(ops), sender),
        ),
        start.run(ops).receiver_alive ==> from_sender(start.delivered(ops), sender) + from_sender(
            start.run(ops).queue,
            sender,
        ) == from_sender(start.queue, sender) + from_sender(start.accepted(ops), sender),
{
    let all = start.queue + start.accepted(ops);
    let got = start.delivered(ops);
    lemma_delivery_follows_queue_order(start, ops);
    let rest = all.subrange(got.len() as int, all.len() as int);
    assert(got + rest =~= all);
    lemma_from_sender_concat(got, rest, sender);
    lemma_from_sender_concat(start.queue, start.accepted(ops), sender);
    if start.run(ops).receiver_alive {
        lemma_from_sender_concat(got, start.run(ops).queue, sender);
    }
}

/// Whether some operation of `ops` released sender `id`.
pub open spec fn releases<T>(ops: Seq<ChannelOp<T>>, id: nat) -> bool {
    exists|k: int|
        0 <= k < ops.len() && #[trigger] ops[k] == (ChannelOp::<T>::Release { sender: id })
}

impl<T> ChannelView<T> {
    /// Whether `id` was a sender of this channel at the start of `ops` or became one by
    /// a clone made along `ops`.
    pub open spec fn ever_had_sender(self, ops: Seq<ChannelOp<T>>, id: nat) -> bool {
        self.senders.live.contains(id) || self.senders.minted <= id < self.run(
            ops,
        ).senders.minted
    }
}

proof fn lemma_releases_last<T>(ops: Seq<ChannelOp<T>>, id: nat)
    requires
        ops.len() > 0,
    ensures
        releases(ops, id) <==> releases(ops.drop_last(), id) || ops.last() == (ChannelOp::<
            T,
        >::Release { sender: id }),
{
    let earlier = ops.drop_last();
    if releases(ops, id) {
        let k = choose|k: int|
            0 <= k < ops.len() && #[trigger] ops[k] == (ChannelOp::<T>::Release { sender: id });
        if k < earlier.len() {
            assert(earlier[k] == ops[k]);
        }
    }
    if releases(earlier, id) {
        let k = choose|k: int|
            0 <= k < earlier.len() && #[trigger] earlier[k] == (ChannelOp::<T>::Release {
                sender: id,
            });
        assert(ops[k] == earlier[k]);
    }
    if ops.last() == (ChannelOp::<T>::Release { sender: id }) {
        assert(ops[ops.len() - 1] == ops.last());
    }
}

/// After a legal history a sender is live exactly if the channel ever had it and no
/// operation released it.
pub proof fn lemma_live_until_released<T>(start: ChannelView<T>, ops: Seq<ChannelOp<T>>)
    requires
        start.valid(),
        start.legal(ops),
    ensures
        forall|id: nat| #[trigger]
            start.run(ops).senders.live.contains(id) <==> start.ever_had_sender(ops, id)
                && !releases(ops, id),
        forall|id: nat| #[trigger] releases(ops, id) ==> id < start.run(ops).senders.minted,
    decreases ops.len(),
{
    if ops.len() == 0 {
        assert forall|id: nat| !#[trigger] releases(ops, id) by {}
    } else {
        let earlier = ops.drop_last();
        let after = start.run(ops);
        lemma_live_until_released(start, earlier);
        lemma_run_valid(start, earlier);
        assert forall|id: nat| #[trigger] releases(ops, id) implies id
            < after.senders.minted by {
            lemma_releases_last(ops, id);
        }
        assert forall|id: nat| #[trigger]
            after.senders.live.contains(id) <==> start.ever_had_sender(ops, id) && !releases(
                ops,
                id,
            ) by {
            lemma_releases_last(ops, id);
        }
    }
}

/// A channel is closed after a legal history exactly if every sender it ever had, those
/// of the start and each clone made since, was released along the way. One sender that
/// nobody released keeps it open.
pub proof fn lemma_closed_iff_every_sender_released<T>(
    start: ChannelView<T>,
    ops: Seq<ChannelOp<T>>,
)
    requires
        start.valid(),
        start.legal(ops),
    ensures
        start.run(ops).is_closed() <==> forall|id: nat| #[trigger]
            start.ever_had_sender(ops, id) ==> releases(ops, id),
{
    lemma_live_until_released(start, ops);
    lemma_run_valid(start, ops);
    let after = start.run(ops);
    if after.is_closed() {
        assert forall|id: nat| #[trigger] start.ever_had_sender(ops, id) implies releases(
            ops,
            id,
        ) by {
            assert(!after.senders.live.contains(id));
        }
    }
    if forall|id: nat| #[trigger] start.ever_had_sender(ops, id) ==> releases(ops, id) {
        assert(after.senders.live =~= Set::empty());
    }
}

/// A closed channel stays closed: no legal history gives it a sender again, and none
/// adds a message to it. What the receiver has seen end does not start again.
pub proof fn lemma_closed_stays_closed<T>(start: ChannelView<T>, ops: Seq<ChannelOp<T>>)
    requires
        start.valid(),
        start.is_closed(),
        start.legal(ops),
    ensures
        start.run(ops).is_closed(),
        start.accepted(ops) == Seq::<Envelope<T>>::empty(),
    decreases ops.len(),
{
    if ops.len() > 0 {
        lemma_closed_stays_closed(start, ops.drop_last());
        lemma_run_valid(start, ops.drop_last());
    }
}

} // verus!
