//! A first-in first-out channel with many senders and one receiver.
//!
//! The channel is open while at least one sender is live, the first one or any clone of
//! it, and closed from the moment the last of them is released. The receiver learns of
//! the closure only after it has taken every message that was already queued.

use crate::roster::{Roster, RosterView};
use std::collections::VecDeque;
use vstd::prelude::*;

verus! {

/// A queued message: what was sent, and the sender it came from.
pub struct Envelope<T> {
    pub sender: nat,
    pub payload: T,
}

/// What a channel is: the messages not yet received, oldest first, its senders, and
/// whether its receiver still exists.
pub struct ChannelView<T> {
    pub queue: Seq<Envelope<T>>,
    pub senders: RosterView,
    pub receiver_alive: bool,
}

/// The payloads of `queue`, in its order.
pub open spec fn payloads<T>(queue: Seq<Envelope<T>>) -> Seq<T> {
    Seq::new(queue.len(), |i: int| queue[i].payload)
}

impl<T> ChannelView<T> {
    /// A new channel: nothing queued, one sender, the receiver in place.
    pub open spec fn fresh() -> ChannelView<T> {
        ChannelView { queue: Seq::empty(), senders: RosterView::first(), receiver_alive: true }
    }

    /// Every queued message came from a sender of this channel, and nothing stays queued
    /// once the receiver is gone.
    pub open spec fn valid(self) -> bool {
        &&& self.senders.valid()
        &&& forall|i: int| 0 <= i < self.queue.len() ==> self.queue[i].sender < self.senders.minted
        &&& !self.receiver_alive ==> self.queue.len() == 0
    }

    /// Closed: no sender is left.
    pub open spec fn is_closed(self) -> bool {
        self.senders.is_empty()
    }

    /// The channel after a sender was cloned; the clone is `self.senders.minted`.
    pub open spec fn clone_sender(self) -> ChannelView<T> {
        ChannelView { senders: self.senders.enroll(), ..self }
    }

    /// The channel after `sender` sent `payload`: queued at the tail if there is a
    /// receiver, and refused otherwise.
    pub open spec fn send(self, sender: nat, payload: T) -> ChannelView<T> {
        if self.receiver_alive {
            ChannelView { queue: self.queue.push(Envelope { sender, payload }), ..self }
        } else {
            self
        }
    }

    /// The channel after `sender` was released.
    pub open spec fn release(self, sender: nat) -> ChannelView<T> {
        ChannelView { senders: self.senders.dismiss(sender), ..self }
    }

    /// The channel after the receiver asked for a message: the head is gone, if there
    /// was one.
    pub open spec fn receive(self) -> ChannelView<T> {
        if self.receiver_alive && self.queue.len() > 0 {
            ChannelView { queue: self.queue.drop_first(), ..self }
        } else {
            self
        }
    }

    /// The channel after the receiver took all that was queued.
    pub open spec fn drain(self) -> ChannelView<T> {
        ChannelView { queue: Seq::empty(), ..self }
    }

    /// The channel after its receiver was dropped: what was queued is lost with it.
    pub open spec fn hang_up(self) -> ChannelView<T> {
        ChannelView { queue: Seq::empty(), receiver_alive: false, ..self }
    }
}

/// A message could not be sent because the receiver is gone. It comes back in the error.
#[derive(Debug, PartialEq, Eq)]
pub struct SendError<T>(pub T);

/// Nothing is queued and no sender is left: nothing will ever arrive.
#[derive(Debug, PartialEq, Eq, Clone, Copy)]
pub struct RecvError;

/// Why a receive that does not wait came back without a message.
#[derive(Debug, PartialEq, Eq, Clone, Copy)]
pub enum TryRecvError {
    /// Nothing is queued, but a sender is live: a message may still come.
    Empty,
    /// Nothing is queued and no sender is left.
    Disconnected,
}

/// What the receiver got by taking all that was queued.
pub struct Drained<T> {
    /// The messages, oldest first.
    pub items: Vec<T>,
    /// Whether the channel is closed, so that no further message will follow.
    pub finished: bool,
}

/// The state of a channel. Its endpoints are a [`Receiver`] and one or more [`Sender`]s.
pub struct Channel<T> {
    queue: VecDeque<T>,
    origins: Ghost<Seq<nat>>,
    senders: Roster,
    receiver_alive: bool,
}

/// A sending endpoint. It is cloned with [`Sender::clone_sender`] and ended with
/// [`Sender::release`].
#[derive(Debug)]
pub struct Sender {
    id: usize,
}

/// The receiving endpoint. There is one for each channel.
#[derive(Debug)]
pub struct Receiver {
    sealed: (),
}

impl<T> View for Channel<T> {
    type V = ChannelView<T>;

    closed spec fn view(&self) -> ChannelView<T> {
        ChannelView {
            queue: Seq::new(
                self.queue@.len(),
                |i: int| Envelope { sender: self.origins@[i], payload: self.queue@[i] },
            ),
            senders: self.senders@,
            receiver_alive: self.receiver_alive,
        }
    }
}

impl View for Sender {
    type V = nat;

    /// The sender's identity in its channel.
    closed spec fn view(&self) -> nat {
        self.id as nat
    }
}

/// A new channel with its two endpoints.
pub fn make_channel<T>() -> (made: (Channel<T>, Sender, Receiver))
    ensures
        made.0.wf(),
        made.0@ == ChannelView::<T>::fresh(),
        made.1@ == 0,
{
    let channel = Channel {
        queue: VecDeque::new(),
        origins: Ghost(Seq::empty()),
        senders: Roster::first(),
        receiver_alive: true,
    };
    proof {
        assert(channel@.queue =~= Seq::empty());
    }
    (channel, Sender { id: 0 }, Receiver { sealed: () })
}

impl<T> Channel<T> {
    /// The parts of the state agree with each other.
    pub closed spec fn wf(&self) -> bool {
        &&& self.senders.wf()
        &&& self.origins@.len() == self.queue@.len()
        &&& forall|i: int| 0 <= i < self.origins@.len() ==> self.origins@[i] < self.senders@.minted
        &&& !self.receiver_alive ==> self.queue@.len() == 0
    }

    /// A well-formed channel is a valid one, with finitely many senders.
    pub proof fn lemma_view(&self)
        requires
            self.wf(),
        ensures
            self@.valid(),
            self@.senders.live.finite(),
    {
        self.senders.lemma_view();
    }

    /// Whether `sender` is a live sender of this channel.
    pub fn has_sender(&self, sender: &Sender) -> (live: bool)
        ensures
            live == self@.senders.live.contains(sender@),
    {
        self.senders.contains(sender.id)
    }

    /// Whether the receiver still exists.
    pub fn has_receiver(&self) -> (alive: bool)
        ensures
            alive == self@.receiver_alive,
    {
        self.receiver_alive
    }

    /// How many senders are live.
    pub fn sender_count(&self) -> (count: usize)
        requires
            self.wf(),
        ensures
            count == self@.senders.live.len(),
    {
        self.senders.len()
    }

    /// Whether the channel is closed: no sender is left.
    pub fn is_closed(&self) -> (closed: bool)
        requires
            self.wf(),
        ensures
            closed == self@.is_closed(),
    {
        self.senders.is_empty()
    }

    /// How many messages wait to be received.
    pub fn pending(&self) -> (count: usize)
        ensures
            count == self@.queue.len(),
    {
        self.queue.len()
    }
}

impl Sender {
    /// The sender's identity in its channel.
    pub fn id(&self) -> (id: usize)
        ensures
            id == self@,
    {
        self.id
    }

    /// One more sender for the same channel.
    pub fn clone_sender<T>(&self, channel: &mut Channel<T>) -> (clone: Sender)
        requires
            old(channel).wf(),
            old(channel)@.senders.live.contains(self@),
        ensures
            final(channel).wf(),
            final(channel)@ == old(channel)@.clone_sender(),
            clone@ == old(channel)@.senders.minted,
    {
        let id = channel.senders.enroll();
        Sender { id }
    }

    /// Queues `value` at the tail. Where the receiver is gone the value is handed back
    /// in the error and the channel stays as it was.
    pub fn send<T>(&self, channel: &mut Channel<T>, value: T) -> (sent: Result<(), SendError<T>>)
        requires
            old(channel).wf(),
            old(channel)@.senders.live.contains(self@),
        ensures
            final(channel).wf(),
            final(channel)@ == old(channel)@.send(self@, value),
            old(channel)@.receiver_alive ==> sent is Ok,
            !old(channel)@.receiver_alive ==> sent == Err::<(), SendError<T>>(SendError(value)),
    {
        if channel.receiver_alive {
            proof {
                channel.senders.lemma_view();
            }
            channel.queue.push_back(value);
            channel.origins = Ghost(channel.origins@.push(self@));
            proof {
                assert(channel@.queue =~= old(channel)@.queue.push(
                    Envelope { sender: self@, payload: value },
                ));
            }
            Ok(())
        } else {
            Err(SendError(value))
        }
    }

    /// Ends this sender. The channel closes if it was the last one.
    pub fn release<T>(self, channel: &mut Channel<T>)
        requires
            old(channel).wf(),
            old(channel)@.senders.live.contains(self@),
        ensures
            final(channel).wf(),
            final(channel)@ == old(channel)@.release(self@),
    {
        channel.senders.dismiss(self.id);
    }
}

impl Receiver {
    /// Takes the oldest message if one is queued, and says why not otherwise. It never
    /// asks the caller to wait.
    pub fn try_recv<T>(&self, channel: &mut Channel<T>) -> (got: Result<T, TryRecvError>)
        requires
            old(channel).wf(),
            old(channel)@.receiver_alive,
        ensures
            final(channel).wf(),
            final(channel)@ == old(channel)@.receive(),
            match got {
                Ok(value) => old(channel)@.queue.len() > 0 && value == old(channel)@.queue[0].payload,
                Err(TryRecvError::Empty) => old(channel)@.queue.len() == 0 && !old(
                    channel,
                )@.is_closed(),
                Err(TryRecvError::Disconnected) => old(channel)@.queue.len() == 0 && old(
                    channel,
                )@.is_closed(),
            },
    {
        match channel.queue.pop_front() {
            Some(value) => {
                channel.origins = Ghost(channel.origins@.drop_first());
                proof {
                    assert(channel@.queue =~= old(channel)@.queue.drop_first());
                }
                Ok(value)
            },
            None => {
                if channel.senders.is_empty() {
                    Err(TryRecvError::Disconnected)
                } else {
                    Err(TryRecvError::Empty)
                }
            },
        }
    }

    /// One attempt of a receive that waits. `None` means that nothing is queued while a
    /// sender is live: the caller has to wait and ask again. The error comes once the
    /// channel is closed and nothing is left in it.
    pub fn recv<T>(&self, channel: &mut Channel<T>) -> (got: Option<Result<T, RecvError>>)
        requires
            old(channel).wf(),
            old(channel)@.receiver_alive,
        ensures
            final(channel).wf(),
            final(channel)@ == old(channel)@.receive(),
            match got {
                Some(Ok(value)) => old(channel)@.queue.len() > 0 && value == old(
                    channel,
                )@.queue[0].payload,
                None => old(channel)@.queue.len() == 0 && !old(channel)@.is_closed(),
                Some(Err(_)) => old(channel)@.queue.len() == 0 && old(channel)@.is_closed(),
            },
    {
        match self.try_recv(channel) {
            Ok(value) => Some(Ok(value)),
            Err(TryRecvError::Empty) => None,
            Err(TryRecvError::Disconnected) => Some(Err(RecvError)),
        }
    }

    /// Takes all that is queued, oldest first, as reading the receiver as a sequence
    /// does. The sequence has ended if `finished` is set; otherwise more may follow and
    /// the caller has to wait.
    pub fn drain<T>(&self, channel: &mut Channel<T>) -> (drained: Drained<T>)
        requires
            old(channel).wf(),
            old(channel)@.receiver_alive,
        ensures
            final(channel).wf(),
            final(channel)@ == old(channel)@.drain(),
            drained.items@ == payloads(old(channel)@.queue),
            drained.finished == old(channel)@.is_closed(),
    {
        let mut items: Vec<T> = Vec::new();
        loop
            invariant
                channel.wf(),
                channel@.receiver_alive,
                channel@.senders == old(channel)@.senders,
                items@.len() + channel@.queue.len() == old(channel)@.queue.len(),
                forall|i: int| 0 <= i < items@.len() ==> items@[i] == old(channel)@.queue[i].payload,
                forall|i: int|
                    0 <= i < channel@.queue.len() ==> channel@.queue[i] == old(
                        channel,
                    )@.queue[items@.len() + i],
            ensures
                channel.wf(),
                channel@.receiver_alive,
                channel@.senders == old(channel)@.senders,
                channel@.queue.len() == 0,
                items@ =~= payloads(old(channel)@.queue),
            decreases channel@.queue.len(),
        {
            match self.try_recv(channel) {
                Ok(value) => {
                    items.push(value);
                },
                Err(_) => {
                    break ;
                },
            }
        }
        let finished = channel.senders.is_empty();
        proof {
            assert(channel@.queue =~= Seq::empty());
        }
        Drained { items, finished }
    }

    /// Drops the receiver. What was queued is lost, and every later send is refused.
    pub fn close<T>(self, channel: &mut Channel<T>)
        requires
            old(channel).wf(),
            old(channel)@.receiver_alive,
        ensures
            final(channel).wf(),
            final(channel)@ == old(channel)@.hang_up(),
    {
        channel.queue.clear();
        channel.origins = Ghost(Seq::empty());
        channel.receiver_alive = false;
        proof {
            assert(channel@.queue =~= Seq::empty());
        }
    }
}

} // verus!
