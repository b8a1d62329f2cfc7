//! The one-shot channel whose storage the caller provides, as a sequentially
//! consistent model.
//!
//! `split` starts the channel afresh and hands out one sender and one
//! receiver. In concurrent use the type system ensures that each is used
//! at most once; here each endpoint carries the round of `split` it came
//! from, and the channel records whether that round's endpoints are used.
use vstd::prelude::*;

verus! {

/// The round after `r`; the count wraps around after `u64::MAX`.
pub open spec fn next_round(r: u64) -> u64 {
    if r == u64::MAX {
        0
    } else {
        (r + 1) as u64
    }
}

/// Storage for one message, shared by a sender and a receiver.
pub struct Channel<T> {
    message: Option<T>,
    ready: bool,
    round: u64,
    id: Ghost<int>,
    sender_live: bool,
    receiver_live: bool,
}

/// The sending end of one round of a channel.
pub struct Sender {
    round: u64,
    channel: Ghost<int>,
}

/// The receiving end of one round of a channel.
pub struct Receiver {
    round: u64,
    channel: Ghost<int>,
}

impl Sender {
    /// The round of `split` this sender belongs to.
    pub closed spec fn round(&self) -> u64 {
        self.round
    }

    /// The channel this sender belongs to.
    pub closed spec fn channel(&self) -> int {
        self.channel@
    }
}

impl Receiver {
    /// The round of `split` this receiver belongs to.
    pub closed spec fn round(&self) -> u64 {
        self.round
    }

    /// The channel this receiver belongs to.
    pub closed spec fn channel(&self) -> int {
        self.channel@
    }
}

impl<T> Channel<T> {
    /// The message slot.
    pub closed spec fn message(&self) -> Option<T> {
        self.message
    }

    /// Whether a message waits to be received.
    pub closed spec fn ready(&self) -> bool {
        self.ready
    }

    /// The identity of this channel. Channels made by separate calls of
    /// `new` are not known to share one, so endpoints are only ever used
    /// with the channel that handed them out.
    pub closed spec fn id(&self) -> int {
        self.id@
    }

    /// How many times the channel has been split.
    pub closed spec fn round(&self) -> u64 {
        self.round
    }

    /// The current round's sender has not sent yet.
    pub closed spec fn sender_live(&self) -> bool {
        self.sender_live
    }

    /// The current round's receiver has not received yet.
    pub closed spec fn receiver_live(&self) -> bool {
        self.receiver_live
    }

    /// A message waits exactly while `ready` is set, and only once the
    /// sender has been used; once the receiver is used up (or before the
    /// first split) neither a message nor a sender is left.
    pub open spec fn wf(&self) -> bool {
        &&& (self.ready() <==> self.message() is Some)
        &&& (self.ready() ==> !self.sender_live())
        &&& (!self.receiver_live() ==> !self.sender_live() && !self.ready())
    }

    /// A new channel is empty and has no endpoints.
    pub fn new() -> (c: Self)
        ensures
            c.wf(),
            c.message() is None,
            !c.ready(),
            c.round() == 0,
            !c.sender_live(),
            !c.receiver_live(),
    {
        let ghost id: int = arbitrary();
        Channel {
            message: None,
            ready: false,
            round: 0,
            id: Ghost(id),
            sender_live: false,
            receiver_live: false,
        }
    }

    /// What dropping the channel now would drop: the message that was sent
    /// and not yet received, if there is one.
    pub open spec fn unreceived(&self) -> Option<T> {
        if self.ready() {
            self.message()
        } else {
            None
        }
    }

    /// Starts the channel afresh and hands out the new round's sender and
    /// receiver. Starting afresh drops the old channel: the message sent in
    /// an earlier round and not received is handed back here, to be dropped
    /// once; nothing else is.
    pub fn split(&mut self) -> (r: (Sender, Receiver, Option<T>))
        requires
            old(self).wf(),
        ensures
            final(self).wf(),
            r.2 == old(self).unreceived(),
            final(self).unreceived() is None,
            final(self).message() is None,
            !final(self).ready(),
            final(self).round() == next_round(old(self).round()),
            final(self).sender_live(),
            final(self).receiver_live(),
            r.0.round() == final(self).round(),
            r.1.round() == final(self).round(),
            final(self).id() == old(self).id(),
            r.0.channel() == final(self).id(),
            r.1.channel() == final(self).id(),
    {
        let dropped = self.message.take();
        let round = if self.round == u64::MAX {
            0
        } else {
            self.round + 1
        };
        *self = Channel {
            message: None,
            ready: false,
            round,
            id: self.id,
            sender_live: true,
            receiver_live: true,
        };
        (Sender { round, channel: self.id }, Receiver { round, channel: self.id }, dropped)
    }

    /// Takes the channel apart as dropping it does, and hands back what
    /// dropping it drops: the message that was sent and not yet received,
    /// if there is one, and nothing otherwise.
    pub fn into_unreceived(self) -> (dropped: Option<T>)
        requires
            self.wf(),
        ensures
            dropped == self.unreceived(),
            dropped is Some <==> self.ready(),
    {
        self.message
    }
}

impl Sender {
    /// Writes the message and sets `ready`; the sender is used up.
    pub fn send<T>(self, channel: &mut Channel<T>, message: T)
        requires
            old(channel).wf(),
            self.round() == old(channel).round(),
            self.channel() == old(channel).id(),
            old(channel).sender_live(),
        ensures
            final(channel).wf(),
            final(channel).message() == Some(message),
            final(channel).ready(),
            final(channel).unreceived() == Some(message),
            !final(channel).sender_live(),
            final(channel).receiver_live() == old(channel).receiver_live(),
            final(channel).round() == old(channel).round(),
            final(channel).id() == old(channel).id(),
    {
        channel.message = Some(message);
        channel.ready = true;
        channel.sender_live = false;
    }
}

impl Receiver {
    /// Whether a message waits to be received.
    pub fn is_ready<T>(&self, channel: &Channel<T>) -> (r: bool)
        requires
            self.channel() == channel.id(),
        ensures
            r == channel.ready(),
    {
        channel.ready
    }

    /// Takes the message; the receiver is used up. Receiving panics when
    /// no message is available, so one must be ready.
    pub fn receive<T>(self, channel: &mut Channel<T>) -> (m: T)
        requires
            old(channel).wf(),
            self.round() == old(channel).round(),
            self.channel() == old(channel).id(),
            old(channel).receiver_live(),
            old(channel).ready(),
        ensures
            final(channel).wf(),
            m == old(channel).message()->0,
            old(channel).unreceived() == Some(m),
            final(channel).unreceived() is None,
            !final(channel).ready(),
            final(channel).message() is None,
            !final(channel).receiver_live(),
            final(channel).sender_live() == old(channel).sender_live(),
            final(channel).round() == old(channel).round(),
            final(channel).id() == old(channel).id(),
    {
        channel.ready = false;
        channel.receiver_live = false;
        channel.message.take().unwrap()
    }
}

/// Dropping a channel (or starting it afresh with `split`) drops exactly
/// the message that was sent and not yet received, once: the slot, which
/// the channel owns and drops with itself, holds that message and nothing
/// else. Before the send, while the sender is live, there is nothing to
/// drop; after the receive, which hands the message out, there is nothing
/// to drop either, so a received message is never dropped twice.
pub proof fn lemma_drop_drops_only_unreceived<T>(c: &Channel<T>)
    requires
        c.wf(),
    ensures
        c.message() == c.unreceived(),
        c.unreceived() is Some <==> c.ready(),
        c.sender_live() ==> c.unreceived() is None,
        !c.receiver_live() ==> c.unreceived() is None,
{
}

} // verus!
