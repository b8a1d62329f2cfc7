//! The one-shot channel whose endpoints the type system keeps to one use
//! each, as a sequentially consistent model.
//!
//! `channel` creates the shared storage and both endpoints. The storage,
//! which both ends of a concurrent channel reach through an `Arc`, travels with
//! the receiver here, and the sender writes into it.
use vstd::prelude::*;
use std::marker::PhantomData;

verus! {

/// The sending end: it can send one message of type `T`.
pub struct Sender<T> {
    marker: PhantomData<T>,
    channel: Ghost<int>,
}

/// The receiving end, together with the message storage.
pub struct Receiver<T> {
    message: Option<T>,
    ready: bool,
    sent: bool,
    channel: Ghost<int>,
}

/// Creates a channel: an unused sender and an empty receiver, the two ends
/// of one channel.
pub fn channel<T>() -> (r: (Sender<T>, Receiver<T>))
    ensures
        r.1.wf(),
        r.1.message() is None,
        !r.1.ready(),
        !r.1.sent(),
        r.0.channel() == r.1.channel(),
{
    let ghost id: int = arbitrary();
    (
        Sender { marker: PhantomData, channel: Ghost(id) },
        Receiver { message: None, ready: false, sent: false, channel: Ghost(id) },
    )
}

impl<T> Receiver<T> {
    /// The identity of the channel this end belongs to. Channels made by
    /// separate calls of `channel` are not known to share one.
    pub closed spec fn channel(&self) -> int {
        self.channel@
    }

    /// The message slot.
    pub closed spec fn message(&self) -> Option<T> {
        self.message
    }

    /// Whether a message waits to be received.
    pub closed spec fn ready(&self) -> bool {
        self.ready
    }

    /// Whether the sender has sent.
    pub closed spec fn sent(&self) -> bool {
        self.sent
    }

    /// A message waits exactly while `ready` is set, and only after the
    /// send.
    pub open spec fn wf(&self) -> bool {
        &&& (self.ready() <==> self.message() is Some)
        &&& (self.ready() ==> self.sent())
    }

    /// Whether a message waits to be received.
    pub fn is_ready(&self) -> (r: bool)
        ensures
            r == self.ready(),
    {
        self.ready
    }

    /// Takes the message; the receiver is used up. Receiving panics when
    /// no message is available, so one must be ready.
    pub fn receive(self) -> (m: T)
        requires
            self.wf(),
            self.ready(),
        ensures
            m == self.message()->0,
    {
        self.message.unwrap()
    }
}

impl<T> Sender<T> {
    /// The identity of the channel this end belongs to.
    pub closed spec fn channel(&self) -> int {
        self.channel@
    }

    /// Writes the message into its channel, whose storage travels with the
    /// receiver, and sets `ready`; the sender is used up. It never panics.
    pub fn send(self, receiver: &mut Receiver<T>, message: T)
        requires
            old(receiver).wf(),
            !old(receiver).sent(),
            self.channel() == old(receiver).channel(),
        ensures
            final(receiver).wf(),
            final(receiver).channel() == old(receiver).channel(),
            final(receiver).message() == Some(message),
            final(receiver).ready(),
            final(receiver).sent(),
    {
        receiver.message = Some(message);
        receiver.ready = true;
        receiver.sent = true;
    }
}

} // verus!
