//! The one-shot channel that checks its use, as a sequentially consistent
//! model.
//!
//! `send` first swaps `in_use` to true (and panics if it already
//! was), writes the message and sets `ready`; `receive` swaps `ready` to
//! false (and panics if it was not set) and takes the message.
use vstd::prelude::*;

verus! {

/// A channel for one message, with its use checked.
pub struct Channel<T> {
    message: Option<T>,
    in_use: bool,
    ready: bool,
    received: Ghost<bool>,
}

impl<T> Channel<T> {
    /// The message slot.
    pub closed spec fn message(&self) -> Option<T> {
        self.message
    }

    /// Whether `send` has been called.
    pub closed spec fn in_use(&self) -> bool {
        self.in_use
    }

    /// Whether a message waits to be received.
    pub closed spec fn ready(&self) -> bool {
        self.ready
    }

    /// Whether a receive has returned.
    pub closed spec fn received(&self) -> bool {
        self.received@
    }

    /// What dropping the channel now would drop: the message that was sent
    /// and not yet received, if there is one.
    pub open spec fn unreceived(&self) -> Option<T> {
        if self.ready() {
            self.message()
        } else {
            None
        }
    }

    /// A message waits exactly while `ready` is set, which is exactly while
    /// a send has completed and no receive has returned since.
    pub open spec fn wf(&self) -> bool {
        &&& (self.ready() <==> self.message() is Some)
        &&& (self.ready() <==> self.in_use() && !self.received())
        &&& (self.received() ==> self.in_use())
    }

    /// A new channel is empty and unused.
    pub fn new() -> (c: Self)
        ensures
            c.wf(),
            c.message() is None,
            !c.in_use(),
            !c.ready(),
            !c.received(),
    {
        Channel { message: None, in_use: false, ready: false, received: Ghost(false) }
    }

    /// Sends the one message. A second send panics, so the
    /// channel must be unused.
    pub fn send(&mut self, message: T)
        requires
            old(self).wf(),
            !old(self).in_use(),
        ensures
            final(self).wf(),
            final(self).in_use(),
            final(self).ready(),
            final(self).message() == Some(message),
            !final(self).received(),
    {
        self.in_use = true;
        self.message = Some(message);
        self.ready = true;
    }

    /// Whether a message waits to be received.
    pub fn is_ready(&self) -> (r: bool)
        ensures
            r == self.ready(),
    {
        self.ready
    }

    /// Takes the message. Receiving panics when none is available (not
    /// yet sent, or already received), so one must be ready.
    pub fn receive(&mut self) -> (m: T)
        requires
            old(self).wf(),
            old(self).ready(),
        ensures
            final(self).wf(),
            m == old(self).message()->0,
            !final(self).ready(),
            final(self).message() is None,
            final(self).in_use(),
            final(self).received(),
    {
        self.received = Ghost(true);
        self.ready = false;
        self.message.take().unwrap()
    }

    /// Takes the channel apart as dropping it does, and hands back what
    /// dropping it drops: the message that was sent and not yet received,
    /// if there is one, and nothing otherwise.
    pub fn into_unreceived(self) -> (dropped: Option<T>)
        requires
            self.wf(),
        ensures
            dropped == self.unreceived(),
            dropped is Some <==> self.in_use() && !self.received(),
    {
        self.message
    }
}

/// The ready flag over the channel's whole history, from the invariant `wf`
/// that `new` establishes and `send` and `receive` re-establish: it is set
/// exactly when a send has completed and no receive has returned since, so
/// `is_ready` returning true means the next `receive` returns instead of
/// panicking.
pub proof fn lemma_ready_history<T>(c: &Channel<T>)
    requires
        c.wf(),
    ensures
        c.ready() <==> c.in_use() && !c.received(),
        c.ready() <==> c.unreceived() is Some,
{
}

/// A message is delivered at most once: under the invariant `wf`, once a
/// receive has returned the channel holds no message, so nothing is left to
/// receive (and, being in use, it takes no other send); dropping it then
/// drops nothing.
pub proof fn lemma_at_most_once<T>(c: &Channel<T>)
    requires
        c.wf(),
        c.received(),
    ensures
        c.message() is None,
        !c.ready(),
        c.unreceived() is None,
{
}

} // verus!
