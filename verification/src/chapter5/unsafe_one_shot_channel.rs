//! The unchecked one-shot channel, as a sequentially consistent model.
//!
//! `send` writes the message and sets `ready`; `receive` reads the message.
//! The channel leaves it to the caller to send once and to receive once,
//! after `is_ready` returned true; here those duties are preconditions.
//! The channel has no destructor for its message: a message sent and never
//! received is leaked, so it is kept in a `ManuallyDrop`.
use vstd::prelude::*;
use std::mem::ManuallyDrop;

verus! {

/// A channel for one message.
pub struct Channel<T> {
    message: Option<ManuallyDrop<T>>,
    ready: bool,
}

impl<T> Channel<T> {
    /// The message slot: `Some` from `send` until `receive`.
    pub closed spec fn message(&self) -> Option<T> {
        match self.message {
            Some(m) => Some(m@),
            None => None,
        }
    }

    /// The flag that `send` sets; nothing clears it.
    pub closed spec fn ready(&self) -> bool {
        self.ready
    }

    /// The slot holds a message only once the flag is set.
    pub open spec fn wf(&self) -> bool {
        self.message() is Some ==> self.ready()
    }

    /// A new channel is empty.
    pub fn new() -> (c: Self)
        ensures
            c.wf(),
            c.message() is None,
            !c.ready(),
    {
        Channel { message: None, ready: false }
    }

    /// Writes `message` and sets the flag. Only once per channel.
    pub fn send(&mut self, message: T)
        requires
            old(self).wf(),
            !old(self).ready(),
        ensures
            final(self).wf(),
            final(self).message() == Some(message),
            final(self).ready(),
    {
        self.message = Some(ManuallyDrop::new(message));
        self.ready = true;
    }

    /// Whether a message has been sent.
    pub fn is_ready(&self) -> (r: bool)
        ensures
            r == self.ready(),
    {
        self.ready
    }

    /// Reads the message. Only after `is_ready` returned true, and only once.
    pub fn receive(&mut self) -> (m: T)
        requires
            old(self).wf(),
            old(self).ready(),
            old(self).message() is Some,
        ensures
            final(self).wf(),
            m == old(self).message()->0,
            final(self).message() is None,
            final(self).ready(),
    {
        ManuallyDrop::into_inner(self.message.take().unwrap())
    }
}

} // verus!
