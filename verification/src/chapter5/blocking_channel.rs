//! The blocking one-shot channel, as a sequentially consistent model.
//!
//! As in the channel without allocation, `split` starts a round and hands
//! out one sender and one receiver, each good for one use. The receiver
//! belongs to the thread that split the channel. Sending writes the
//! message, stores `ready`, and then unparks the receiving thread.
//! Receiving swaps `ready` to false and, while no message was there, parks
//! and tries again. A thread's park token makes an unpark that comes before
//! the park count. Each of these steps is one call here, so that "the
//! receiver never sleeps through the message" can be stated over every
//! interleaving.
use vstd::prelude::*;
use std::marker::PhantomData;
use std::rc::Rc;

verus! {

/// Where the sending side stands.
#[derive(Clone, Copy, Debug, PartialEq, Eq, Structural)]
pub enum SendStep {
    /// The sender has not sent.
    Unsent,
    /// The message is written and `ready` stored; the unpark is still to
    /// come.
    Stored,
    /// Done (or no sender this round).
    Done,
}

/// Where the receiving thread stands.
#[derive(Clone, Copy, Debug, PartialEq, Eq, Structural)]
pub enum RecvStep {
    /// About to `swap(false)` on `ready`.
    Receiving,
    /// The swap found no message; about to park.
    Parking,
    /// Parked and asleep.
    Sleeping,
    /// Received (or no receiver this round).
    Done,
}

/// The receiving thread does not sleep through the message: while it
/// sleeps, the sender has still to unpark it; when it is about to park
/// after the sender is done, the park token is set; and once stored, the
/// message stays ready until received.
pub open spec fn no_lost_wakeup(ready: bool, token: bool, send: SendStep, recv: RecvStep) -> bool {
    &&& recv == RecvStep::Sleeping ==> send != SendStep::Done
    &&& recv == RecvStep::Parking && send == SendStep::Done ==> token
    &&& send != SendStep::Unsent && recv != RecvStep::Done ==> ready
}

/// The round after `r`; the count wraps around after `u64::MAX`.
pub open spec fn next_round(r: u64) -> u64 {
    if r == u64::MAX {
        0
    } else {
        (r + 1) as u64
    }
}

/// Storage for one message, shared by a sender and a receiver.
pub struct Channel<T> {
    message: Option<T>,
    ready: bool,
    round: u64,
    id: Ghost<int>,
    token: bool,
    send: SendStep,
    recv: RecvStep,
}

/// The sending end of one round of a channel; it knows which thread to
/// unpark.
pub struct Sender {
    round: u64,
    channel: Ghost<int>,
}

/// The receiving end of one round of a channel. It stays on the thread that
/// split the channel, the thread that the sender unparks: it is not `Send`.
pub struct Receiver {
    round: u64,
    channel: Ghost<int>,
    not_send: PhantomData<Rc<()>>,
}

impl Sender {
    /// The round of `split` this sender belongs to.
    pub closed spec fn round(&self) -> u64 {
        self.round
    }

    /// The channel this sender belongs to.
    pub closed spec fn channel(&self) -> int {
        self.channel@
    }
}

impl Receiver {
    /// The round of `split` this receiver belongs to.
    pub closed spec fn round(&self) -> u64 {
        self.round
    }

    /// The channel this receiver belongs to.
    pub closed spec fn channel(&self) -> int {
        self.channel@
    }
}

impl<T> Channel<T> {
    /// The message slot.
    pub closed spec fn message(&self) -> Option<T> {
        self.message
    }

    /// Whether a message waits to be received.
    pub closed spec fn ready(&self) -> bool {
        self.ready
    }

    /// The identity of this channel. Channels made by separate calls of
    /// `new` are not known to share one, so endpoints are only ever used
    /// with the channel that handed them out.
    pub closed spec fn id(&self) -> int {
        self.id@
    }

    /// How many times the channel has been split.
    pub closed spec fn round(&self) -> u64 {
        self.round
    }

    /// The receiving thread's park token.
    pub closed spec fn token(&self) -> bool {
        self.token
    }

    /// Where the sender stands.
    pub closed spec fn send_step(&self) -> SendStep {
        self.send
    }

    /// Where the receiving thread stands.
    pub closed spec fn recv_step(&self) -> RecvStep {
        self.recv
    }

    /// A message waits exactly while `ready` is set, only after the sender
    /// stored it; nothing is received before it is sent; and no wake-up is
    /// lost.
    pub open spec fn wf(&self) -> bool {
        &&& (self.ready() <==> self.message() is Some)
        &&& (self.ready() ==> self.send_step() != SendStep::Unsent)
        &&& (self.send_step() == SendStep::Unsent ==> self.recv_step() != RecvStep::Done)
        &&& no_lost_wakeup(self.ready(), self.token(), self.send_step(), self.recv_step())
    }

    /// A new channel is empty and has no endpoints.
    pub fn new() -> (c: Self)
        ensures
            c.wf(),
            c.message() is None,
            !c.ready(),
            c.round() == 0,
            !c.token(),
            c.send_step() == SendStep::Done,
            c.recv_step() == RecvStep::Done,
    {
        let ghost id: int = arbitrary();
        Channel {
            message: None,
            ready: false,
            round: 0,
            id: Ghost(id),
            token: false,
            send: SendStep::Done,
            recv: RecvStep::Done,
        }
    }

    /// What dropping the channel now would drop: the message that was sent
    /// and not yet received, if there is one.
    pub open spec fn unreceived(&self) -> Option<T> {
        if self.ready() {
            self.message()
        } else {
            None
        }
    }

    /// Starts the channel afresh and hands out the new round's sender and
    /// receiver. Starting afresh drops the old channel: the message sent in
    /// an earlier round and not received is handed back here, to be dropped
    /// once; nothing else is. The receiving thread's park token belongs to
    /// the thread, not to the round: it is kept.
    pub fn split(&mut self) -> (r: (Sender, Receiver, Option<T>))
        requires
            old(self).wf(),
        ensures
            final(self).wf(),
            r.2 == old(self).unreceived(),
            final(self).message() is None,
            !final(self).ready(),
            final(self).round() == next_round(old(self).round()),
            final(self).token() == old(self).token(),
            final(self).send_step() == SendStep::Unsent,
            final(self).recv_step() == RecvStep::Receiving,
            r.0.round() == final(self).round(),
            r.1.round() == final(self).round(),
            final(self).id() == old(self).id(),
            r.0.channel() == final(self).id(),
            r.1.channel() == final(self).id(),
    {
        let dropped = self.message.take();
        let round = if self.round == u64::MAX {
            0
        } else {
            self.round + 1
        };
        *self = Channel {
            message: None,
            ready: false,
            round,
            id: self.id,
            token: self.token,
            send: SendStep::Unsent,
            recv: RecvStep::Receiving,
        };
        (
            Sender { round, channel: self.id },
            Receiver { round, channel: self.id, not_send: PhantomData },
            dropped,
        )
    }

    /// Where the receiving thread stands, as it stands.
    pub fn receiver_step(&self) -> (r: RecvStep)
        ensures
            r == self.recv_step(),
    {
        self.recv
    }

    /// The sender's last step: it unparks the receiving thread, waking it if
    /// it sleeps and setting its park token otherwise.
    pub fn unpark_receiver(&mut self)
        requires
            old(self).wf(),
            old(self).send_step() == SendStep::Stored,
        ensures
            final(self).wf(),
            final(self).send_step() == SendStep::Done,
            final(self).message() == old(self).message(),
            final(self).ready() == old(self).ready(),
            final(self).round() == old(self).round(),
            final(self).id() == old(self).id(),
            old(self).recv_step() == RecvStep::Sleeping ==> final(self).recv_step()
                == RecvStep::Receiving && final(self).token() == old(self).token(),
            old(self).recv_step() != RecvStep::Sleeping ==> final(self).recv_step()
                == old(self).recv_step() && final(self).token(),
    {
        self.send = SendStep::Done;
        if self.recv == RecvStep::Sleeping {
            self.recv = RecvStep::Receiving;
        } else {
            self.token = true;
        }
    }
}

impl Sender {
    /// Writes the message and stores `ready`; the sender is used up, and the
    /// unpark of the receiving thread is still to come.
    pub fn send<T>(self, channel: &mut Channel<T>, message: T)
        requires
            old(channel).wf(),
            self.round() == old(channel).round(),
            self.channel() == old(channel).id(),
            old(channel).send_step() == SendStep::Unsent,
        ensures
            final(channel).wf(),
            final(channel).message() == Some(message),
            final(channel).ready(),
            final(channel).send_step() == SendStep::Stored,
            final(channel).recv_step() == old(channel).recv_step(),
            final(channel).token() == old(channel).token(),
            final(channel).round() == old(channel).round(),
            final(channel).id() == old(channel).id(),
    {
        channel.message = Some(message);
        channel.ready = true;
        channel.send = SendStep::Stored;
    }
}

impl Receiver {
    /// Whether a message waits to be received.
    pub fn is_ready<T>(&self, channel: &Channel<T>) -> (r: bool)
        requires
            self.channel() == channel.id(),
        ensures
            r == channel.ready(),
    {
        channel.ready
    }

    /// One round of receiving: `swap(false)` on `ready`. With a message
    /// there, the receiver is used up and the message returned; otherwise the
    /// receiver comes back and its thread goes on to park.
    pub fn receive<T>(self, channel: &mut Channel<T>) -> (r: Result<T, Receiver>)
        requires
            old(channel).wf(),
            self.round() == old(channel).round(),
            self.channel() == old(channel).id(),
            old(channel).recv_step() == RecvStep::Receiving,
        ensures
            final(channel).wf(),
            !final(channel).ready(),
            final(channel).message() is None,
            final(channel).send_step() == old(channel).send_step(),
            final(channel).token() == old(channel).token(),
            final(channel).round() == old(channel).round(),
            final(channel).id() == old(channel).id(),
            old(channel).ready() ==> {
                &&& r is Ok
                &&& r->Ok_0 == old(channel).message()->0
                &&& final(channel).recv_step() == RecvStep::Done
            },
            !old(channel).ready() ==> {
                &&& r is Err
                &&& r->Err_0.round() == self.round()
                &&& r->Err_0.channel() == self.channel()
                &&& final(channel).recv_step() == RecvStep::Parking
            },
    {
        let was = channel.ready;
        channel.ready = false;
        if was {
            channel.recv = RecvStep::Done;
            Ok(channel.message.take().unwrap())
        } else {
            channel.recv = RecvStep::Parking;
            Err(self)
        }
    }

    /// The receiving thread parks: a set token is consumed and the thread
    /// goes on receiving; otherwise it sleeps.
    pub fn park<T>(&self, channel: &mut Channel<T>)
        requires
            old(channel).wf(),
            self.round() == old(channel).round(),
            self.channel() == old(channel).id(),
            old(channel).recv_step() == RecvStep::Parking,
        ensures
            final(channel).wf(),
            final(channel).message() == old(channel).message(),
            final(channel).ready() == old(channel).ready(),
            final(channel).send_step() == old(channel).send_step(),
            final(channel).round() == old(channel).round(),
            final(channel).id() == old(channel).id(),
            old(channel).token() ==> !final(channel).token() && final(channel).recv_step()
                == RecvStep::Receiving,
            !old(channel).token() ==> !final(channel).token() && final(channel).recv_step()
                == RecvStep::Sleeping,
    {
        if channel.token {
            channel.token = false;
            channel.recv = RecvStep::Receiving;
        } else {
            channel.recv = RecvStep::Sleeping;
        }
    }

    /// The parked thread wakes without an unpark (`park` may return
    /// spuriously) and goes on receiving.
    pub fn wake_spuriously<T>(&self, channel: &mut Channel<T>)
        requires
            old(channel).wf(),
            self.round() == old(channel).round(),
            self.channel() == old(channel).id(),
            old(channel).recv_step() == RecvStep::Sleeping,
        ensures
            final(channel).wf(),
            final(channel).recv_step() == RecvStep::Receiving,
            final(channel).message() == old(channel).message(),
            final(channel).ready() == old(channel).ready(),
            final(channel).send_step() == old(channel).send_step(),
            final(channel).token() == old(channel).token(),
            final(channel).round() == old(channel).round(),
            final(channel).id() == old(channel).id(),
    {
        channel.recv = RecvStep::Receiving;
    }
}

/// No lost wake-up, from the invariant `wf` that `split` establishes and
/// that sending, unparking, receiving and parking each re-establish: the
/// receiving thread never sleeps through the message: while it sleeps
/// the sender still has to unpark it, when it parks after the sender is
/// done its token lets it through, and a stored message stays ready until
/// it is received.
pub proof fn lemma_no_lost_wakeup<T>(c: &Channel<T>)
    requires
        c.wf(),
    ensures
        no_lost_wakeup(c.ready(), c.token(), c.send_step(), c.recv_step()),
{
}

} // verus!
