//! A channel over a mutex-protected queue and a condition variable, as a
//! sequentially consistent model.
//!
//! `send` appends to the queue and notifies the condition variable, waking
//! one waiting receiver if there is one. A receiver locks the queue and
//! takes the front message; when the queue is empty it waits on the
//! condition variable (releasing the lock) and, once woken, tries again.
//! Every receiving thread is registered and each of its rounds is one call,
//! so that no message is left behind while receivers sleep, whatever the
//! interleaving.
use vstd::prelude::*;
use std::collections::VecDeque;

verus! {

/// Where one receiving thread stands.
#[derive(Clone, Copy, Debug, PartialEq, Eq, Structural)]
pub enum RecvStep {
    /// Not waiting: its next round looks at the queue.
    Idle,
    /// Waiting on the condition variable.
    Waiting,
    /// Woken (by a notification, or spuriously); its next round looks at
    /// the queue again.
    Woken,
}

/// How many receivers have been woken and not yet looked at the queue.
pub open spec fn count_woken(s: Seq<RecvStep>) -> nat
    decreases s.len(),
{
    if s.len() == 0 {
        0
    } else {
        count_woken(s.drop_last()) + if s.last() == RecvStep::Woken {
            1nat
        } else {
            0nat
        }
    }
}

/// Receiver `i` waits on the condition variable.
pub open spec fn waiting(s: Seq<RecvStep>, i: int) -> bool {
    0 <= i < s.len() && s[i] == RecvStep::Waiting
}

/// While any receiver waits, every queued message has a woken receiver on
/// its way to it: no message is left behind by sleeping receivers.
pub open spec fn no_lost_wakeup(len: nat, s: Seq<RecvStep>) -> bool {
    (exists|i: int| waiting(s, i)) ==> len <= count_woken(s)
}

/// The queue after a send.
pub open spec fn after_send<T>(q: Seq<T>, m: T) -> Seq<T> {
    q.push(m)
}

/// What a receive round returns, and the queue after it.
pub open spec fn after_receive<T>(q: Seq<T>) -> (Option<T>, Seq<T>) {
    if q.len() == 0 {
        (None, q)
    } else {
        (Some(q[0]), q.drop_first())
    }
}

/// Replacing one receiver's step changes the count of woken receivers by
/// the difference.
pub proof fn lemma_count_woken_update(s: Seq<RecvStep>, i: int, x: RecvStep)
    requires
        0 <= i < s.len(),
    ensures
        count_woken(s.update(i, x)) + (if s[i] == RecvStep::Woken {
            1int
        } else {
            0int
        }) == count_woken(s) + (if x == RecvStep::Woken {
            1int
        } else {
            0int
        }),
    decreases s.len(),
{
    let u = s.update(i, x);
    if i == s.len() - 1 {
        assert(u.drop_last() =~= s.drop_last());
    } else {
        lemma_count_woken_update(s.drop_last(), i, x);
        assert(u.drop_last() =~= s.drop_last().update(i, x));
    }
}

/// A multi-message channel and its registered receivers.
pub struct Channel<T> {
    queue: VecDeque<T>,
    receivers: Vec<RecvStep>,
}

impl<T> Channel<T> {
    /// The messages waiting in the queue, oldest first.
    pub closed spec fn messages(&self) -> Seq<T> {
        self.queue@
    }

    /// Where each registered receiver stands.
    pub closed spec fn receivers(&self) -> Seq<RecvStep> {
        self.receivers@
    }

    /// No wake-up is lost.
    pub open spec fn wf(&self) -> bool {
        no_lost_wakeup(self.messages().len(), self.receivers())
    }

    /// A new channel holds no messages and has no receivers yet.
    pub fn new() -> (c: Self)
        ensures
            c.wf(),
            c.messages() == Seq::<T>::empty(),
            c.receivers() == Seq::<RecvStep>::empty(),
    {
        Channel { queue: VecDeque::new(), receivers: Vec::new() }
    }

    /// Registers one more receiving thread, which starts idle; returns its
    /// index.
    pub fn add_receiver(&mut self) -> (t: usize)
        requires
            old(self).wf(),
            old(self).receivers().len() < usize::MAX,
        ensures
            final(self).wf(),
            t == old(self).receivers().len(),
            final(self).receivers() == old(self).receivers().push(RecvStep::Idle),
            final(self).messages() == old(self).messages(),
    {
        let t = self.receivers.len();
        self.receivers.push(RecvStep::Idle);
        proof {
            let s0 = old(self).receivers@;
            let s1 = self.receivers@;
            assert(s1.drop_last() =~= s0);
            if exists|i: int| waiting(s1, i) {
                let i = choose|i: int| waiting(s1, i);
                assert(waiting(s0, i));
            }
        }
        t
    }

    /// Where receiver `t` stands.
    pub fn receiver_step(&self, t: usize) -> (r: RecvStep)
        requires
            t < self.receivers().len(),
        ensures
            r == self.receivers()[t as int],
    {
        self.receivers[t]
    }

    /// The index of the first waiting receiver, if any.
    pub fn first_waiter(&self) -> (r: Option<usize>)
        ensures
            match r {
                Some(u) => waiting(self.receivers(), u as int) && forall|i: int|
                    0 <= i < u ==> !waiting(self.receivers(), i),
                None => forall|i: int| !waiting(self.receivers(), i),
            },
    {
        let mut i: usize = 0;
        while i < self.receivers.len()
            invariant
                i <= self.receivers@.len(),
                forall|k: int| 0 <= k < i ==> !waiting(self.receivers@, k),
            decreases self.receivers@.len() - i,
        {
            if self.receivers[i] == RecvStep::Waiting {
                return Some(i);
            }
            i += 1;
        }
        None
    }

    /// Appends `message` to the queue and notifies the condition variable:
    /// `notify_one` wakes one waiting receiver, any of them, which the
    /// caller names in `woken` (there must be none waiting when it names
    /// none). (Appending and notifying are done here as one step.)
    pub fn send(&mut self, message: T, woken: Option<usize>)
        requires
            old(self).wf(),
            match woken {
                Some(u) => waiting(old(self).receivers(), u as int),
                None => forall|i: int| !waiting(old(self).receivers(), i),
            },
        ensures
            final(self).wf(),
            final(self).messages() == after_send(old(self).messages(), message),
            match woken {
                Some(u) => final(self).receivers() == old(self).receivers().update(
                    u as int,
                    RecvStep::Woken,
                ),
                None => final(self).receivers() == old(self).receivers(),
            },
    {
        self.queue.push_back(message);
        match woken {
            Some(u) => {
                let ghost s0 = self.receivers@;
                self.receivers.set(u, RecvStep::Woken);
                proof {
                    lemma_count_woken_update(s0, u as int, RecvStep::Woken);
                }
            },
            None => {},
        }
    }

    /// One round of receiver `t`: with the queue locked, it takes the oldest
    /// message; when the queue is empty it waits on the condition variable
    /// and `None` is returned.
    pub fn receive(&mut self, t: usize) -> (r: Option<T>)
        requires
            old(self).wf(),
            t < old(self).receivers().len(),
            old(self).receivers()[t as int] != RecvStep::Waiting,
        ensures
            final(self).wf(),
            r == after_receive(old(self).messages()).0,
            final(self).messages() == after_receive(old(self).messages()).1,
            old(self).messages().len() == 0 ==> {
                &&& r is None
                &&& final(self).messages() == old(self).messages()
                &&& final(self).receivers() == old(self).receivers().update(
                    t as int,
                    RecvStep::Waiting,
                )
            },
            old(self).messages().len() > 0 ==> {
                &&& r == Some(old(self).messages()[0])
                &&& final(self).messages() == old(self).messages().drop_first()
                &&& final(self).receivers() == old(self).receivers().update(
                    t as int,
                    RecvStep::Idle,
                )
            },
    {
        let ghost s0 = self.receivers@;
        let r = self.queue.pop_front();
        match r {
            Some(_) => {
                self.receivers.set(t, RecvStep::Idle);
                proof {
                    lemma_count_woken_update(s0, t as int, RecvStep::Idle);
                    let s1 = self.receivers@;
                    if exists|i: int| waiting(s1, i) {
                        let i = choose|i: int| waiting(s1, i);
                        assert(waiting(s0, i));
                    }
                }
            },
            None => {
                self.receivers.set(t, RecvStep::Waiting);
            },
        }
        r
    }

    /// A waiting receiver wakes without a notification (a condition
    /// variable may wake spuriously).
    pub fn wake_spuriously(&mut self, t: usize)
        requires
            old(self).wf(),
            t < old(self).receivers().len(),
            old(self).receivers()[t as int] == RecvStep::Waiting,
        ensures
            final(self).wf(),
            final(self).messages() == old(self).messages(),
            final(self).receivers() == old(self).receivers().update(t as int, RecvStep::Woken),
    {
        let ghost s0 = self.receivers@;
        self.receivers.set(t, RecvStep::Woken);
        proof {
            lemma_count_woken_update(s0, t as int, RecvStep::Woken);
            let s1 = self.receivers@;
            if exists|i: int| waiting(s1, i) {
                let i = choose|i: int| waiting(s1, i);
                assert(waiting(s0, i));
            }
        }
    }
}

/// No lost wake-up, from the invariant `wf` that `new` establishes and
/// that sends, receive rounds and spurious wake-ups each re-establish: while
/// any receiver waits there are at least as many woken receivers on their
/// way to the queue as there are messages in it.
pub proof fn lemma_no_lost_wakeup<T>(c: &Channel<T>)
    requires
        c.wf(),
    ensures
        no_lost_wakeup(c.messages().len(), c.receivers()),
{
}

/// What each of `n` receives in a row returns, and the queue left, when
/// nothing is sent in between.
pub open spec fn receives<T>(q: Seq<T>, n: nat) -> (Seq<Option<T>>, Seq<T>)
    decreases n,
{
    if n == 0 {
        (Seq::empty(), q)
    } else {
        let first = after_receive(q);
        let rest = receives(first.1, (n - 1) as nat);
        (seq![first.0] + rest.0, rest.1)
    }
}

/// The queue after the messages `ms` are sent in turn.
pub open spec fn sends<T>(q: Seq<T>, ms: Seq<T>) -> Seq<T>
    decreases ms.len(),
{
    if ms.len() == 0 {
        q
    } else {
        sends(after_send(q, ms[0]), ms.drop_first())
    }
}

/// Sending the messages in turn appends them in order.
pub proof fn lemma_sends_append<T>(q: Seq<T>, ms: Seq<T>)
    ensures
        sends(q, ms) == q + ms,
    decreases ms.len(),
{
    if ms.len() > 0 {
        lemma_sends_append(q.push(ms[0]), ms.drop_first());
        assert(q.push(ms[0]) + ms.drop_first() =~= q + ms);
    }
}

/// `n` receives in a row on a queue holding at least `n` messages return
/// its first `n` messages in order, each once, and leave the rest.
pub proof fn lemma_receives_in_order<T>(q: Seq<T>, n: nat)
    requires
        n <= q.len(),
    ensures
        receives(q, n).0 == q.take(n as int).map_values(|m: T| Some(m)),
        receives(q, n).1 == q.skip(n as int),
    decreases n,
{
    if n == 0 {
        assert(q.take(0).map_values(|m: T| Some(m)) =~= Seq::<Option<T>>::empty());
        assert(q.skip(0) =~= q);
    } else {
        let q1 = q.drop_first();
        lemma_receives_in_order(q1, (n - 1) as nat);
        assert(seq![Some(q[0])] + q1.take(n - 1).map_values(|m: T| Some(m)) =~= q.take(
            n as int,
        ).map_values(|m: T| Some(m)));
        assert(q1.skip(n - 1) =~= q.skip(n as int));
    }
}

/// First in, first out: on a new channel, after `ms` are sent (and nothing
/// received), `ms.len()` receives return `ms` in order, each once; one more
/// receive finds the queue empty (and its receiver waits), and once a later
/// `m` is sent, the next receive returns `m`.
pub proof fn lemma_fifo<T>(ms: Seq<T>, m: T)
    ensures
        receives(sends(Seq::empty(), ms), ms.len()).0 == ms.map_values(|x: T| Some(x)),
        receives(sends(Seq::empty(), ms), ms.len()).1 == Seq::<T>::empty(),
        receives(sends(Seq::empty(), ms), ms.len() + 1).0 == ms.map_values(|x: T| Some(x)).push(
            None,
        ),
        after_receive(after_send(receives(sends(Seq::empty(), ms), ms.len() + 1).1, m)).0 == Some(
            m,
        ),
{
    lemma_sends_append(Seq::<T>::empty(), ms);
    let q = Seq::<T>::empty() + ms;
    assert(q =~= ms);
    lemma_receives_in_order(q, ms.len());
    assert(ms.take(ms.len() as int) =~= ms);
    assert(ms.skip(ms.len() as int) =~= Seq::<T>::empty());
    lemma_receives_tail(q, ms.len());
}

/// Receiving `n` then once more is receiving `n + 1`.
pub proof fn lemma_receives_tail<T>(q: Seq<T>, n: nat)
    ensures
        receives(q, n + 1).0 == receives(q, n).0.push(after_receive(receives(q, n).1).0),
        receives(q, n + 1).1 == after_receive(receives(q, n).1).1,
    decreases n,
{
    if n > 0 {
        let q1 = after_receive(q).1;
        lemma_receives_tail(q1, (n - 1) as nat);
        assert(receives(q, n + 1).0 =~= receives(q, n).0.push(after_receive(receives(q, n).1).0));
    } else {
        reveal_with_fuel(receives, 2);
        assert(receives(q, 1).0 =~= receives(q, 0).0.push(after_receive(q).0));
    }
}

} // verus!
