//! The decisions of the consumer threads in the parking and condition
//! variable demonstrations.
//!
//! With parking, the consumer pops the front of a locked queue: it prints
//! an item, exits once the producer is done, and parks otherwise. With a
//! condition variable, the queue and the `done` flag live together inside
//! one mutex; the consumer waits while there is no item and the producer is
//! not done, and on waking takes the front item or exits. Because `done`
//! is inside the mutex, the producer cannot set it between the consumer's
//! check and its wait: no wake-up is lost.
use vstd::prelude::*;
use std::collections::VecDeque;

verus! {

/// What the parking consumer does with what it popped.
#[derive(Clone, Copy, Debug, PartialEq, Eq, Structural)]
pub enum ParkAction {
    /// Print this item.
    Print(i32),
    /// The queue is empty and the producer is done: stop.
    Exit,
    /// The queue is empty for now: park until unparked.
    Park,
}

/// The parking consumer's decision, from the item it popped (if any) and
/// the `done` flag it then loaded.
pub fn parking_step(front: Option<i32>, done: bool) -> (a: ParkAction)
    ensures
        front matches Some(i) ==> a == ParkAction::Print(i),
        front is None && done ==> a == ParkAction::Exit,
        front is None && !done ==> a == ParkAction::Park,
{
    match front {
        Some(i) => ParkAction::Print(i),
        None => if done {
            ParkAction::Exit
        } else {
            ParkAction::Park
        },
    }
}

/// What the waiting consumer does once it may go on.
#[derive(Clone, Copy, Debug, PartialEq, Eq, Structural)]
pub enum ConsumerAction {
    /// Work on this item (after unlocking the mutex).
    Process(i32),
    /// The queue is empty and the producer is done: stop.
    Exit,
}

/// The condition the consumer waits under: no item and not done.
pub fn keeps_waiting(items_empty: bool, done: bool) -> (w: bool)
    ensures
        w == (items_empty && !done),
{
    items_empty && !done
}

/// The state inside the mutex, and whether the consumer waits on the
/// condition variable.
pub struct WorkQueue {
    items: VecDeque<i32>,
    done: bool,
    consumer_waiting: bool,
}

impl WorkQueue {
    /// The queued items, oldest first.
    pub closed spec fn items(&self) -> Seq<i32> {
        self.items@
    }

    /// Whether the producer is done.
    pub closed spec fn done(&self) -> bool {
        self.done
    }

    /// Whether the consumer waits on the condition variable.
    pub closed spec fn consumer_waiting(&self) -> bool {
        self.consumer_waiting
    }

    /// The consumer waits only while there is nothing for it to do.
    pub open spec fn wf(&self) -> bool {
        self.consumer_waiting() ==> self.items().len() == 0 && !self.done()
    }

    /// An empty queue, the producer not done, the consumer not waiting.
    pub fn new() -> (q: Self)
        ensures
            q.wf(),
            q.items() == Seq::<i32>::empty(),
            !q.done(),
            !q.consumer_waiting(),
    {
        WorkQueue { items: VecDeque::new(), done: false, consumer_waiting: false }
    }

    /// The producer pushes `i` and notifies the condition variable, which
    /// wakes the consumer if it waits.
    pub fn push(&mut self, i: i32)
        requires
            old(self).wf(),
            !old(self).done(),
        ensures
            final(self).wf(),
            final(self).items() == old(self).items().push(i),
            final(self).done() == old(self).done(),
            !final(self).consumer_waiting(),
    {
        self.items.push_back(i);
        self.consumer_waiting = false;
    }

    /// The producer sets `done` and notifies the condition variable, which
    /// wakes the consumer if it waits.
    pub fn finish(&mut self)
        requires
            old(self).wf(),
        ensures
            final(self).wf(),
            final(self).done(),
            final(self).items() == old(self).items(),
            !final(self).consumer_waiting(),
    {
        self.done = true;
        self.consumer_waiting = false;
    }

    /// Whether the consumer has to wait: the predicate of its `wait_while`.
    pub fn must_wait(&self) -> (w: bool)
        ensures
            w == (self.items().len() == 0 && !self.done()),
    {
        keeps_waiting(self.items.len() == 0, self.done)
    }

    /// One round of the consumer with the mutex locked: it waits while it
    /// must (and `None` is returned); otherwise it takes the front item, or
    /// exits when the queue is empty and the producer done.
    pub fn consume(&mut self) -> (a: Option<ConsumerAction>)
        requires
            old(self).wf(),
        ensures
            final(self).wf(),
            final(self).done() == old(self).done(),
            final(self).consumer_waiting() == (a is None),
            old(self).items().len() > 0 ==> a == Some(ConsumerAction::Process(old(self).items()[0]))
                && final(self).items() == old(self).items().drop_first(),
            old(self).items().len() == 0 && old(self).done() ==> a == Some(ConsumerAction::Exit)
                && final(self).items() == old(self).items(),
            old(self).items().len() == 0 && !old(self).done() ==> a is None && final(self).items()
                == old(self).items(),
    {
        if keeps_waiting(self.items.len() == 0, self.done) {
            self.consumer_waiting = true;
            return None;
        }
        self.consumer_waiting = false;
        match self.items.pop_front() {
            Some(i) => Some(ConsumerAction::Process(i)),
            None => Some(ConsumerAction::Exit),
        }
    }
}

/// No lost wake-up, from the invariant `wf` that `new` establishes and that
/// `push`, `finish` and `consume` each re-establish: whenever the consumer
/// waits, there is no item and the producer is not done, so a push or the
/// finish, which notify it, are still to come.
pub proof fn lemma_no_lost_wakeup(q: &WorkQueue)
    requires
        q.wf(),
    ensures
        q.consumer_waiting() ==> q.items().len() == 0 && !q.done(),
{
}

/// What `n` consumer rounds in a row return, and the queue left, when
/// nothing is pushed in between.
pub open spec fn consume_rounds(items: Seq<i32>, done: bool, n: nat) -> Seq<Option<ConsumerAction>>
    decreases n,
{
    if n == 0 {
        Seq::empty()
    } else if items.len() > 0 {
        seq![Some(ConsumerAction::Process(items[0]))] + consume_rounds(
            items.drop_first(),
            done,
            (n - 1) as nat,
        )
    } else if done {
        seq![Some(ConsumerAction::Exit)] + consume_rounds(items, done, (n - 1) as nat)
    } else {
        seq![None] + consume_rounds(items, done, (n - 1) as nat)
    }
}

/// The consumer processes every item the producer pushed, in order, each
/// once, and then exits: after the items `ms` are pushed and the producer
/// is done, `ms.len() + 1` rounds process `ms` in order and then exit.
pub proof fn lemma_processes_all_then_exits(ms: Seq<i32>)
    ensures
        consume_rounds(ms, true, ms.len() + 1) == ms.map_values(|i: i32| Some(ConsumerAction::Process(i))).push(
            Some(ConsumerAction::Exit),
        ),
    decreases ms.len(),
{
    if ms.len() == 0 {
        reveal_with_fuel(consume_rounds, 2);
        assert(consume_rounds(ms, true, 1) =~= seq![Some(ConsumerAction::Exit)]);
    } else {
        lemma_processes_all_then_exits(ms.drop_first());
        assert(ms.map_values(|i: i32| Some(ConsumerAction::Process(i))).push(
            Some(ConsumerAction::Exit),
        ) =~= seq![Some(ConsumerAction::Process(ms[0]))] + ms.drop_first().map_values(
            |i: i32| Some(ConsumerAction::Process(i)),
        ).push(Some(ConsumerAction::Exit)));
    }
}

} // verus!
