//! Lazily initialising a shared value through a pointer, as a sequentially
//! consistent model.
//!
//! A shared pointer starts null. A thread loads it; if it is null the
//! thread allocates its own `Data` and publishes it with
//! `compare_exchange(null, ours)`. The loser of that race frees its
//! allocation and takes the winner's. Every thread's step is one call, so
//! agreement can be stated over every interleaving.
use vstd::prelude::*;

verus! {

/// The lazily initialised value.
#[derive(Clone, Copy, Debug, PartialEq, Eq, Structural)]
pub struct Data(pub usize, pub usize, pub usize, pub usize);

impl Data {
    /// The value a thread numbered `t` would initialise: `t + 1` to `t + 4`.
    pub fn new(t: usize) -> (d: Data)
        requires
            t + 4 <= usize::MAX,
        ensures
            d == Data((t + 1) as usize, (t + 2) as usize, (t + 3) as usize, (t + 4) as usize),
    {
        Data(t + 1, t + 2, t + 3, t + 4)
    }
}

/// Where one thread stands in getting the value.
#[derive(Clone, Copy, Debug, PartialEq, Eq, Structural)]
pub enum DataStep {
    /// Has not looked at the pointer yet.
    Start,
    /// Loaded null: must allocate a value.
    NeedData,
    /// Allocated this value; about to publish it.
    Allocated(Data),
    /// Finished with this value.
    Done(Data),
}

/// The value thread's step holds (meaningful while it is `Allocated`).
pub open spec fn allocated_data(step: DataStep) -> Data {
    match step {
        DataStep::Allocated(d) => d,
        _ => Data(0, 0, 0, 0),
    }
}

/// A thread may start getting the value: it has not yet, or it has
/// finished an earlier call.
pub open spec fn ready_to_load(step: DataStep) -> bool {
    step == DataStep::Start || step is Done
}

/// The race after thread `t` loads the pointer.
pub open spec fn after_load(s: (Option<Data>, Seq<DataStep>), t: int) -> (
    Option<Data>,
    Seq<DataStep>,
) {
    match s.0 {
        Some(d) => (s.0, s.1.update(t, DataStep::Done(d))),
        None => (s.0, s.1.update(t, DataStep::NeedData)),
    }
}

/// The race after thread `t` allocates `d`.
pub open spec fn after_allocate(s: (Option<Data>, Seq<DataStep>), t: int, d: Data) -> (
    Option<Data>,
    Seq<DataStep>,
) {
    (s.0, s.1.update(t, DataStep::Allocated(d)))
}

/// The race after thread `t` tries `compare_exchange(null, ours)`: it wins
/// while the pointer is null, and otherwise takes the published value.
pub open spec fn after_publish(s: (Option<Data>, Seq<DataStep>), t: int) -> (
    Option<Data>,
    Seq<DataStep>,
) {
    let d = allocated_data(s.1[t]);
    match s.0 {
        None => (Some(d), s.1.update(t, DataStep::Done(d))),
        Some(p) => (s.0, s.1.update(t, DataStep::Done(p))),
    }
}

/// Every finished thread holds the published value.
pub open spec fn agreement(s: (Option<Data>, Seq<DataStep>)) -> bool {
    forall|i: int|
        0 <= i < s.1.len() ==> match #[trigger] s.1[i] {
            DataStep::Done(d) => s.0 == Some(d),
            _ => true,
        }
}

/// The shared pointer (`None` for null) and every thread's progress.
pub struct DataRace {
    ptr: Option<Data>,
    threads: Vec<DataStep>,
}

impl View for DataRace {
    /// The published value and where each thread stands.
    type V = (Option<Data>, Seq<DataStep>);

    closed spec fn view(&self) -> (Option<Data>, Seq<DataStep>) {
        (self.ptr, self.threads@)
    }
}

impl DataRace {
    /// A null pointer and no threads.
    pub fn new() -> (r: Self)
        ensures
            r@ == (None::<Data>, Seq::<DataStep>::empty()),
    {
        DataRace { ptr: None, threads: Vec::new() }
    }

    /// Registers a thread that has not started; returns its index.
    pub fn add_thread(&mut self) -> (t: usize)
        requires
            old(self)@.1.len() < usize::MAX,
        ensures
            t == old(self)@.1.len(),
            final(self)@ == (old(self)@.0, old(self)@.1.push(DataStep::Start)),
    {
        let t = self.threads.len();
        self.threads.push(DataStep::Start);
        t
    }

    /// Where thread `t` stands.
    pub fn step(&self, t: usize) -> (s: DataStep)
        requires
            t < self@.1.len(),
        ensures
            s == self@.1[t as int],
    {
        self.threads[t]
    }

    /// Thread `t` loads the pointer.
    pub fn load(&mut self, t: usize)
        requires
            t < old(self)@.1.len(),
            ready_to_load(old(self)@.1[t as int]),
        ensures
            final(self)@ == after_load(old(self)@, t as int),
    {
        match self.ptr {
            Some(d) => self.threads.set(t, DataStep::Done(d)),
            None => self.threads.set(t, DataStep::NeedData),
        }
    }

    /// Thread `t` allocates `Data::new(seed)`.
    pub fn allocate(&mut self, t: usize, seed: usize)
        requires
            t < old(self)@.1.len(),
            old(self)@.1[t as int] == DataStep::NeedData,
            seed + 4 <= usize::MAX,
        ensures
            final(self)@ == after_allocate(
                old(self)@,
                t as int,
                Data((seed + 1) as usize, (seed + 2) as usize, (seed + 3) as usize, (seed + 4) as usize),
            ),
    {
        let d = Data::new(seed);
        self.threads.set(t, DataStep::Allocated(d));
    }

    /// Thread `t` publishes its value with `compare_exchange(null, ours)`.
    /// The loser's own allocation is freed: it is handed back here.
    pub fn publish(&mut self, t: usize) -> (freed: Option<Data>)
        requires
            t < old(self)@.1.len(),
            old(self)@.1[t as int] is Allocated,
        ensures
            final(self)@ == after_publish(old(self)@, t as int),
            old(self)@.0 is None ==> freed is None,
            old(self)@.0 is Some ==> freed == Some(allocated_data(old(self)@.1[t as int])),
    {
        let d = match self.threads[t] {
            DataStep::Allocated(d) => d,
            _ => Data(0, 0, 0, 0),
        };
        match self.ptr {
            None => {
                self.ptr = Some(d);
                self.threads.set(t, DataStep::Done(d));
                None
            },
            Some(p) => {
                self.threads.set(t, DataStep::Done(p));
                Some(d)
            },
        }
    }

    /// Registered thread `thread` gets the value without interruption: the
    /// published one, or else its own `Data::new(t)`, which it publishes.
    /// Computing its own value overflows (and panics) when `t + 4` exceeds
    /// `usize::MAX`; that only happens while nothing is published.
    pub fn get_data(&mut self, thread: usize, t: usize) -> (d: Data)
        requires
            thread < old(self)@.1.len(),
            ready_to_load(old(self)@.1[thread as int]),
            old(self)@.0 is None ==> t + 4 <= usize::MAX,
        ensures
            old(self)@.0 is Some ==> d == old(self)@.0->0,
            old(self)@.0 is None ==> d == Data(
                (t + 1) as usize,
                (t + 2) as usize,
                (t + 3) as usize,
                (t + 4) as usize,
            ),
            final(self)@.0 == Some(d),
            final(self)@.1 == old(self)@.1.update(thread as int, DataStep::Done(d)),
    {
        self.load(thread);
        match self.ptr {
            Some(d) => d,
            None => {
                self.allocate(thread, t);
                let _ = self.publish(thread);
                Data::new(t)
            },
        }
    }
}

/// All threads get the same value: every step keeps every finished thread
/// on the published value, and once published it never changes.
pub proof fn lemma_publish_agrees(s: (Option<Data>, Seq<DataStep>), t: int, d: Data)
    requires
        agreement(s),
        0 <= t < s.1.len(),
    ensures
        ready_to_load(s.1[t]) ==> agreement(after_load(s, t)),
        s.1[t] == DataStep::NeedData ==> agreement(after_allocate(s, t, d)),
        s.1[t] is Allocated ==> agreement(after_publish(s, t)),
        s.0 is Some ==> after_publish(s, t).0 == s.0 && after_load(s, t).0 == s.0,
{
    if ready_to_load(s.1[t]) {
        let s1 = after_load(s, t);
        assert forall|i: int| 0 <= i < s1.1.len() implies match #[trigger] s1.1[i] {
            DataStep::Done(d) => s1.0 == Some(d),
            _ => true,
        } by {
            if i != t {
                assert(s1.1[i] == s.1[i]);
            }
        }
    }
    if s.1[t] == DataStep::NeedData {
        let s1 = after_allocate(s, t, d);
        assert forall|i: int| 0 <= i < s1.1.len() implies match #[trigger] s1.1[i] {
            DataStep::Done(d) => s1.0 == Some(d),
            _ => true,
        } by {
            if i != t {
                assert(s1.1[i] == s.1[i]);
            }
        }
    }
    if s.1[t] is Allocated {
        let s1 = after_publish(s, t);
        assert forall|i: int| 0 <= i < s1.1.len() implies match #[trigger] s1.1[i] {
            DataStep::Done(d) => s1.0 == Some(d),
            _ => true,
        } by {
            if i != t {
                assert(s1.1[i] == s.1[i]);
                if s.0 is None {
                    match s.1[i] {
                        DataStep::Done(e) => {
                            assert(s.0 == Some(e));
                        },
                        _ => {},
                    }
                }
            }
        }
    }
}

} // verus!
