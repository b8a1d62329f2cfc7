//! Lazily initialising a shared key, as a sequentially consistent model.
//!
//! A shared word `key` starts at 0 (no key yet). A thread loads it; if it is
//! 0 the thread generates a random key and publishes it, either with a
//! plain store (threads may overwrite each other's keys and end up with
//! different keys) or with `compare_exchange(0, new)` (the first key wins
//! and every thread ends up with it). Every thread's step is one call, so
//! both outcomes can be stated over every interleaving.
use vstd::prelude::*;
use crate::chapter2::random_key::{generate_random_key, DrawnKey};

verus! {

/// Where one thread stands in getting the key.
#[derive(Clone, Copy, Debug, PartialEq, Eq, Structural)]
pub enum KeyStep {
    /// Has not looked at the key yet.
    Start,
    /// Loaded 0: must generate a key.
    NeedKey,
    /// Generated this key; about to publish it.
    Generated(u64),
    /// Finished with this key.
    Done(u64),
}

/// A thread may start getting the key: it has not yet, or it has finished
/// an earlier call.
pub open spec fn ready_to_load(step: KeyStep) -> bool {
    step == KeyStep::Start || step is Done
}

/// The thread after loading: done with a nonzero key, else it needs one.
pub open spec fn loaded(key: u64) -> KeyStep {
    if key != 0 {
        KeyStep::Done(key)
    } else {
        KeyStep::NeedKey
    }
}

/// The race after thread `t` loads the key.
pub open spec fn after_load(s: (u64, Seq<KeyStep>), t: int) -> (u64, Seq<KeyStep>) {
    (s.0, s.1.update(t, loaded(s.0)))
}

/// The race after thread `t` generates `fresh`.
pub open spec fn after_generate(s: (u64, Seq<KeyStep>), t: int, fresh: u64) -> (
    u64,
    Seq<KeyStep>,
) {
    (s.0, s.1.update(t, KeyStep::Generated(fresh)))
}

/// The key thread `t` generated (meaningful while it is `Generated`).
pub open spec fn generated_key(step: KeyStep) -> u64 {
    match step {
        KeyStep::Generated(k) => k,
        _ => 0,
    }
}

/// The race after thread `t` stores its key: it overwrites whatever was
/// there and keeps its own key.
pub open spec fn after_store(s: (u64, Seq<KeyStep>), t: int) -> (u64, Seq<KeyStep>) {
    let k = generated_key(s.1[t]);
    (k, s.1.update(t, KeyStep::Done(k)))
}

/// The race after thread `t` publishes its key with `compare_exchange(0, k)`:
/// it wins if the key is still 0, and otherwise takes the key already there.
pub open spec fn after_compare_exchange(s: (u64, Seq<KeyStep>), t: int) -> (u64, Seq<KeyStep>) {
    let k = generated_key(s.1[t]);
    if s.0 == 0 {
        (k, s.1.update(t, KeyStep::Done(k)))
    } else {
        (s.0, s.1.update(t, KeyStep::Done(s.0)))
    }
}

/// One uninterrupted call of thread `t` publishing with a store, when the
/// random number generator gives `fresh`.
pub open spec fn call_with_store(s: (u64, Seq<KeyStep>), t: int, fresh: u64) -> (
    u64,
    Seq<KeyStep>,
) {
    let s1 = after_load(s, t);
    if s.0 == 0 {
        after_store(after_generate(s1, t, fresh), t)
    } else {
        s1
    }
}

/// One uninterrupted call of thread `t` publishing with `compare_exchange`,
/// when the random number generator gives `fresh`.
pub open spec fn call_with_compare_exchange(s: (u64, Seq<KeyStep>), t: int, fresh: u64) -> (
    u64,
    Seq<KeyStep>,
) {
    let s1 = after_load(s, t);
    if s.0 == 0 {
        after_compare_exchange(after_generate(s1, t, fresh), t)
    } else {
        s1
    }
}

/// Every finished thread holds the shared key, which is then set, and every
/// generated key is nonzero.
pub open spec fn agreement(s: (u64, Seq<KeyStep>)) -> bool {
    &&& forall|i: int|
        0 <= i < s.1.len() ==> match #[trigger] s.1[i] {
            KeyStep::Done(k) => k == s.0 && k != 0,
            KeyStep::Generated(k) => k != 0,
            _ => true,
        }
}

/// The shared key and every thread's progress.
pub struct KeyRace {
    key: u64,
    threads: Vec<KeyStep>,
}

impl View for KeyRace {
    /// The shared key and where each thread stands.
    type V = (u64, Seq<KeyStep>);

    closed spec fn view(&self) -> (u64, Seq<KeyStep>) {
        (self.key, self.threads@)
    }
}

impl KeyRace {
    /// No key yet and no threads.
    pub fn new() -> (r: Self)
        ensures
            r@ == (0u64, Seq::<KeyStep>::empty()),
    {
        KeyRace { key: 0, threads: Vec::new() }
    }

    /// Registers a thread that has not started; returns its index.
    pub fn add_thread(&mut self) -> (t: usize)
        requires
            old(self)@.1.len() < usize::MAX,
        ensures
            t == old(self)@.1.len(),
            final(self)@ == (old(self)@.0, old(self)@.1.push(KeyStep::Start)),
    {
        let t = self.threads.len();
        self.threads.push(KeyStep::Start);
        t
    }

    /// The shared key.
    pub fn key(&self) -> (k: u64)
        ensures
            k == self@.0,
    {
        self.key
    }

    /// Where thread `t` stands.
    pub fn step(&self, t: usize) -> (s: KeyStep)
        requires
            t < self@.1.len(),
        ensures
            s == self@.1[t as int],
    {
        self.threads[t]
    }

    /// Thread `t` loads the key.
    pub fn load(&mut self, t: usize)
        requires
            t < old(self)@.1.len(),
            ready_to_load(old(self)@.1[t as int]),
        ensures
            final(self)@ == after_load(old(self)@, t as int),
    {
        let k = self.key;
        if k != 0 {
            self.threads.set(t, KeyStep::Done(k));
        } else {
            self.threads.set(t, KeyStep::NeedKey);
        }
    }

    /// Thread `t` has generated `fresh`.
    pub fn generate(&mut self, t: usize, fresh: u64)
        requires
            t < old(self)@.1.len(),
            old(self)@.1[t as int] == KeyStep::NeedKey,
        ensures
            final(self)@ == after_generate(old(self)@, t as int, fresh),
    {
        self.threads.set(t, KeyStep::Generated(fresh));
    }

    /// Thread `t` publishes its key with a plain store.
    pub fn publish_with_store(&mut self, t: usize)
        requires
            t < old(self)@.1.len(),
            old(self)@.1[t as int] is Generated,
        ensures
            final(self)@ == after_store(old(self)@, t as int),
    {
        let k = match self.threads[t] {
            KeyStep::Generated(k) => k,
            _ => 0,
        };
        self.key = k;
        self.threads.set(t, KeyStep::Done(k));
    }

    /// Thread `t` publishes its key with `compare_exchange(0, key)`.
    pub fn publish_with_compare_exchange(&mut self, t: usize)
        requires
            t < old(self)@.1.len(),
            old(self)@.1[t as int] is Generated,
        ensures
            final(self)@ == after_compare_exchange(old(self)@, t as int),
    {
        let k = match self.threads[t] {
            KeyStep::Generated(k) => k,
            _ => 0,
        };
        if self.key == 0 {
            self.key = k;
            self.threads.set(t, KeyStep::Done(k));
        } else {
            let current = self.key;
            self.threads.set(t, KeyStep::Done(current));
        }
    }

    /// Thread `t` gets the key without interruption, publishing with a
    /// store: a key already there is returned, otherwise a fresh random key
    /// is stored and returned.
    pub fn get_key_with_store(&mut self, t: usize) -> (k: u64)
        requires
            t < old(self)@.1.len(),
            ready_to_load(old(self)@.1[t as int]),
        ensures
            exists|fresh: u64| final(self)@ == call_with_store(old(self)@, t as int, fresh),
            exists|d: DrawnKey| final(self)@ == call_with_store(old(self)@, t as int, d@),
            old(self)@.0 == 0 ==> exists|d: DrawnKey| k == d@,
            old(self)@.0 != 0 ==> k == old(self)@.0,
            final(self)@.0 == k,
            final(self)@.1 == old(self)@.1.update(t as int, KeyStep::Done(k)),
    {
        self.load(t);
        if self.key != 0 {
            assert(self@ == call_with_store(old(self)@, t as int, 0));
            proof {
                let d: DrawnKey = arbitrary();
                assert(self@ == call_with_store(old(self)@, t as int, d@));
            }
            return self.key;
        }
        let drawn = generate_random_key();
        let fresh = drawn.value();
        self.generate(t, fresh);
        self.publish_with_store(t);
        assert(self@ == call_with_store(old(self)@, t as int, fresh));
        assert(self@ == call_with_store(old(self)@, t as int, drawn@));
        assert(fresh == drawn@);
        fresh
    }

    /// Thread `t` gets the key without interruption, publishing with
    /// `compare_exchange`: a key already there is returned, otherwise a fresh
    /// random key is published and returned.
    pub fn get_key_with_compare_exchange(&mut self, t: usize) -> (k: u64)
        requires
            t < old(self)@.1.len(),
            ready_to_load(old(self)@.1[t as int]),
        ensures
            exists|fresh: u64| final(self)@ == call_with_compare_exchange(old(self)@, t as int, fresh),
            exists|d: DrawnKey| final(self)@ == call_with_compare_exchange(old(self)@, t as int, d@),
            old(self)@.0 == 0 ==> exists|d: DrawnKey| k == d@,
            old(self)@.0 != 0 ==> k == old(self)@.0,
            final(self)@.0 == k,
            final(self)@.1 == old(self)@.1.update(t as int, KeyStep::Done(k)),
            agreement(old(self)@) && k != 0 ==> agreement(final(self)@),
    {
        let ghost s0 = self@;
        self.load(t);
        proof {
            if agreement(s0) {
                lemma_compare_exchange_agrees(s0, t as int, 0);
            }
        }
        if self.key != 0 {
            assert(self@ == call_with_compare_exchange(old(self)@, t as int, 0));
            proof {
                let d: DrawnKey = arbitrary();
                assert(self@ == call_with_compare_exchange(old(self)@, t as int, d@));
            }
            return self.key;
        }
        let drawn = generate_random_key();
        let fresh = drawn.value();
        let ghost s1 = self@;
        self.generate(t, fresh);
        let ghost s2 = self@;
        proof {
            if agreement(s0) && fresh != 0 {
                lemma_compare_exchange_agrees(s1, t as int, fresh);
                lemma_compare_exchange_agrees(s2, t as int, 0);
            }
        }
        self.publish_with_compare_exchange(t);
        assert(self@ == call_with_compare_exchange(old(self)@, t as int, fresh));
        assert(self@ == call_with_compare_exchange(old(self)@, t as int, drawn@));
        assert(self.key == drawn@);
        self.key
    }

    /// The key-getting routine in use: the one with `compare_exchange`.
    pub fn get_key(&mut self, t: usize) -> (k: u64)
        requires
            t < old(self)@.1.len(),
            ready_to_load(old(self)@.1[t as int]),
        ensures
            exists|fresh: u64| final(self)@ == call_with_compare_exchange(old(self)@, t as int, fresh),
            exists|d: DrawnKey| final(self)@ == call_with_compare_exchange(old(self)@, t as int, d@),
            old(self)@.0 == 0 ==> exists|d: DrawnKey| k == d@,
            old(self)@.0 != 0 ==> k == old(self)@.0,
            final(self)@.0 == k,
            final(self)@.1 == old(self)@.1.update(t as int, KeyStep::Done(k)),
            agreement(old(self)@) && k != 0 ==> agreement(final(self)@),
    {
        self.get_key_with_compare_exchange(t)
    }
}

/// With `compare_exchange`, all threads agree: starting from no key, and as
/// long as no generated key is 0, every step keeps every finished thread on
/// the one shared key. (A generated 0 would be published as "no key", and a
/// later thread could replace it.)
pub proof fn lemma_compare_exchange_agrees(s: (u64, Seq<KeyStep>), t: int, fresh: u64)
    requires
        agreement(s),
        0 <= t < s.1.len(),
    ensures
        ready_to_load(s.1[t]) ==> agreement(after_load(s, t)),
        s.1[t] == KeyStep::NeedKey && fresh != 0 ==> agreement(after_generate(s, t, fresh)),
        s.1[t] is Generated ==> agreement(after_compare_exchange(s, t)),
        s.0 != 0 ==> after_compare_exchange(s, t).0 == s.0 && after_load(s, t).0 == s.0,
{
    if ready_to_load(s.1[t]) {
        let s1 = after_load(s, t);
        assert forall|i: int| 0 <= i < s1.1.len() implies match #[trigger] s1.1[i] {
            KeyStep::Done(k) => k == s1.0 && k != 0,
            KeyStep::Generated(k) => k != 0,
            _ => true,
        } by {
            if i != t {
                assert(s1.1[i] == s.1[i]);
            }
        }
    }
    if s.1[t] == KeyStep::NeedKey && fresh != 0 {
        let s1 = after_generate(s, t, fresh);
        assert forall|i: int| 0 <= i < s1.1.len() implies match #[trigger] s1.1[i] {
            KeyStep::Done(k) => k == s1.0 && k != 0,
            KeyStep::Generated(k) => k != 0,
            _ => true,
        } by {
            if i != t {
                assert(s1.1[i] == s.1[i]);
            }
        }
    }
    if s.1[t] is Generated {
        let s1 = after_compare_exchange(s, t);
        assert(generated_key(s.1[t]) != 0);
        assert forall|i: int| 0 <= i < s1.1.len() implies match #[trigger] s1.1[i] {
            KeyStep::Done(k) => k == s1.0 && k != 0,
            KeyStep::Generated(k) => k != 0,
            _ => true,
        } by {
            if i != t {
                assert(s1.1[i] == s.1[i]);
                if s.0 == 0 {
                    match s.1[i] {
                        KeyStep::Done(k) => {
                            assert(k == s.0 && k != 0);
                        },
                        _ => {},
                    }
                }
            }
        }
    }
}

/// A race starting with no key agrees.
pub proof fn lemma_start_agrees(steps: Seq<KeyStep>)
    requires
        forall|i: int| 0 <= i < steps.len() ==> steps[i] == KeyStep::Start,
    ensures
        agreement((0u64, steps)),
{
    assert forall|i: int| 0 <= i < steps.len() implies match #[trigger] steps[i] {
        KeyStep::Done(k) => k == 0u64 && k != 0,
        KeyStep::Generated(k) => k != 0,
        _ => true,
    } by {
        assert(steps[i] == KeyStep::Start);
    }
}

/// With plain stores threads may end up with different keys: two threads
/// both load 0, generate different keys and store them one after the other;
/// each keeps its own key.
pub proof fn lemma_store_can_disagree(a: u64, b: u64)
    requires
        a != 0,
        b != 0,
        a != b,
    ensures
        ({
            let s0 = (0u64, seq![KeyStep::Start, KeyStep::Start]);
            let s1 = after_load(after_load(s0, 0), 1);
            let s2 = after_generate(after_generate(s1, 0, a), 1, b);
            let s3 = after_store(after_store(s2, 0), 1);
            &&& s3.1[0] == KeyStep::Done(a)
            &&& s3.1[1] == KeyStep::Done(b)
        }),
{
    let s0 = (0u64, seq![KeyStep::Start, KeyStep::Start]);
    let s1 = after_load(after_load(s0, 0), 1);
    assert(s1.1[0] == KeyStep::NeedKey);
    assert(s1.1[1] == KeyStep::NeedKey);
    let s2 = after_generate(after_generate(s1, 0, a), 1, b);
    assert(s2.1[0] == KeyStep::Generated(a));
    assert(s2.1[1] == KeyStep::Generated(b));
    let s3a = after_store(s2, 0);
    assert(s3a.1[0] == KeyStep::Done(a));
    assert(s3a.1[1] == KeyStep::Generated(b));
}

/// One atomic step of one thread in a key race.
#[derive(Clone, Copy, Debug, PartialEq, Eq, Structural)]
pub enum KeyEvent {
    /// The thread loads the key.
    Load(usize),
    /// The thread generates this key.
    Generate(usize, u64),
    /// The thread publishes its key.
    Publish(usize),
}

/// The event can happen in this state: its thread stands where the step
/// needs it.
pub open spec fn enabled(s: (u64, Seq<KeyStep>), e: KeyEvent) -> bool {
    match e {
        KeyEvent::Load(t) => t < s.1.len() && ready_to_load(s.1[t as int]),
        KeyEvent::Generate(t, _) => t < s.1.len() && s.1[t as int] == KeyStep::NeedKey,
        KeyEvent::Publish(t) => t < s.1.len() && s.1[t as int] is Generated,
    }
}

/// The race after one event, publishing with `compare_exchange`.
pub open spec fn apply_compare_exchange(s: (u64, Seq<KeyStep>), e: KeyEvent) -> (
    u64,
    Seq<KeyStep>,
) {
    match e {
        KeyEvent::Load(t) => after_load(s, t as int),
        KeyEvent::Generate(t, fresh) => after_generate(s, t as int, fresh),
        KeyEvent::Publish(t) => after_compare_exchange(s, t as int),
    }
}

/// The race after a whole interleaving of events, publishing with
/// `compare_exchange`.
pub open spec fn run_compare_exchange(s: (u64, Seq<KeyStep>), es: Seq<KeyEvent>) -> (
    u64,
    Seq<KeyStep>,
)
    decreases es.len(),
{
    if es.len() == 0 {
        s
    } else {
        run_compare_exchange(apply_compare_exchange(s, es[0]), es.drop_first())
    }
}

/// Every event of the interleaving can happen when its turn comes.
pub open spec fn run_enabled(s: (u64, Seq<KeyStep>), es: Seq<KeyEvent>) -> bool
    decreases es.len(),
{
    es.len() == 0 || (enabled(s, es[0]) && run_enabled(
        apply_compare_exchange(s, es[0]),
        es.drop_first(),
    ))
}

/// No thread generates the key 0.
pub open spec fn nonzero_keys(es: Seq<KeyEvent>) -> bool {
    forall|i: int|
        0 <= i < es.len() ==> match #[trigger] es[i] {
            KeyEvent::Generate(_, fresh) => fresh != 0,
            _ => true,
        }
}

/// Over any interleaving of any number of calls from any threads, with
/// `compare_exchange` and no generated 0: every finished thread holds the
/// one shared key, and once a key is there it never changes.
pub proof fn lemma_compare_exchange_run_agrees(s: (u64, Seq<KeyStep>), es: Seq<KeyEvent>)
    requires
        agreement(s),
        run_enabled(s, es),
        nonzero_keys(es),
    ensures
        agreement(run_compare_exchange(s, es)),
        s.0 != 0 ==> run_compare_exchange(s, es).0 == s.0,
        run_compare_exchange(s, es).1.len() == s.1.len(),
    decreases es.len(),
{
    if es.len() > 0 {
        let e = es[0];
        let s1 = apply_compare_exchange(s, e);
        match e {
            KeyEvent::Load(t) => {
                lemma_compare_exchange_agrees(s, t as int, 0);
            },
            KeyEvent::Generate(t, fresh) => {
                assert(fresh != 0) by {
                    assert(es[0] == e);
                }
                lemma_compare_exchange_agrees(s, t as int, fresh);
            },
            KeyEvent::Publish(t) => {
                lemma_compare_exchange_agrees(s, t as int, 0);
            },
        }
        let rest = es.drop_first();
        assert forall|i: int| 0 <= i < rest.len() implies match #[trigger] rest[i] {
            KeyEvent::Generate(_, fresh) => fresh != 0,
            _ => true,
        } by {
            assert(rest[i] == es[i + 1]);
        }
        lemma_compare_exchange_run_agrees(s1, rest);
    }
}

/// A first call on no key publishes and returns the key the generator
/// drew, and a second call returns that same key without drawing again
/// (whatever the generator would give). Only a drawn 0, which reads as
/// "no key yet", leaves the key unset, and the next call then publishes its
/// own draw. This holds for both routines.
pub proof fn lemma_first_call_publishes_draw_second_returns_it(
    s: (u64, Seq<KeyStep>),
    t: int,
    d1: DrawnKey,
    d2: DrawnKey,
)
    requires
        0 <= t < s.1.len(),
        ready_to_load(s.1[t]),
        s.0 == 0,
    ensures
        call_with_compare_exchange(s, t, d1@).0 == d1@,
        call_with_compare_exchange(s, t, d1@).1[t] == KeyStep::Done(d1@),
        d1@ != 0 ==> call_with_compare_exchange(call_with_compare_exchange(s, t, d1@), t, d2@)
            == call_with_compare_exchange(s, t, d1@),
        d1@ == 0 ==> call_with_compare_exchange(call_with_compare_exchange(s, t, d1@), t, d2@).0
            == d2@,
        call_with_store(s, t, d1@).0 == d1@,
        call_with_store(s, t, d1@).1[t] == KeyStep::Done(d1@),
        d1@ != 0 ==> call_with_store(call_with_store(s, t, d1@), t, d2@) == call_with_store(
            s,
            t,
            d1@,
        ),
        d1@ == 0 ==> call_with_store(call_with_store(s, t, d1@), t, d2@).0 == d2@,
{
    let c = call_with_compare_exchange(s, t, d1@);
    assert(c.1 == s.1.update(t, KeyStep::Done(d1@)));
    if d1@ != 0 {
        assert(c.1.update(t, KeyStep::Done(d1@)) =~= c.1);
    }
    let w = call_with_store(s, t, d1@);
    assert(w.1 == s.1.update(t, KeyStep::Done(d1@)));
    if d1@ != 0 {
        assert(w.1.update(t, KeyStep::Done(d1@)) =~= w.1);
    }
}

/// The steps of one uninterrupted call of thread `t` publishing with
/// `compare_exchange`, when the generator gives `fresh`: a load, and when
/// no key is there a generation and a publication.
pub open spec fn call_events(s: (u64, Seq<KeyStep>), t: usize, fresh: u64) -> Seq<KeyEvent> {
    if s.0 == 0 {
        seq![KeyEvent::Load(t), KeyEvent::Generate(t, fresh), KeyEvent::Publish(t)]
    } else {
        seq![KeyEvent::Load(t)]
    }
}

/// A whole call is one interleaving of its own steps: concurrent whole
/// calls are interleavings of their steps, which
/// `lemma_compare_exchange_run_agrees` covers.
pub proof fn lemma_call_is_run(s: (u64, Seq<KeyStep>), t: usize, fresh: u64)
    requires
        t < s.1.len(),
        ready_to_load(s.1[t as int]),
    ensures
        run_enabled(s, call_events(s, t, fresh)),
        run_compare_exchange(s, call_events(s, t, fresh)) == call_with_compare_exchange(
            s,
            t as int,
            fresh,
        ),
{
    let es = call_events(s, t, fresh);
    let s1 = after_load(s, t as int);
    if s.0 == 0 {
        let s2 = after_generate(s1, t as int, fresh);
        let s3 = after_compare_exchange(s2, t as int);
        assert(es.drop_first() =~= seq![KeyEvent::Generate(t, fresh), KeyEvent::Publish(t)]);
        assert(es.drop_first().drop_first() =~= seq![KeyEvent::Publish(t)]);
        assert(es.drop_first().drop_first().drop_first() =~= Seq::<KeyEvent>::empty());
        assert(run_enabled(s3, Seq::<KeyEvent>::empty()));
        assert(run_enabled(s2, seq![KeyEvent::Publish(t)]));
        assert(run_enabled(s1, es.drop_first()));
        assert(run_compare_exchange(s3, Seq::<KeyEvent>::empty()) == s3);
        assert(run_compare_exchange(s2, seq![KeyEvent::Publish(t)]) == s3);
        assert(run_compare_exchange(s1, es.drop_first()) == s3);
    } else {
        assert(es.drop_first() =~= Seq::<KeyEvent>::empty());
        assert(run_enabled(s1, Seq::<KeyEvent>::empty()));
        assert(run_compare_exchange(s1, Seq::<KeyEvent>::empty()) == s1);
    }
}

/// Uninterrupted calls in turn, publishing with `compare_exchange`, each
/// when the random number generator gives the paired key.
pub open spec fn run_calls_with_compare_exchange(
    s: (u64, Seq<KeyStep>),
    calls: Seq<(usize, u64)>,
) -> (u64, Seq<KeyStep>)
    decreases calls.len(),
{
    if calls.len() == 0 {
        s
    } else {
        run_calls_with_compare_exchange(
            call_with_compare_exchange(s, calls[0].0 as int, calls[0].1),
            calls.drop_first(),
        )
    }
}

/// With `compare_exchange` and whole calls made one after another, none
/// drawing the key 0: every thread that made a call holds the one shared
/// key, which is set after the first call and never changes once set, and
/// threads that had finished stay finished.
pub proof fn lemma_compare_exchange_calls_agree(s: (u64, Seq<KeyStep>), calls: Seq<(usize, u64)>)
    requires
        agreement(s),
        all_ready(s.1),
        forall|j: int| 0 <= j < calls.len() ==> (#[trigger] calls[j]).0 < s.1.len(),
        forall|j: int| 0 <= j < calls.len() ==> (#[trigger] calls[j]).1 != 0,
    ensures
        agreement(run_calls_with_compare_exchange(s, calls)),
        all_ready(run_calls_with_compare_exchange(s, calls).1),
        run_calls_with_compare_exchange(s, calls).1.len() == s.1.len(),
        s.0 != 0 ==> run_calls_with_compare_exchange(s, calls).0 == s.0,
        calls.len() > 0 ==> run_calls_with_compare_exchange(s, calls).0 != 0,
        forall|i: int|
            0 <= i < s.1.len() && s.1[i] is Done ==> run_calls_with_compare_exchange(s, calls).1[i] is Done,
        forall|j: int|
            0 <= j < calls.len() ==> run_calls_with_compare_exchange(s, calls).1[(#[trigger] calls[j]).0 as int]
                == KeyStep::Done(run_calls_with_compare_exchange(s, calls).0),
    decreases calls.len(),
{
    if calls.len() > 0 {
        let t = calls[0].0 as int;
        let fresh = calls[0].1;
        assert(calls[0].1 != 0);
        assert(calls[0].0 < s.1.len());
        let s1 = after_load(s, t);
        lemma_compare_exchange_agrees(s, t, 0);
        let c = call_with_compare_exchange(s, t, fresh);
        if s.0 == 0 {
            let s2 = after_generate(s1, t, fresh);
            lemma_compare_exchange_agrees(s1, t, fresh);
            lemma_compare_exchange_agrees(s2, t, 0);
            assert(c.0 == fresh);
        }
        assert(c.1 == s.1.update(t, KeyStep::Done(c.0)));
        assert(c.0 != 0);
        assert forall|i: int| 0 <= i < c.1.len() implies ready_to_load(#[trigger] c.1[i]) by {
            if i != t {
                assert(c.1[i] == s.1[i]);
            }
        }
        let rest = calls.drop_first();
        assert forall|j: int| 0 <= j < rest.len() implies (#[trigger] rest[j]).0 < c.1.len() by {
            assert(rest[j] == calls[j + 1]);
        }
        assert forall|j: int| 0 <= j < rest.len() implies (#[trigger] rest[j]).1 != 0 by {
            assert(rest[j] == calls[j + 1]);
        }
        lemma_compare_exchange_calls_agree(c, rest);
        let r = run_calls_with_compare_exchange(s, calls);
        assert(r == run_calls_with_compare_exchange(c, rest));
        assert(r.0 == c.0);
        assert forall|i: int| 0 <= i < s.1.len() && s.1[i] is Done implies r.1[i] is Done by {
            if i != t {
                assert(c.1[i] == s.1[i]);
            }
        }
        assert forall|j: int| 0 <= j < calls.len() implies r.1[(#[trigger] calls[j]).0 as int]
            == KeyStep::Done(r.0) by {
            if j > 0 {
                assert(calls[j] == rest[j - 1]);
            } else {
                assert(c.1[t] is Done);
                assert(r.1[t] is Done);
                assert(r.1[t] == KeyStep::Done(r.0));
            }
        }
    }
}

/// Uninterrupted calls in turn, publishing with a store, each when the
/// random number generator gives the paired key.
pub open spec fn run_calls_with_store(s: (u64, Seq<KeyStep>), calls: Seq<(usize, u64)>) -> (
    u64,
    Seq<KeyStep>,
)
    decreases calls.len(),
{
    if calls.len() == 0 {
        s
    } else {
        run_calls_with_store(
            call_with_store(s, calls[0].0 as int, calls[0].1),
            calls.drop_first(),
        )
    }
}

/// Every thread may start a call.
pub open spec fn all_ready(steps: Seq<KeyStep>) -> bool {
    forall|i: int| 0 <= i < steps.len() ==> ready_to_load(#[trigger] steps[i])
}

/// With a store and calls made one after another (each returning before
/// the next starts): once a key is there, every later call returns it and
/// keeps it.
pub proof fn lemma_store_calls_keep_key(s: (u64, Seq<KeyStep>), calls: Seq<(usize, u64)>)
    requires
        s.0 != 0,
        all_ready(s.1),
        forall|j: int| 0 <= j < calls.len() ==> (#[trigger] calls[j]).0 < s.1.len(),
    ensures
        run_calls_with_store(s, calls).0 == s.0,
        run_calls_with_store(s, calls).1.len() == s.1.len(),
        all_ready(run_calls_with_store(s, calls).1),
        forall|j: int|
            0 <= j < calls.len() ==> run_calls_with_store(s, calls).1[(#[trigger] calls[j]).0 as int]
                == KeyStep::Done(s.0),
    decreases calls.len(),
{
    if calls.len() > 0 {
        let t = calls[0].0 as int;
        let s1 = call_with_store(s, t, calls[0].1);
        assert(s1 == (s.0, s.1.update(t, KeyStep::Done(s.0))));
        assert forall|i: int| 0 <= i < s1.1.len() implies ready_to_load(#[trigger] s1.1[i]) by {
            if i != t {
                assert(s1.1[i] == s.1[i]);
            }
        }
        let rest = calls.drop_first();
        assert forall|j: int| 0 <= j < rest.len() implies (#[trigger] rest[j]).0 < s1.1.len() by {
            assert(rest[j] == calls[j + 1]);
        }
        lemma_store_calls_keep_key(s1, rest);
        let r = run_calls_with_store(s, calls);
        assert(r == run_calls_with_store(s1, rest));
        assert forall|j: int| 0 <= j < calls.len() implies r.1[(#[trigger] calls[j]).0 as int]
            == KeyStep::Done(s.0) by {
            if j > 0 {
                assert(calls[j] == rest[j - 1]);
            } else {
                let u = calls[0].0 as int;
                if exists|k: int| 0 <= k < rest.len() && rest[k].0 == u {
                    let k = choose|k: int| 0 <= k < rest.len() && rest[k].0 == u;
                    assert(r.1[rest[k].0 as int] == KeyStep::Done(s.0));
                } else {
                    lemma_store_calls_untouched(s1, rest, u);
                }
            }
        }
    }
}

/// A thread that no call in the sequence belongs to keeps its step.
pub proof fn lemma_store_calls_untouched(s: (u64, Seq<KeyStep>), calls: Seq<(usize, u64)>, u: int)
    requires
        0 <= u < s.1.len(),
        forall|j: int| 0 <= j < calls.len() ==> (#[trigger] calls[j]).0 < s.1.len(),
        forall|j: int| 0 <= j < calls.len() ==> (#[trigger] calls[j]).0 != u,
    ensures
        run_calls_with_store(s, calls).1[u] == s.1[u],
        run_calls_with_store(s, calls).1.len() == s.1.len(),
    decreases calls.len(),
{
    if calls.len() > 0 {
        let t = calls[0].0 as int;
        let s1 = call_with_store(s, t, calls[0].1);
        assert(s1.1[u] == s.1[u]);
        assert(s1.1.len() == s.1.len());
        let rest = calls.drop_first();
        assert forall|j: int| 0 <= j < rest.len() implies (#[trigger] rest[j]).0 < s1.1.len()
            && rest[j].0 != u by {
            assert(rest[j] == calls[j + 1]);
        }
        lemma_store_calls_untouched(s1, rest, u);
    }
}

/// With a store and calls made one after another, starting with no key:
/// the first call stores its fresh key (when it is not 0) and every call
/// returns that key, which stays.
pub proof fn lemma_store_sequential_calls_agree(s: (u64, Seq<KeyStep>), calls: Seq<(usize, u64)>)
    requires
        s.0 == 0,
        all_ready(s.1),
        calls.len() > 0,
        calls[0].1 != 0,
        forall|j: int| 0 <= j < calls.len() ==> (#[trigger] calls[j]).0 < s.1.len(),
    ensures
        run_calls_with_store(s, calls).0 == calls[0].1,
        forall|j: int|
            0 <= j < calls.len() ==> run_calls_with_store(s, calls).1[(#[trigger] calls[j]).0 as int]
                == KeyStep::Done(calls[0].1),
{
    let t = calls[0].0 as int;
    let k = calls[0].1;
    let s1 = call_with_store(s, t, k);
    assert(s1 == (k, s.1.update(t, KeyStep::Done(k))));
    assert forall|i: int| 0 <= i < s1.1.len() implies ready_to_load(#[trigger] s1.1[i]) by {
        if i != t {
            assert(s1.1[i] == s.1[i]);
        }
    }
    let rest = calls.drop_first();
    assert forall|j: int| 0 <= j < rest.len() implies (#[trigger] rest[j]).0 < s1.1.len() by {
        assert(rest[j] == calls[j + 1]);
    }
    lemma_store_calls_keep_key(s1, rest);
    let r = run_calls_with_store(s, calls);
    assert(r == run_calls_with_store(s1, rest));
    assert forall|j: int| 0 <= j < calls.len() implies r.1[(#[trigger] calls[j]).0 as int]
        == KeyStep::Done(k) by {
        if j > 0 {
            assert(calls[j] == rest[j - 1]);
        } else {
            if exists|m: int| 0 <= m < rest.len() && rest[m].0 == t {
                let m = choose|m: int| 0 <= m < rest.len() && rest[m].0 == t;
                assert(r.1[rest[m].0 as int] == KeyStep::Done(k));
            } else {
                lemma_store_calls_untouched(s1, rest, t);
            }
        }
    }
}

} // verus!
