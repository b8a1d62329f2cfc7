//! The optimised reference-counted pointer with weak pointers, as a
//! sequentially consistent model.
//!
//! `data_ref_count` counts the `Arc`s; `alloc_ref_count` counts the `Weak`s
//! plus one for all `Arc`s together (an implicit weak), so cloning and
//! dropping an `Arc` touches one counter only, except for the last drop.
//! `get_mut` briefly locks the weak counter (the value `usize::MAX`) while
//! it looks at the `Arc` count; run without interference the lock is taken
//! and released within the call.
use vstd::prelude::*;
use std::marker::PhantomData;

verus! {

/// The shared allocation: both counters and the data (`None` once every
/// `Arc` is gone).
pub struct ArcData<T> {
    data_ref_count: usize,
    alloc_ref_count: usize,
    data: Option<T>,
    id: Ghost<int>,
}

/// A strong handle: keeps the data alive.
/// It gives up its count only through `drop` with its allocation; letting
/// it go out of scope leaves the count as it is.
#[must_use]
pub struct Arc<T> {
    marker: PhantomData<T>,
    allocation: Ghost<int>,
}

/// A weak handle: keeps the allocation alive, and can be upgraded while the
/// data lives.
/// It gives up its count only through `drop` with its allocation; letting
/// it go out of scope leaves the count as it is.
#[must_use]
pub struct Weak<T> {
    marker: PhantomData<T>,
    allocation: Ghost<int>,
}

impl<T> View for ArcData<T> {
    /// The number of `Arc`s, the number of `Weak`s plus one while any `Arc`
    /// exists, and the data while it lives. The allocation is freed when
    /// the second is 0.
    type V = (nat, nat, Option<T>);

    closed spec fn view(&self) -> (nat, nat, Option<T>) {
        (self.data_ref_count as nat, self.alloc_ref_count as nat, self.data)
    }
}

/// The implicit weak: one count while any `Arc` exists.
pub open spec fn implicit_weak<T>(s: (nat, nat, Option<T>)) -> nat {
    if s.0 > 0 {
        1
    } else {
        0
    }
}

/// The number of `Weak` handles.
pub open spec fn weak_count<T>(s: (nat, nat, Option<T>)) -> int {
    s.1 - implicit_weak(s)
}

/// The `Arc`s together hold one weak count, and the data lives exactly
/// while some `Arc` does.
pub open spec fn arc_weak_opt_inv<T>(s: (nat, nat, Option<T>)) -> bool {
    &&& weak_count(s) >= 0
    &&& (s.0 > 0 <==> s.2 is Some)
}

/// After one more `Arc`: only the `Arc` counter moves.
pub open spec fn after_arc_clone<T>(s: (nat, nat, Option<T>)) -> (nat, nat, Option<T>) {
    (s.0 + 1, s.1, s.2)
}

/// After one more `Weak`.
pub open spec fn after_weak_clone<T>(s: (nat, nat, Option<T>)) -> (nat, nat, Option<T>) {
    (s.0, s.1 + 1, s.2)
}

/// After an `Arc` is dropped: the last one drops the data and the implicit
/// weak.
pub open spec fn after_arc_drop<T>(s: (nat, nat, Option<T>)) -> (nat, nat, Option<T>) {
    if s.0 == 1 {
        (0, (s.1 - 1) as nat, None)
    } else {
        ((s.0 - 1) as nat, s.1, s.2)
    }
}

/// What dropping an `Arc` drops: the data, when it was the last `Arc`.
pub open spec fn dropped_by_arc_drop<T>(s: (nat, nat, Option<T>)) -> Option<T> {
    if s.0 == 1 {
        s.2
    } else {
        None
    }
}

/// After a `Weak` is dropped.
pub open spec fn after_weak_drop<T>(s: (nat, nat, Option<T>)) -> (nat, nat, Option<T>) {
    (s.0, (s.1 - 1) as nat, s.2)
}

/// An upgrade succeeds exactly while the data lives.
pub open spec fn upgrade_succeeds<T>(s: (nat, nat, Option<T>)) -> bool {
    s.0 > 0
}

/// `get_mut` succeeds exactly when there is one `Arc` and no `Weak`.
pub open spec fn unique<T>(s: (nat, nat, Option<T>)) -> bool {
    s.1 == 1 && s.0 == 1
}

impl<T> ArcData<T> {
    /// The identity of this allocation. Allocations made by separate calls
    /// of `new` are not known to share one, so a handle is only ever used
    /// with the allocation it was made for.
    pub closed spec fn id(&self) -> int {
        self.id@
    }

    /// The invariant holds.
    pub open spec fn wf(&self) -> bool {
        arc_weak_opt_inv(self@)
    }
}

impl<T> Arc<T> {
    /// The identity of the allocation this handle belongs to.
    pub closed spec fn allocation(&self) -> int {
        self.allocation@
    }

    /// Allocates `data` with one `Arc` and no `Weak`.
    pub fn new(data: T) -> (r: (Arc<T>, ArcData<T>))
        ensures
            r.0.allocation() == r.1.id(),
            r.1.wf(),
            r.1@ == (1nat, 1nat, Some(data)),
    {
        let ghost id: int = arbitrary();
        (
            Arc { marker: PhantomData, allocation: Ghost(id) },
            ArcData { data_ref_count: 1, alloc_ref_count: 1, data: Some(data), id: Ghost(id) },
        )
    }

    /// The shared data (what dereferencing an `Arc` gives).
    pub fn deref<'a>(&self, shared: &'a ArcData<T>) -> (r: &'a T)
        requires
            self.allocation() == shared.id(),
            shared.wf(),
            shared@.0 >= 1,
        ensures
            *r == shared@.2->0,
    {
        shared.data.as_ref().unwrap()
    }

    /// Mutable access to the data, granted exactly when this `Arc` is the
    /// only one and no `Weak` exists: `compare_exchange(1, usize::MAX)` on
    /// the weak counter (no other weak), then a look at the `Arc` count,
    /// then the weak counter is stored back to 1.
    pub fn get_mut<'a>(arc: &mut Self, shared: &'a mut ArcData<T>) -> (r: Option<&'a mut T>)
        requires
            old(arc).allocation() == old(shared).id(),
            old(shared).wf(),
            old(shared)@.0 >= 1,
        ensures
            *final(arc) == *old(arc),
            final(shared).id() == old(shared).id(),
            final(shared).wf(),
            final(shared)@.0 == old(shared)@.0,
            final(shared)@.1 == old(shared)@.1,
            unique(old(shared)@) ==> {
                &&& r is Some
                &&& *r->0 == old(shared)@.2->0
                &&& final(shared)@.2 == Some(*final(r->0))
            },
            !unique(old(shared)@) ==> r is None && final(shared)@ == old(shared)@,
    {
        if shared.alloc_ref_count != 1 {
            return None;
        }
        shared.alloc_ref_count = usize::MAX;
        let is_unique = shared.data_ref_count == 1;
        shared.alloc_ref_count = 1;
        if !is_unique {
            return None;
        }
        shared.data.as_mut()
    }

    /// A `Weak` for the same allocation: the weak counter goes up by one.
    /// A concurrent `downgrade` spins while `get_mut` holds the counter
    /// locked (see `get_mut_race`), and
    /// asserts (panics) when the counter exceeds `usize::MAX / 2`.
    pub fn downgrade(arc: &Self, shared: &mut ArcData<T>) -> (w: Weak<T>)
        requires
            arc.allocation() == old(shared).id(),
            old(shared).wf(),
            old(shared)@.0 >= 1,
            old(shared)@.1 <= usize::MAX / 2,
        ensures
            w.allocation() == arc.allocation(),
            final(shared).id() == old(shared).id(),
            final(shared).wf(),
            final(shared)@ == after_weak_clone(old(shared)@),
    {
        let n = shared.alloc_ref_count;
        shared.alloc_ref_count = n + 1;
        Weak { marker: PhantomData, allocation: Ghost(shared.id@) }
    }

    /// Another `Arc`: only the `Arc` counter goes up. The process aborts
    /// when it exceeded `usize::MAX / 2`.
    pub fn clone(&self, shared: &mut ArcData<T>) -> (r: Arc<T>)
        requires
            self.allocation() == old(shared).id(),
            old(shared).wf(),
            old(shared)@.0 >= 1,
            old(shared)@.0 <= usize::MAX / 2,
        ensures
            r.allocation() == self.allocation(),
            final(shared).id() == old(shared).id(),
            final(shared).wf(),
            final(shared)@ == after_arc_clone(old(shared)@),
    {
        shared.data_ref_count = shared.data_ref_count + 1;
        Arc { marker: PhantomData, allocation: Ghost(shared.id@) }
    }

    /// Gives up this `Arc`. The last one drops the data, which is handed
    /// back, and then the implicit weak, which frees the allocation if no
    /// `Weak` remains.
    pub fn drop(self, shared: &mut ArcData<T>) -> (dropped: Option<T>)
        requires
            self.allocation() == old(shared).id(),
            old(shared).wf(),
            old(shared)@.0 >= 1,
        ensures
            final(shared).id() == old(shared).id(),
            final(shared).wf(),
            final(shared)@ == after_arc_drop(old(shared)@),
            dropped == dropped_by_arc_drop(old(shared)@),
    {
        let was = shared.data_ref_count;
        shared.data_ref_count = was - 1;
        if was == 1 {
            let dropped = shared.data.take();
            shared.alloc_ref_count = shared.alloc_ref_count - 1;
            dropped
        } else {
            None
        }
    }
}

impl<T> Weak<T> {
    /// The identity of the allocation this handle belongs to.
    pub closed spec fn allocation(&self) -> int {
        self.allocation@
    }

    /// An `Arc`, if the data still lives (some `Arc` exists); only the `Arc`
    /// counter goes up. The compare-exchange loop, run without
    /// interference, succeeds at once; it asserts (panics) when the count
    /// exceeds `usize::MAX / 2`.
    pub fn upgrade(&self, shared: &mut ArcData<T>) -> (r: Option<Arc<T>>)
        requires
            self.allocation() == old(shared).id(),
            old(shared).wf(),
            weak_count(old(shared)@) >= 1,
            upgrade_succeeds(old(shared)@) ==> old(shared)@.0 <= usize::MAX / 2,
        ensures
            r matches Some(a) ==> a.allocation() == self.allocation(),
            final(shared).id() == old(shared).id(),
            final(shared).wf(),
            r is Some <==> upgrade_succeeds(old(shared)@),
            upgrade_succeeds(old(shared)@) ==> final(shared)@ == after_arc_clone(old(shared)@),
            !upgrade_succeeds(old(shared)@) ==> final(shared)@ == old(shared)@,
    {
        let n = shared.data_ref_count;
        if n == 0 {
            return None;
        }
        shared.data_ref_count = n + 1;
        Some(Arc { marker: PhantomData, allocation: Ghost(shared.id@) })
    }

    /// Another `Weak`; the process aborts when the counter before the
    /// increment exceeds `usize::MAX / 2`.
    pub fn clone(&self, shared: &mut ArcData<T>) -> (r: Weak<T>)
        requires
            self.allocation() == old(shared).id(),
            old(shared).wf(),
            weak_count(old(shared)@) >= 1,
            old(shared)@.1 <= usize::MAX / 2,
        ensures
            r.allocation() == self.allocation(),
            final(shared).id() == old(shared).id(),
            final(shared).wf(),
            final(shared)@ == after_weak_clone(old(shared)@),
    {
        shared.alloc_ref_count = shared.alloc_ref_count + 1;
        Weak { marker: PhantomData, allocation: Ghost(shared.id@) }
    }

    /// Gives up this `Weak`; the last count frees the allocation.
    pub fn drop(self, shared: &mut ArcData<T>)
        requires
            self.allocation() == old(shared).id(),
            old(shared).wf(),
            weak_count(old(shared)@) >= 1,
        ensures
            final(shared).id() == old(shared).id(),
            final(shared).wf(),
            final(shared)@ == after_weak_drop(old(shared)@),
    {
        shared.alloc_ref_count = shared.alloc_ref_count - 1;
    }
}

/// Cloning an `Arc` touches only the `Arc` counter, and dropping one that
/// is not the last does too; both round trips leave the allocation as it
/// was.
pub proof fn lemma_round_trips<T>(s: (nat, nat, Option<T>))
    requires
        arc_weak_opt_inv(s),
        s.0 >= 1,
    ensures
        after_arc_clone(s).1 == s.1,
        after_arc_drop(after_arc_clone(s)) == s,
        dropped_by_arc_drop(after_arc_clone(s)) is None,
        after_weak_drop(after_weak_clone(s)) == s,
{
}

/// Once the last `Arc` is dropped, its data is dropped and no `Weak` can be
/// upgraded any more; the allocation stays exactly while `Weak`s remain.
pub proof fn lemma_last_arc_ends_data<T>(s: (nat, nat, Option<T>))
    requires
        arc_weak_opt_inv(s),
        s.0 == 1,
    ensures
        dropped_by_arc_drop(s) == s.2,
        dropped_by_arc_drop(s) is Some,
        !upgrade_succeeds(after_arc_drop(s)),
        after_arc_drop(s).1 == weak_count(s),
{
}

/// The operations keep the invariant: the `Arc`s hold exactly one weak
/// count between them, and the data lives exactly while an `Arc` does.
pub proof fn lemma_operations_keep_invariant<T>(s: (nat, nat, Option<T>))
    requires
        arc_weak_opt_inv(s),
    ensures
        s.0 >= 1 ==> arc_weak_opt_inv(after_arc_clone(s)) && arc_weak_opt_inv(
            after_weak_clone(s),
        ) && arc_weak_opt_inv(after_arc_drop(s)),
        weak_count(s) >= 1 ==> arc_weak_opt_inv(after_weak_drop(s)) && arc_weak_opt_inv(
            after_weak_clone(s),
        ),
        weak_count(s) >= 1 && upgrade_succeeds(s) ==> arc_weak_opt_inv(after_arc_clone(s)),
{
}

} // verus!
