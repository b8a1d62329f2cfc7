//! A reference-counted pointer with weak pointers, as a sequentially
//! consistent model.
//!
//! The allocation counts the `Arc` handles (`data_ref_count`) and all
//! handles, `Arc` and `Weak` together (`alloc_ref_count`): every `Arc`
//! holds a `Weak` inside. The data is dropped with the last `Arc`; the
//! allocation is freed with the last handle of either kind.
use vstd::prelude::*;
use std::marker::PhantomData;

verus! {

/// The shared allocation: both counters and the data (`None` once every
/// `Arc` is gone).
pub struct ArcData<T> {
    data_ref_count: usize,
    alloc_ref_count: usize,
    data: Option<T>,
    id: Ghost<int>,
}

/// A strong handle: keeps the data alive.
/// It gives up its count only through `drop` with its allocation; letting
/// it go out of scope leaves the count as it is.
#[must_use]
pub struct Arc<T> {
    marker: PhantomData<T>,
    allocation: Ghost<int>,
}

/// A weak handle: keeps the allocation alive, and can be upgraded while the
/// data lives.
/// It gives up its count only through `drop` with its allocation; letting
/// it go out of scope leaves the count as it is.
#[must_use]
pub struct Weak<T> {
    marker: PhantomData<T>,
    allocation: Ghost<int>,
}

impl<T> View for ArcData<T> {
    /// The number of `Arc`s, the number of handles of both kinds, and the
    /// data while it lives. The allocation is freed when the second is 0.
    type V = (nat, nat, Option<T>);

    closed spec fn view(&self) -> (nat, nat, Option<T>) {
        (self.data_ref_count as nat, self.alloc_ref_count as nat, self.data)
    }
}

/// Every `Arc` is also counted as a handle, and the data lives exactly
/// while some `Arc` does.
pub open spec fn arc_weak_inv<T>(s: (nat, nat, Option<T>)) -> bool {
    &&& s.0 <= s.1
    &&& (s.0 > 0 <==> s.2 is Some)
}

/// The number of `Weak` handles.
pub open spec fn weak_count<T>(s: (nat, nat, Option<T>)) -> int {
    s.1 - s.0
}

/// After one more `Arc`.
pub open spec fn after_arc_clone<T>(s: (nat, nat, Option<T>)) -> (nat, nat, Option<T>) {
    (s.0 + 1, s.1 + 1, s.2)
}

/// After one more `Weak`.
pub open spec fn after_weak_clone<T>(s: (nat, nat, Option<T>)) -> (nat, nat, Option<T>) {
    (s.0, s.1 + 1, s.2)
}

/// After an `Arc` is dropped: the last one drops the data.
pub open spec fn after_arc_drop<T>(s: (nat, nat, Option<T>)) -> (nat, nat, Option<T>) {
    if s.0 == 1 {
        (0, (s.1 - 1) as nat, None)
    } else {
        ((s.0 - 1) as nat, (s.1 - 1) as nat, s.2)
    }
}

/// What dropping an `Arc` drops: the data, when it was the last `Arc`.
pub open spec fn dropped_by_arc_drop<T>(s: (nat, nat, Option<T>)) -> Option<T> {
    if s.0 == 1 {
        s.2
    } else {
        None
    }
}

/// After a `Weak` is dropped.
pub open spec fn after_weak_drop<T>(s: (nat, nat, Option<T>)) -> (nat, nat, Option<T>) {
    (s.0, (s.1 - 1) as nat, s.2)
}

/// An upgrade succeeds exactly while the data lives.
pub open spec fn upgrade_succeeds<T>(s: (nat, nat, Option<T>)) -> bool {
    s.0 > 0
}

impl<T> ArcData<T> {
    /// The identity of this allocation. Allocations made by separate calls
    /// of `new` are not known to share one, so a handle is only ever used
    /// with the allocation it was made for.
    pub closed spec fn id(&self) -> int {
        self.id@
    }

    /// The invariant holds.
    pub open spec fn wf(&self) -> bool {
        arc_weak_inv(self@)
    }
}

impl<T> Arc<T> {
    /// The identity of the allocation this handle belongs to.
    pub closed spec fn allocation(&self) -> int {
        self.allocation@
    }

    /// Allocates `data` with one `Arc` and no `Weak`.
    pub fn new(data: T) -> (r: (Arc<T>, ArcData<T>))
        ensures
            r.0.allocation() == r.1.id(),
            r.1.wf(),
            r.1@ == (1nat, 1nat, Some(data)),
    {
        let ghost id: int = arbitrary();
        (
            Arc { marker: PhantomData, allocation: Ghost(id) },
            ArcData { data_ref_count: 1, alloc_ref_count: 1, data: Some(data), id: Ghost(id) },
        )
    }

    /// The shared data (what dereferencing an `Arc` gives).
    pub fn deref<'a>(&self, shared: &'a ArcData<T>) -> (r: &'a T)
        requires
            self.allocation() == shared.id(),
            shared.wf(),
            shared@.0 >= 1,
        ensures
            *r == shared@.2->0,
    {
        shared.data.as_ref().unwrap()
    }

    /// Mutable access to the data, granted exactly when this `Arc` is the
    /// only handle of either kind.
    pub fn get_mut<'a>(arc: &mut Self, shared: &'a mut ArcData<T>) -> (r: Option<&'a mut T>)
        requires
            old(arc).allocation() == old(shared).id(),
            old(shared).wf(),
            old(shared)@.0 >= 1,
        ensures
            *final(arc) == *old(arc),
            final(shared).id() == old(shared).id(),
            final(shared).wf(),
            final(shared)@.0 == old(shared)@.0,
            final(shared)@.1 == old(shared)@.1,
            old(shared)@.1 == 1 ==> {
                &&& r is Some
                &&& *r->0 == old(shared)@.2->0
                &&& final(shared)@.2 == Some(*final(r->0))
            },
            old(shared)@.1 != 1 ==> r is None && final(shared)@ == old(shared)@,
    {
        if shared.alloc_ref_count == 1 {
            shared.data.as_mut()
        } else {
            None
        }
    }

    /// A `Weak` for the same allocation. The process aborts when the count
    /// of handles before the increment exceeds `usize::MAX / 2`.
    pub fn downgrade(arc: &Self, shared: &mut ArcData<T>) -> (w: Weak<T>)
        requires
            arc.allocation() == old(shared).id(),
            old(shared).wf(),
            old(shared)@.0 >= 1,
            old(shared)@.1 <= usize::MAX / 2,
        ensures
            w.allocation() == arc.allocation(),
            final(shared).id() == old(shared).id(),
            final(shared).wf(),
            final(shared)@ == after_weak_clone(old(shared)@),
    {
        shared.alloc_ref_count = shared.alloc_ref_count + 1;
        Weak { marker: PhantomData, allocation: Ghost(shared.id@) }
    }

    /// Another `Arc`: first the inner `Weak` is cloned, then the `Arc` count
    /// raised; the process aborts when either count exceeded
    /// `usize::MAX / 2`.
    pub fn clone(&self, shared: &mut ArcData<T>) -> (r: Arc<T>)
        requires
            self.allocation() == old(shared).id(),
            old(shared).wf(),
            old(shared)@.0 >= 1,
            old(shared)@.0 <= usize::MAX / 2,
            old(shared)@.1 <= usize::MAX / 2,
        ensures
            r.allocation() == self.allocation(),
            final(shared).id() == old(shared).id(),
            final(shared).wf(),
            final(shared)@ == after_arc_clone(old(shared)@),
    {
        shared.alloc_ref_count = shared.alloc_ref_count + 1;
        shared.data_ref_count = shared.data_ref_count + 1;
        Arc { marker: PhantomData, allocation: Ghost(shared.id@) }
    }

    /// Gives up this `Arc`. The last one drops the data, which is handed
    /// back; then the inner `Weak` is dropped, which frees the allocation if
    /// it was the last handle.
    pub fn drop(self, shared: &mut ArcData<T>) -> (dropped: Option<T>)
        requires
            self.allocation() == old(shared).id(),
            old(shared).wf(),
            old(shared)@.0 >= 1,
        ensures
            final(shared).id() == old(shared).id(),
            final(shared).wf(),
            final(shared)@ == after_arc_drop(old(shared)@),
            dropped == dropped_by_arc_drop(old(shared)@),
    {
        let was = shared.data_ref_count;
        shared.data_ref_count = was - 1;
        let dropped = if was == 1 {
            shared.data.take()
        } else {
            None
        };
        shared.alloc_ref_count = shared.alloc_ref_count - 1;
        dropped
    }
}

impl<T> Weak<T> {
    /// The identity of the allocation this handle belongs to.
    pub closed spec fn allocation(&self) -> int {
        self.allocation@
    }

    /// An `Arc`, if the data still lives (some `Arc` exists). The
    /// compare-exchange loop, run without interference, succeeds at once;
    /// it asserts (panics) when the `Arc` count exceeds `usize::MAX / 2`,
    /// and the new `Arc`'s inner `Weak` aborts likewise.
    pub fn upgrade(&self, shared: &mut ArcData<T>) -> (r: Option<Arc<T>>)
        requires
            self.allocation() == old(shared).id(),
            old(shared).wf(),
            weak_count(old(shared)@) >= 1,
            upgrade_succeeds(old(shared)@) ==> old(shared)@.0 <= usize::MAX / 2 && old(
                shared,
            )@.1 <= usize::MAX / 2,
        ensures
            r matches Some(a) ==> a.allocation() == self.allocation(),
            final(shared).id() == old(shared).id(),
            final(shared).wf(),
            r is Some <==> upgrade_succeeds(old(shared)@),
            upgrade_succeeds(old(shared)@) ==> final(shared)@ == after_arc_clone(old(shared)@),
            !upgrade_succeeds(old(shared)@) ==> final(shared)@ == old(shared)@,
    {
        let n = shared.data_ref_count;
        if n == 0 {
            return None;
        }
        shared.data_ref_count = n + 1;
        shared.alloc_ref_count = shared.alloc_ref_count + 1;
        Some(Arc { marker: PhantomData, allocation: Ghost(shared.id@) })
    }

    /// Another `Weak`; the process aborts when the count of handles before
    /// the increment exceeds `usize::MAX / 2`.
    pub fn clone(&self, shared: &mut ArcData<T>) -> (r: Weak<T>)
        requires
            self.allocation() == old(shared).id(),
            old(shared).wf(),
            weak_count(old(shared)@) >= 1,
            old(shared)@.1 <= usize::MAX / 2,
        ensures
            r.allocation() == self.allocation(),
            final(shared).id() == old(shared).id(),
            final(shared).wf(),
            final(shared)@ == after_weak_clone(old(shared)@),
    {
        shared.alloc_ref_count = shared.alloc_ref_count + 1;
        Weak { marker: PhantomData, allocation: Ghost(shared.id@) }
    }

    /// Gives up this `Weak`; the last handle of either kind frees the
    /// allocation.
    pub fn drop(self, shared: &mut ArcData<T>)
        requires
            self.allocation() == old(shared).id(),
            old(shared).wf(),
            weak_count(old(shared)@) >= 1,
        ensures
            final(shared).id() == old(shared).id(),
            final(shared).wf(),
            final(shared)@ == after_weak_drop(old(shared)@),
    {
        shared.alloc_ref_count = shared.alloc_ref_count - 1;
    }
}

/// Downgrading and dropping the `Weak` again leaves the allocation as it
/// was; so does cloning an `Arc` and dropping one.
pub proof fn lemma_round_trips<T>(s: (nat, nat, Option<T>))
    requires
        arc_weak_inv(s),
        s.0 >= 1,
    ensures
        after_weak_drop(after_weak_clone(s)) == s,
        after_arc_drop(after_arc_clone(s)) == s,
        dropped_by_arc_drop(after_arc_clone(s)) is None,
{
}

/// Once the last `Arc` is dropped, its data is dropped, and no `Weak` can
/// be upgraded any more; the allocation stays while `Weak`s remain.
pub proof fn lemma_last_arc_ends_data<T>(s: (nat, nat, Option<T>))
    requires
        arc_weak_inv(s),
        s.0 == 1,
    ensures
        dropped_by_arc_drop(s) == s.2,
        dropped_by_arc_drop(s) is Some,
        !upgrade_succeeds(after_arc_drop(s)),
        after_arc_drop(s).1 == weak_count(s),
{
}

/// Every state reached from `new` through the operations satisfies the
/// invariant: the data lives exactly while an `Arc` does, and the
/// allocation outlives every handle.
pub proof fn lemma_operations_keep_invariant<T>(s: (nat, nat, Option<T>))
    requires
        arc_weak_inv(s),
    ensures
        s.0 >= 1 ==> arc_weak_inv(after_arc_clone(s)) && arc_weak_inv(after_weak_clone(s))
            && arc_weak_inv(after_arc_drop(s)),
        weak_count(s) >= 1 ==> arc_weak_inv(after_weak_drop(s)) && arc_weak_inv(
            after_weak_clone(s),
        ),
{
}

} // verus!
