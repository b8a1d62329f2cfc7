//! A reference-counted pointer, as a sequentially consistent model.
//!
//! The allocation (`ArcData`) holds the counter and the data; every `Arc`
//! handle stands for one count. Handles share the allocation, which is
//! passed to each operation explicitly. When the last handle is dropped
//! the data is dropped: here it is handed back to the caller, who drops it.
use vstd::prelude::*;
use std::marker::PhantomData;

verus! {

/// The shared allocation: the reference counter and the data (`None` once
/// the allocation has been freed).
pub struct ArcData<T> {
    ref_count: usize,
    data: Option<T>,
    id: Ghost<int>,
}

/// One handle to a shared allocation.
/// It gives up its count only through `drop` with its allocation; letting
/// it go out of scope leaves the count as it is.
#[must_use]
pub struct Arc<T> {
    marker: PhantomData<T>,
    allocation: Ghost<int>,
}

impl<T> View for ArcData<T> {
    /// The number of handles, and the data while the allocation lives.
    type V = (nat, Option<T>);

    closed spec fn view(&self) -> (nat, Option<T>) {
        (self.ref_count as nat, self.data)
    }
}

/// The data lives exactly while some handle does.
pub open spec fn arc_inv<T>(s: (nat, Option<T>)) -> bool {
    s.0 > 0 <==> s.1 is Some
}

/// The allocation after one more handle is made.
pub open spec fn after_clone<T>(s: (nat, Option<T>)) -> (nat, Option<T>) {
    (s.0 + 1, s.1)
}

/// The allocation after one handle is dropped: the last one frees the data.
pub open spec fn after_drop<T>(s: (nat, Option<T>)) -> (nat, Option<T>) {
    if s.0 == 1 {
        (0, None)
    } else {
        ((s.0 - 1) as nat, s.1)
    }
}

/// What dropping one handle drops: the data, when it was the last handle.
pub open spec fn dropped_by_drop<T>(s: (nat, Option<T>)) -> Option<T> {
    if s.0 == 1 {
        s.1
    } else {
        None
    }
}

impl<T> ArcData<T> {
    /// The identity of this allocation. Allocations made by separate calls
    /// of `new` are not known to share one, so a handle is only ever used
    /// with the allocation it was made for.
    pub closed spec fn id(&self) -> int {
        self.id@
    }

    /// The invariant holds.
    pub open spec fn wf(&self) -> bool {
        arc_inv(self@)
    }
}

impl<T> Arc<T> {
    /// The identity of the allocation this handle belongs to.
    pub closed spec fn allocation(&self) -> int {
        self.allocation@
    }

    /// Allocates `data` with a count of one, and returns the one handle.
    pub fn new(data: T) -> (r: (Arc<T>, ArcData<T>))
        ensures
            r.0.allocation() == r.1.id(),
            r.1.wf(),
            r.1@ == (1nat, Some(data)),
    {
        let ghost id: int = arbitrary();
        (
            Arc { marker: PhantomData, allocation: Ghost(id) },
            ArcData { ref_count: 1, data: Some(data), id: Ghost(id) },
        )
    }

    /// The shared data (what dereferencing an `Arc` gives).
    pub fn deref<'a>(&self, shared: &'a ArcData<T>) -> (r: &'a T)
        requires
            self.allocation() == shared.id(),
            shared.wf(),
            shared@.0 >= 1,
        ensures
            *r == shared@.1->0,
    {
        shared.data.as_ref().unwrap()
    }

    /// Mutable access to the data, granted exactly when this is the only
    /// handle.
    pub fn get_mut<'a>(arc: &mut Self, shared: &'a mut ArcData<T>) -> (r: Option<&'a mut T>)
        requires
            old(arc).allocation() == old(shared).id(),
            old(shared).wf(),
            old(shared)@.0 >= 1,
        ensures
            *final(arc) == *old(arc),
            final(shared).id() == old(shared).id(),
            final(shared).wf(),
            final(shared)@.0 == old(shared)@.0,
            old(shared)@.0 == 1 ==> {
                &&& r is Some
                &&& *r->0 == old(shared)@.1->0
                &&& final(shared)@.1 == Some(*final(r->0))
            },
            old(shared)@.0 != 1 ==> r is None && final(shared)@ == old(shared)@,
    {
        if shared.ref_count == 1 {
            shared.data.as_mut()
        } else {
            None
        }
    }

    /// Another handle to the same allocation. The process aborts when the
    /// count before the increment exceeds `usize::MAX / 2`.
    pub fn clone(&self, shared: &mut ArcData<T>) -> (r: Arc<T>)
        requires
            self.allocation() == old(shared).id(),
            old(shared).wf(),
            old(shared)@.0 >= 1,
            old(shared)@.0 <= usize::MAX / 2,
        ensures
            r.allocation() == self.allocation(),
            final(shared).id() == old(shared).id(),
            final(shared).wf(),
            final(shared)@ == after_clone(old(shared)@),
    {
        shared.ref_count = shared.ref_count + 1;
        Arc { marker: PhantomData, allocation: Ghost(shared.id@) }
    }

    /// Gives up this handle. When it was the last one the allocation is
    /// freed and its data is handed back to be dropped.
    pub fn drop(self, shared: &mut ArcData<T>) -> (dropped: Option<T>)
        requires
            self.allocation() == old(shared).id(),
            old(shared).wf(),
            old(shared)@.0 >= 1,
        ensures
            final(shared).id() == old(shared).id(),
            final(shared).wf(),
            final(shared)@ == after_drop(old(shared)@),
            dropped == dropped_by_drop(old(shared)@),
    {
        let was = shared.ref_count;
        shared.ref_count = was - 1;
        if was == 1 {
            shared.data.take()
        } else {
            None
        }
    }
}

/// Cloning a handle and dropping a handle again leaves the allocation as it
/// was, and drops nothing.
pub proof fn lemma_clone_then_drop<T>(s: (nat, Option<T>))
    requires
        arc_inv(s),
        s.0 >= 1,
    ensures
        after_drop(after_clone(s)) == s,
        dropped_by_drop(after_clone(s)) is None,
{
}

/// The data is dropped exactly once: by the drop of the last handle, and
/// never while another handle remains.
pub proof fn lemma_data_dropped_by_last_handle<T>(s: (nat, Option<T>))
    requires
        arc_inv(s),
        s.0 >= 1,
    ensures
        dropped_by_drop(s) is Some <==> s.0 == 1,
        s.0 == 1 ==> dropped_by_drop(s) == s.1 && after_drop(s).1 is None,
        s.0 > 1 ==> after_drop(s).1 == s.1,
{
}

} // verus!
