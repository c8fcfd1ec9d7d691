//! The allocation adapter: the binding between a `(size, alignment)`
//! allocation interface and the backend's size-only entry points.
//!
//! Each operation is a pure forward with a shape translation and nothing
//! else: no retry, no logging, no failure path of its own. The contracts
//! below state the translation exactly — in particular that only the
//! request's size reaches the backend.
//!
//! Alignment caveat: the backend's malloc equivalent guarantees only its own
//! default alignment and takes no alignment parameter, so the adapter
//! forwards none. A request whose alignment exceeds the backend default is
//! neither rejected nor specially handled; preserving that (under-)guarantee
//! is part of the binding contract, not a gap to repair here.

use vstd::prelude::*;

use crate::align::AllocRequest;
use crate::heap::ModelAllocator;
use crate::heap::sat_inc;

verus! {

/// The allocator handle: a stateless, zero-size marker whose one role is to
/// carry the four allocation operations. Exactly one instance should stand
/// for the process; all real state lives in the backend.
pub struct TcMalloc;

impl TcMalloc {
    /// allocate: forwards only the request's size to the backend's malloc
    /// equivalent. The returned block holds at least `layout`'s size in
    /// bytes, uninitialized, at the backend's default alignment — the
    /// request's own alignment is not passed on.
    pub fn allocate(&self, heap: &mut ModelAllocator, layout: AllocRequest) -> (p: usize)
        requires
            layout.wf(),
        ensures
            p != 0,
            !old(heap).live(p),
            final(heap).live(p),
            final(heap).block(p).len() == layout.spec_size(),
            forall|q: int|
                q != p as int ==> #[trigger] final(heap).heap().dom().contains(q) == old(
                    heap,
                ).heap().dom().contains(q),
            forall|q: int|
                q != p as int && old(heap).heap().dom().contains(q)
                    ==> #[trigger] final(heap).heap()[q] == old(heap).heap()[q],
            final(heap).alloc_count() == sat_inc(old(heap).alloc_count()),
            final(heap).free_count() == old(heap).free_count(),
    {
        heap.malloc(layout.size())
    }

    /// allocate-zeroed: forwards to the backend's calloc equivalent with
    /// count 1 and the request's size, so every byte of the returned block
    /// is zero. Same alignment caveat as [`TcMalloc::allocate`].
    pub fn alloc_zeroed(&self, heap: &mut ModelAllocator, layout: AllocRequest) -> (p: usize)
        requires
            layout.wf(),
        ensures
            p != 0,
            !old(heap).live(p),
            final(heap).live(p),
            final(heap).block(p) == Seq::new(layout.spec_size() as nat, |i: int| 0u8),
            forall|q: int|
                q != p as int ==> #[trigger] final(heap).heap().dom().contains(q) == old(
                    heap,
                ).heap().dom().contains(q),
            forall|q: int|
                q != p as int && old(heap).heap().dom().contains(q)
                    ==> #[trigger] final(heap).heap()[q] == old(heap).heap()[q],
            final(heap).alloc_count() == sat_inc(old(heap).alloc_count()),
            final(heap).free_count() == old(heap).free_count(),
    {
        heap.calloc(1, layout.size())
    }

    /// deallocate: forwards only the pointer to the backend's free
    /// equivalent. The request is accepted because the allocation interface
    /// carries it, but no part of it selects a code path — the backend
    /// recovers the block's size itself.
    pub fn dealloc(&self, heap: &mut ModelAllocator, p: usize, layout: AllocRequest)
        requires
            layout.wf(),
            old(heap).live(p),
        ensures
            !final(heap).live(p),
            forall|q: int|
                q != p as int ==> #[trigger] final(heap).heap().dom().contains(q) == old(
                    heap,
                ).heap().dom().contains(q),
            forall|q: int|
                q != p as int && old(heap).heap().dom().contains(q)
                    ==> #[trigger] final(heap).heap()[q] == old(heap).heap()[q],
            final(heap).free_count() == sat_inc(old(heap).free_count()),
            final(heap).alloc_count() == old(heap).alloc_count(),
    {
        heap.free(p)
    }

    /// reallocate: forwards the pointer and the new size to the backend's
    /// realloc equivalent; the old request's size and alignment are not
    /// passed on. On success the first `min(old size, new size)` bytes keep
    /// their contents, possibly at a new handle, and the old handle — if
    /// different — is no longer live.
    pub fn realloc(
        &self,
        heap: &mut ModelAllocator,
        p: usize,
        layout: AllocRequest,
        new_size: usize,
    ) -> (q: usize)
        requires
            layout.wf(),
            old(heap).live(p),
            old(heap).block(p).len() == layout.spec_size(),
        ensures
            q != 0,
            !final(heap).live(p) || q == p,
            final(heap).live(q),
            final(heap).block(q).len() == new_size,
            forall|i: int|
                0 <= i < layout.spec_size() && i < new_size ==> final(heap).block(q)[i] == old(
                    heap,
                ).block(p)[i],
            forall|r: int|
                r != p as int && r != q as int ==> #[trigger] final(heap).heap().dom().contains(r)
                    == old(heap).heap().dom().contains(r),
            forall|r: int|
                r != p as int && r != q as int && old(heap).heap().dom().contains(r)
                    ==> #[trigger] final(heap).heap()[r] == old(heap).heap()[r],
            final(heap).alloc_count() == sat_inc(old(heap).alloc_count()),
            final(heap).free_count() == sat_inc(old(heap).free_count()),
    {
        heap.realloc(p, new_size)
    }
}

/// Law: for any request, a block the adapter allocates is non-null and can
/// be handed straight back to deallocate; afterwards the backend holds
/// exactly the blocks it held before, with one allocation and one free
/// recorded.
pub fn allocate_then_deallocate(heap: &mut ModelAllocator, layout: AllocRequest) -> (p: usize)
    requires
        layout.wf(),
    ensures
        p != 0,
        final(heap).heap() == old(heap).heap(),
        final(heap).alloc_count() == sat_inc(old(heap).alloc_count()),
        final(heap).free_count() == sat_inc(old(heap).free_count()),
{
    let tc = TcMalloc;
    let p = tc.allocate(heap, layout);
    tc.dealloc(heap, p, layout);
    proof {
        assert(heap.heap() =~= old(heap).heap());
    }
    p
}

} // verus!
