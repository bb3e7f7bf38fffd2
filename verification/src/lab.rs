use crate::buddy::lg;
use crate::heap::{class_capacity, spec_layout_to_allocator, Heap, MIN_HEAP_SIZE};
use crate::layout::{AllocError, Layout};
use crate::slab::grow_chunk;
use vstd::prelude::*;

verus! {

/// Lifecycle wrapper around the tiered heap: created empty, it owns a heap
/// from the first `init` on. Every allocation operation demands an
/// initialized allocator; using one before `init` is a caller bug, ruled out
/// here by precondition rather than reported as an error.
pub struct LabByteAllocator {
    pub inner: Option<Heap>,
}

impl LabByteAllocator {
    pub open spec fn is_initialized(self) -> bool {
        self.inner is Some
    }

    pub open spec fn the_heap(self) -> Heap {
        self.inner->Some_0
    }

    pub open spec fn wf(self) -> bool {
        self.is_initialized() ==> self.the_heap().wf()
    }

    pub fn new() -> (r: Self)
        ensures
            !r.is_initialized(),
            r.wf(),
    {
        LabByteAllocator { inner: None }
    }

    /// Creates the owned heap over `[start, start + size)`. The heap is
    /// created exactly once: initializing an already initialized allocator is
    /// a caller bug, ruled out by precondition.
    pub fn init(&mut self, start: usize, size: usize)
        requires
            !old(self).is_initialized(),
            start % 4096 == 0,
            start > 0,
            MIN_HEAP_SIZE <= size,
            size % MIN_HEAP_SIZE == 0,
            start + size <= usize::MAX,
            size <= usize::MAX / 2,
        ensures
            final(self).is_initialized(),
            final(self).wf(),
            final(self).the_heap().total_spec() == size,
            final(self).the_heap().used_spec() == 0,
            final(self).the_heap().buddy_user_bytes == 0,
            final(self).the_heap().buddy_user_rounded == 0,
    {
        self.inner = Some(Heap::new(start, size));
    }

    /// Hands more page-aligned memory to the heap's buddy tier.
    pub fn add_memory(&mut self, start: usize, size: usize) -> (r: Result<(), AllocError>)
        requires
            old(self).is_initialized(),
            old(self).wf(),
            start % 4096 == 0,
            start > 0,
            size % 4096 == 0,
            start + size <= usize::MAX,
            old(self).the_heap().total_spec() + size <= usize::MAX / 2,
        ensures
            final(self).is_initialized(),
            final(self).wf(),
            r is Ok,
            final(self).the_heap().total_spec() == old(self).the_heap().total_spec() + size,
            final(self).the_heap().used_spec() == old(self).the_heap().used_spec(),
    {
        match &mut self.inner {
            Some(h) => {
                h.add_memory(start, size);
                Ok(())
            },
            None => {
                proof {
                    assert(false);
                }
                Err(AllocError::NoMemory)
            },
        }
    }

    /// Routes an allocation request to the owned heap.
    pub fn alloc_bytes(&mut self, layout: Layout) -> (r: Result<usize, AllocError>)
        requires
            old(self).is_initialized(),
            old(self).wf(),
            layout.wf(),
        ensures
            final(self).is_initialized(),
            final(self).wf(),
            match r {
                Ok(a) => Heap::alloc_ok_post(
                    old(self).the_heap(),
                    final(self).the_heap(),
                    layout,
                    a,
                ),
                Err(e) => e == AllocError::NoMemory && *final(self) == *old(self),
            },
            ({
                let c = spec_layout_to_allocator(layout);
                (c is BuddyAllocator && old(self).the_heap().used_spec() + layout.size > old(
                    self,
                ).the_heap().total_spec()) ==> r is Err
            }),
            ({
                let c = spec_layout_to_allocator(layout);
                (!(c is BuddyAllocator) && !old(self).the_heap().buddy_allocator.empty_from(
                    lg(grow_chunk(class_capacity(c))),
                )) ==> r is Ok
            }),
    {
        match &mut self.inner {
            Some(h) => h.allocate(layout),
            None => {
                proof {
                    assert(false);
                }
                Err(AllocError::NoMemory)
            },
        }
    }

    /// Returns a block from a prior successful `alloc_bytes` with the same
    /// layout to the owned heap.
    pub fn dealloc(&mut self, pos: usize, layout: Layout)
        requires
            old(self).is_initialized(),
            old(self).wf(),
            layout.wf(),
            old(self).the_heap().dealloc_req(pos, layout),
        ensures
            final(self).is_initialized(),
            final(self).wf(),
            Heap::dealloc_post(old(self).the_heap(), final(self).the_heap(), layout),
    {
        match &mut self.inner {
            Some(h) => h.deallocate(pos, layout),
            None => {
                proof {
                    assert(false);
                }
            },
        }
    }

    pub fn total_bytes(&self) -> (r: usize)
        requires
            self.is_initialized(),
            self.wf(),
        ensures
            r == self.the_heap().total_spec(),
    {
        match &self.inner {
            Some(h) => h.total_bytes(),
            None => {
                proof {
                    assert(false);
                }
                0
            },
        }
    }

    pub fn used_bytes(&self) -> (r: usize)
        requires
            self.is_initialized(),
            self.wf(),
        ensures
            r == self.the_heap().used_spec(),
    {
        match &self.inner {
            Some(h) => h.used_bytes(),
            None => {
                proof {
                    assert(false);
                }
                0
            },
        }
    }

    pub fn available_bytes(&self) -> (r: usize)
        requires
            self.is_initialized(),
            self.wf(),
        ensures
            r == self.the_heap().available_spec(),
    {
        match &self.inner {
            Some(h) => h.available_bytes(),
            None => {
                proof {
                    assert(false);
                }
                0
            },
        }
    }
}

} // verus!
