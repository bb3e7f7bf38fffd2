use crate::layout::{align_up, is_pow2, lemma_align_up, AllocError, Layout};
use vstd::prelude::*;

verus! {

/// Early boot-phase memory allocator over one region `[start, end)`.
///
/// A double-ended bump allocator: byte allocations grow `b_pos` forward from
/// `start`, whole-page allocations grow `p_pos` backward from `end`, and the
/// gap `[b_pos, p_pos)` is what remains. Neither cursor ever moves back:
/// deallocation is a no-op by design, and the region is never extended.
pub struct EarlyAllocator<const PAGE_SIZE: usize> {
    pub start: usize,
    pub end: usize,
    pub b_pos: usize,
    pub p_pos: usize,
}

impl<const PAGE_SIZE: usize> EarlyAllocator<PAGE_SIZE> {
    /// The cursors always sit inside the region, byte cursor below page cursor.
    pub open spec fn wf(self) -> bool {
        self.start <= self.b_pos <= self.p_pos <= self.end
    }

    pub open spec fn total_bytes_spec(self) -> int {
        self.end - self.start
    }

    pub open spec fn used_bytes_spec(self) -> int {
        (self.b_pos - self.start) + (self.end - self.p_pos)
    }

    pub open spec fn available_bytes_spec(self) -> int {
        self.p_pos - self.b_pos
    }

    pub fn new() -> (r: Self)
        ensures
            r.wf(),
            r == (EarlyAllocator::<PAGE_SIZE> { start: 0, end: 0, b_pos: 0, p_pos: 0 }),
    {
        EarlyAllocator { start: 0, end: 0, b_pos: 0, p_pos: 0 }
    }

    /// Takes ownership of `[start, start + size)` and resets both cursors to
    /// the region's ends.
    pub fn init(&mut self, start: usize, size: usize)
        requires
            is_pow2(PAGE_SIZE as int),
            start + size <= usize::MAX,
        ensures
            final(self).wf(),
            final(self).start == start,
            final(self).end == start + size,
            final(self).b_pos == start,
            final(self).p_pos == start + size,
    {
        self.start = start;
        self.end = start + size;
        self.b_pos = start;
        self.p_pos = start + size;
    }

    /// Extending the region is a capability this allocator lacks: it always
    /// fails with `NoMemory`.
    pub fn add_memory(&mut self, start: usize, size: usize) -> (r: Result<(), AllocError>)
        ensures
            *final(self) == *old(self),
            r == Result::<(), AllocError>::Err(AllocError::NoMemory),
    {
        let _ = start;
        let _ = size;
        Err(AllocError::NoMemory)
    }

    /// Serves a byte allocation from the front cursor: the result is `b_pos`
    /// rounded up to the requested alignment, and succeeds exactly when the
    /// aligned block still fits below `p_pos`.
    pub fn alloc_bytes(&mut self, layout: &Layout) -> (r: Result<usize, AllocError>)
        requires
            old(self).wf(),
            layout.wf(),
        ensures
            final(self).wf(),
            final(self).start == old(self).start,
            final(self).end == old(self).end,
            final(self).p_pos == old(self).p_pos,
            final(self).b_pos >= old(self).b_pos,
            ({
                let aligned = align_up(old(self).b_pos as int, layout.align as int);
                match r {
                    Ok(addr) => aligned + layout.size <= old(self).p_pos && addr == aligned
                        && (addr as int) % (layout.align as int) == 0 && final(self).b_pos == aligned
                        + layout.size,
                    Err(e) => aligned + layout.size > old(self).p_pos && e == AllocError::NoMemory
                        && final(self).b_pos == old(self).b_pos,
                }
            }),
    {
        proof {
            assert(layout.align >= 1);
            lemma_align_up(self.b_pos as int, layout.align as int);
        }
        let rem = self.b_pos % layout.align;
        let pad: usize = if rem == 0 {
            0
        } else {
            layout.align - rem
        };
        let gap = self.p_pos - self.b_pos;
        if pad <= gap && layout.size <= gap - pad {
            let aligned = self.b_pos + pad;
            self.b_pos = aligned + layout.size;
            Ok(aligned)
        } else {
            Err(AllocError::NoMemory)
        }
    }

    /// Individual byte deallocation is a no-op: bump allocators never reclaim.
    pub fn dealloc(&mut self, pos: usize, layout: &Layout)
        ensures
            *final(self) == *old(self),
    {
        let _ = pos;
        let _ = layout;
    }

    pub fn total_bytes(&self) -> (r: usize)
        requires
            self.wf(),
        ensures
            r == self.total_bytes_spec(),
    {
        self.end - self.start
    }

    pub fn used_bytes(&self) -> (r: usize)
        requires
            self.wf(),
        ensures
            r == self.used_bytes_spec(),
    {
        (self.b_pos - self.start) + (self.end - self.p_pos)
    }

    pub fn available_bytes(&self) -> (r: usize)
        requires
            self.wf(),
        ensures
            r == self.available_bytes_spec(),
    {
        self.p_pos - self.b_pos
    }

    /// Serves `num_pages` whole pages from the back cursor, which moves down
    /// by exactly that many pages on success. Alignment beyond the natural
    /// multiple-of-`PAGE_SIZE` placement is not enforced: `_align_pow2` is
    /// accepted and ignored, a documented gap of this allocator.
    pub fn alloc_pages(&mut self, num_pages: usize, _align_pow2: usize) -> (r: Result<
        usize,
        AllocError,
    >)
        requires
            old(self).wf(),
        ensures
            final(self).wf(),
            final(self).start == old(self).start,
            final(self).end == old(self).end,
            final(self).b_pos == old(self).b_pos,
            final(self).p_pos <= old(self).p_pos,
            ({
                let size = num_pages * PAGE_SIZE;
                match r {
                    Ok(addr) => old(self).b_pos + size <= old(self).p_pos && addr == old(
                        self,
                    ).p_pos - size && final(self).p_pos == addr,
                    Err(e) => old(self).b_pos + size > old(self).p_pos && e
                        == AllocError::NoMemory && final(self).p_pos == old(self).p_pos,
                }
            }),
    {
        let gap = self.p_pos - self.b_pos;
        let fits = match num_pages.checked_mul(PAGE_SIZE) {
            Some(size) => size <= gap,
            None => false,
        };
        proof {
            if num_pages * PAGE_SIZE > usize::MAX {
                assert(num_pages * PAGE_SIZE > self.p_pos - self.b_pos);
            }
        }
        if fits {
            let size = num_pages * PAGE_SIZE;
            let candidate = self.p_pos - size;
            self.p_pos = candidate;
            Ok(candidate)
        } else {
            Err(AllocError::NoMemory)
        }
    }

    /// Page deallocation is a no-op: pages, once given out, are never
    /// reclaimed by this allocator.
    pub fn dealloc_pages(&mut self, pos: usize, num_pages: usize)
        ensures
            *final(self) == *old(self),
    {
        let _ = pos;
        let _ = num_pages;
    }

    pub fn total_pages(&self) -> (r: usize)
        requires
            self.wf(),
            PAGE_SIZE >= 1,
        ensures
            r == self.total_bytes_spec() / (PAGE_SIZE as int),
    {
        (self.end - self.start) / PAGE_SIZE
    }

    pub fn used_pages(&self) -> (r: usize)
        requires
            self.wf(),
            PAGE_SIZE >= 1,
        ensures
            r == (self.end - self.p_pos) / (PAGE_SIZE as int),
    {
        (self.end - self.p_pos) / PAGE_SIZE
    }

    pub fn available_pages(&self) -> (r: usize)
        requires
            self.wf(),
            PAGE_SIZE >= 1,
        ensures
            r == self.available_bytes_spec() / (PAGE_SIZE as int),
    {
        (self.p_pos - self.b_pos) / PAGE_SIZE
    }
}

/// Statistics invariant of the bump allocator: in every well-formed state the
/// region splits exactly into the used prefix, the available gap, and the used
/// suffix, so `total == used + available`.
pub proof fn lemma_early_stats_partition<const PAGE_SIZE: usize>(ea: EarlyAllocator<PAGE_SIZE>)
    requires
        ea.wf(),
    ensures
        ea.total_bytes_spec() == ea.used_bytes_spec() + ea.available_bytes_spec(),
{
}

} // verus!
