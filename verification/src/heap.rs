use crate::buddy::{
    lemma_free_bytes_nonneg, lemma_next_p2_ge, lemma_p2_order, lg, rounded_req, BuddyTier, ORDER,
};
use crate::layout::{
    is_pow2, lemma_is_pow2_exponent, lemma_mod_chain, lemma_p2_divides, lemma_p2_pos, p2,
    AllocError, Layout,
};
use crate::slab::{grow_chunk, Slab};
use vstd::prelude::*;

verus! {

/// The smallest heap the tiered allocator accepts, and the granularity of its
/// initial size.
pub const MIN_HEAP_SIZE: usize = 0x8000;

/// The sub-allocator a request is routed to: one of eight fixed-size slab
/// classes, or the buddy tier for anything larger than the largest class.
#[derive(Clone, Copy, PartialEq, Eq, Structural, Debug)]
pub enum HeapAllocator {
    Slab64Bytes,
    Slab128Bytes,
    Slab256Bytes,
    Slab512Bytes,
    Slab1024Bytes,
    Slab2048Bytes,
    Slab4096Bytes,
    Slab8192Bytes,
    BuddyAllocator,
}

/// Deterministic, total classification: the smallest class whose capacity
/// covers both the size and the alignment; requests over 8192 bytes go to the
/// buddy tier regardless of alignment. A request of at most 8192 bytes whose
/// alignment exceeds 8192 falls into the 8192-byte class, whose blocks do not
/// honour such an alignment: a documented gap inherited from the routing rule.
pub open spec fn spec_layout_to_allocator(l: Layout) -> HeapAllocator {
    if l.size > 8192 {
        HeapAllocator::BuddyAllocator
    } else if l.size <= 64 && l.align <= 64 {
        HeapAllocator::Slab64Bytes
    } else if l.size <= 128 && l.align <= 128 {
        HeapAllocator::Slab128Bytes
    } else if l.size <= 256 && l.align <= 256 {
        HeapAllocator::Slab256Bytes
    } else if l.size <= 512 && l.align <= 512 {
        HeapAllocator::Slab512Bytes
    } else if l.size <= 1024 && l.align <= 1024 {
        HeapAllocator::Slab1024Bytes
    } else if l.size <= 2048 && l.align <= 2048 {
        HeapAllocator::Slab2048Bytes
    } else if l.size <= 4096 && l.align <= 4096 {
        HeapAllocator::Slab4096Bytes
    } else {
        HeapAllocator::Slab8192Bytes
    }
}

/// The fixed block size of a slab class (0 for the buddy tier, which has no
/// fixed capacity).
pub open spec fn class_capacity(c: HeapAllocator) -> int {
    match c {
        HeapAllocator::Slab64Bytes => 64,
        HeapAllocator::Slab128Bytes => 128,
        HeapAllocator::Slab256Bytes => 256,
        HeapAllocator::Slab512Bytes => 512,
        HeapAllocator::Slab1024Bytes => 1024,
        HeapAllocator::Slab2048Bytes => 2048,
        HeapAllocator::Slab4096Bytes => 4096,
        HeapAllocator::Slab8192Bytes => 8192,
        HeapAllocator::BuddyAllocator => 0,
    }
}

/// How many bytes a successful allocation reserves for the request: the whole
/// class block for a slab class, the exact size for the buddy tier.
pub open spec fn granted_spec(l: Layout) -> int {
    let c = spec_layout_to_allocator(l);
    if c is BuddyAllocator {
        l.size as int
    } else {
        class_capacity(c)
    }
}

pub open spec fn is_class_capacity(k: int) -> bool {
    k == 64 || k == 128 || k == 256 || k == 512 || k == 1024 || k == 2048 || k == 4096 || k == 8192
}

proof fn lemma_caps_pow2()
    ensures
        is_pow2(64),
        is_pow2(128),
        is_pow2(256),
        is_pow2(512),
        is_pow2(1024),
        is_pow2(2048),
        is_pow2(4096),
        is_pow2(8192),
{
    assert(is_pow2(64) && is_pow2(128) && is_pow2(256) && is_pow2(512) && is_pow2(1024) && is_pow2(
        2048,
    ) && is_pow2(4096) && is_pow2(8192)) by {
        reveal_with_fuel(is_pow2, 15);
    };
}

/// An address aligned to a power-of-two capacity is aligned to every
/// power-of-two divisor of it.
proof fn lemma_align_divides_cap(a: usize, cap: int, align: int)
    requires
        is_pow2(align),
        is_pow2(cap),
        align <= cap,
        (a as int) % cap == 0,
    ensures
        (a as int) % align == 0,
{
    let e = lemma_is_pow2_exponent(align);
    let g = lemma_is_pow2_exponent(cap);
    lemma_p2_pos(e);
    lemma_p2_pos(g);
    lemma_p2_order(e, g);
    lemma_p2_divides(e, g);
    lemma_mod_chain(a as int, cap, align);
}

/// The tiered byte allocator: eight slab classes over one buddy tier.
///
/// `buddy_user_bytes` and `buddy_user_rounded` account for the requests served
/// directly by the buddy tier (requested bytes, and the power-of-two bytes
/// they actually occupy); slab growth chunks are accounted by the classes'
/// block counters instead.
pub struct Heap {
    pub slab_64_bytes: Slab,
    pub slab_128_bytes: Slab,
    pub slab_256_bytes: Slab,
    pub slab_512_bytes: Slab,
    pub slab_1024_bytes: Slab,
    pub slab_2048_bytes: Slab,
    pub slab_4096_bytes: Slab,
    pub slab_8192_bytes: Slab,
    pub buddy_allocator: BuddyTier,
    pub buddy_user_bytes: usize,
    pub buddy_user_rounded: usize,
}

impl Heap {
    /// The slab class instance owning a (non-buddy) class.
    pub open spec fn class_slab(self, c: HeapAllocator) -> Slab {
        match c {
            HeapAllocator::Slab64Bytes => self.slab_64_bytes,
            HeapAllocator::Slab128Bytes => self.slab_128_bytes,
            HeapAllocator::Slab256Bytes => self.slab_256_bytes,
            HeapAllocator::Slab512Bytes => self.slab_512_bytes,
            HeapAllocator::Slab1024Bytes => self.slab_1024_bytes,
            HeapAllocator::Slab2048Bytes => self.slab_2048_bytes,
            HeapAllocator::Slab4096Bytes => self.slab_4096_bytes,
            HeapAllocator::Slab8192Bytes => self.slab_8192_bytes,
            HeapAllocator::BuddyAllocator => self.slab_64_bytes,
        }
    }

    pub open spec fn slab_total_bytes(self) -> int {
        self.slab_64_bytes.total_bytes_spec() + self.slab_128_bytes.total_bytes_spec()
            + self.slab_256_bytes.total_bytes_spec() + self.slab_512_bytes.total_bytes_spec()
            + self.slab_1024_bytes.total_bytes_spec() + self.slab_2048_bytes.total_bytes_spec()
            + self.slab_4096_bytes.total_bytes_spec() + self.slab_8192_bytes.total_bytes_spec()
    }

    pub open spec fn slab_used_bytes(self) -> int {
        self.slab_64_bytes.used_bytes_spec() + self.slab_128_bytes.used_bytes_spec()
            + self.slab_256_bytes.used_bytes_spec() + self.slab_512_bytes.used_bytes_spec()
            + self.slab_1024_bytes.used_bytes_spec() + self.slab_2048_bytes.used_bytes_spec()
            + self.slab_4096_bytes.used_bytes_spec() + self.slab_8192_bytes.used_bytes_spec()
    }

    /// Total managed bytes: every slab class's blocks plus the whole buddy
    /// range (a block donated to a class counts in both, as the class keeps it
    /// forever while the buddy tier keeps it allocated).
    pub open spec fn total_spec(self) -> int {
        self.slab_total_bytes() + self.buddy_allocator.total
    }

    /// Allocated bytes: blocks held by callers in the slab classes, plus the
    /// requests served directly by the buddy tier.
    pub open spec fn used_spec(self) -> int {
        self.slab_used_bytes() + self.buddy_user_bytes
    }

    pub open spec fn available_spec(self) -> int {
        self.total_spec() - self.used_spec()
    }

    pub open spec fn wf(self) -> bool {
        &&& self.slab_64_bytes.wf() && self.slab_64_bytes.block_size == 64
        &&& self.slab_128_bytes.wf() && self.slab_128_bytes.block_size == 128
        &&& self.slab_256_bytes.wf() && self.slab_256_bytes.block_size == 256
        &&& self.slab_512_bytes.wf() && self.slab_512_bytes.block_size == 512
        &&& self.slab_1024_bytes.wf() && self.slab_1024_bytes.block_size == 1024
        &&& self.slab_2048_bytes.wf() && self.slab_2048_bytes.block_size == 2048
        &&& self.slab_4096_bytes.wf() && self.slab_4096_bytes.block_size == 4096
        &&& self.slab_8192_bytes.wf() && self.slab_8192_bytes.block_size == 8192
        &&& self.buddy_allocator.wf()
        &&& self.buddy_user_bytes <= self.buddy_user_rounded
        &&& self.slab_total_bytes() + self.buddy_user_rounded == self.buddy_allocator.allocated
        &&& self.buddy_allocator.total <= usize::MAX / 2
    }

    /// What a `deallocate(ptr, l)` caller must guarantee: exactly the facts
    /// that hold of the pointer and the state after the matching successful
    /// `allocate(l)` returned `ptr`.
    pub open spec fn dealloc_req(self, ptr: usize, l: Layout) -> bool {
        let c = spec_layout_to_allocator(l);
        if c is BuddyAllocator {
            &&& rounded_req(l.size as int, l.align as int) <= p2(31)
            &&& ptr != 0
            &&& (ptr as int) % rounded_req(l.size as int, l.align as int) == 0
            &&& ptr + rounded_req(l.size as int, l.align as int) <= usize::MAX
            &&& l.size <= self.buddy_user_bytes
            &&& self.buddy_user_bytes + rounded_req(l.size as int, l.align as int)
                <= self.buddy_user_rounded + l.size
        } else {
            &&& self.class_slab(c).used_blocks >= 1
            &&& ptr != 0
            &&& (ptr as int) % class_capacity(c) == 0
        }
    }

    /// What a successful `allocate(l) == Ok(a)` guarantees, relating the state
    /// before (`pre`) and after (`post`): the exact statistics deltas, the
    /// alignment of the block, that only the routed sub-allocator changed, and
    /// that success came out of capacity that was really free beforehand.
    pub open spec fn alloc_ok_post(pre: Heap, post: Heap, l: Layout, a: usize) -> bool {
        let c = spec_layout_to_allocator(l);
        &&& a != 0
        &&& post.used_spec() == pre.used_spec() + granted_spec(l)
        &&& post.total_spec() >= pre.total_spec()
        &&& post.buddy_allocator.total == pre.buddy_allocator.total
        &&& ((l.align <= 8192 || l.size > 8192) ==> (a as int) % (l.align as int) == 0)
        &&& post.dealloc_req(a, l)
        &&& slabs_unchanged_except(pre, post, c)
        &&& if c is BuddyAllocator {
            &&& post.total_spec() == pre.total_spec()
            &&& post.buddy_user_bytes == pre.buddy_user_bytes + l.size
            &&& post.buddy_user_rounded == pre.buddy_user_rounded + rounded_req(
                l.size as int,
                l.align as int,
            )
            &&& !pre.buddy_allocator.empty_from(lg(rounded_req(l.size as int, l.align as int)))
        } else {
            &&& post.buddy_user_bytes == pre.buddy_user_bytes
            &&& post.buddy_user_rounded == pre.buddy_user_rounded
            &&& post.class_slab(c).used_blocks == pre.class_slab(c).used_blocks + 1
            &&& post.class_slab(c).total_bytes_spec() >= pre.class_slab(c).total_bytes_spec()
            &&& (pre.class_slab(c).free@.len() > 0 || !pre.buddy_allocator.empty_from(
                lg(grow_chunk(class_capacity(c))),
            ))
        }
    }

    /// What `deallocate(ptr, l)` guarantees: the exact statistics deltas, no
    /// change of total capacity, and that only the routed sub-allocator (which
    /// never shrinks) changed.
    pub open spec fn dealloc_post(pre: Heap, post: Heap, l: Layout) -> bool {
        let c = spec_layout_to_allocator(l);
        &&& post.used_spec() == pre.used_spec() - granted_spec(l)
        &&& post.total_spec() == pre.total_spec()
        &&& post.buddy_allocator.total == pre.buddy_allocator.total
        &&& slabs_unchanged_except(pre, post, c)
        &&& if c is BuddyAllocator {
            &&& post.buddy_user_bytes == pre.buddy_user_bytes - l.size
            &&& post.buddy_user_rounded == pre.buddy_user_rounded - rounded_req(
                l.size as int,
                l.align as int,
            )
        } else {
            &&& post.buddy_allocator == pre.buddy_allocator
            &&& post.buddy_user_bytes == pre.buddy_user_bytes
            &&& post.buddy_user_rounded == pre.buddy_user_rounded
            &&& post.class_slab(c).total_blocks == pre.class_slab(c).total_blocks
            &&& post.class_slab(c).used_blocks == pre.class_slab(c).used_blocks - 1
        }
    }
}

/// All slab classes except (at most) the one owning class `c` are unchanged.
pub open spec fn slabs_unchanged_except(pre: Heap, post: Heap, c: HeapAllocator) -> bool {
    &&& (!(c is Slab64Bytes) ==> post.slab_64_bytes == pre.slab_64_bytes)
    &&& (!(c is Slab128Bytes) ==> post.slab_128_bytes == pre.slab_128_bytes)
    &&& (!(c is Slab256Bytes) ==> post.slab_256_bytes == pre.slab_256_bytes)
    &&& (!(c is Slab512Bytes) ==> post.slab_512_bytes == pre.slab_512_bytes)
    &&& (!(c is Slab1024Bytes) ==> post.slab_1024_bytes == pre.slab_1024_bytes)
    &&& (!(c is Slab2048Bytes) ==> post.slab_2048_bytes == pre.slab_2048_bytes)
    &&& (!(c is Slab4096Bytes) ==> post.slab_4096_bytes == pre.slab_4096_bytes)
    &&& (!(c is Slab8192Bytes) ==> post.slab_8192_bytes == pre.slab_8192_bytes)
}

/// Every byte counter of a well-formed heap is nonnegative and bounded: no
/// class holds more used than total bytes, all slab bytes fit under the buddy
/// tier's allocated count, and `used <= total` overall.
pub proof fn lemma_heap_bounds(h: Heap)
    requires
        h.wf(),
    ensures
        0 <= h.slab_64_bytes.total_bytes_spec(),
        0 <= h.slab_128_bytes.total_bytes_spec(),
        0 <= h.slab_256_bytes.total_bytes_spec(),
        0 <= h.slab_512_bytes.total_bytes_spec(),
        0 <= h.slab_1024_bytes.total_bytes_spec(),
        0 <= h.slab_2048_bytes.total_bytes_spec(),
        0 <= h.slab_4096_bytes.total_bytes_spec(),
        0 <= h.slab_8192_bytes.total_bytes_spec(),
        0 <= h.slab_64_bytes.used_bytes_spec() <= h.slab_64_bytes.total_bytes_spec(),
        0 <= h.slab_128_bytes.used_bytes_spec() <= h.slab_128_bytes.total_bytes_spec(),
        0 <= h.slab_256_bytes.used_bytes_spec() <= h.slab_256_bytes.total_bytes_spec(),
        0 <= h.slab_512_bytes.used_bytes_spec() <= h.slab_512_bytes.total_bytes_spec(),
        0 <= h.slab_1024_bytes.used_bytes_spec() <= h.slab_1024_bytes.total_bytes_spec(),
        0 <= h.slab_2048_bytes.used_bytes_spec() <= h.slab_2048_bytes.total_bytes_spec(),
        0 <= h.slab_4096_bytes.used_bytes_spec() <= h.slab_4096_bytes.total_bytes_spec(),
        0 <= h.slab_8192_bytes.used_bytes_spec() <= h.slab_8192_bytes.total_bytes_spec(),
        0 <= h.slab_used_bytes() <= h.slab_total_bytes(),
        h.slab_total_bytes() <= h.buddy_allocator.allocated,
        h.buddy_allocator.allocated <= h.buddy_allocator.total,
        0 <= h.used_spec() <= h.total_spec(),
        h.total_spec() <= usize::MAX,
{
    lemma_slab_byte_bounds(h.slab_64_bytes);
    lemma_slab_byte_bounds(h.slab_128_bytes);
    lemma_slab_byte_bounds(h.slab_256_bytes);
    lemma_slab_byte_bounds(h.slab_512_bytes);
    lemma_slab_byte_bounds(h.slab_1024_bytes);
    lemma_slab_byte_bounds(h.slab_2048_bytes);
    lemma_slab_byte_bounds(h.slab_4096_bytes);
    lemma_slab_byte_bounds(h.slab_8192_bytes);
    lemma_free_bytes_nonneg(h.buddy_allocator.lists(), ORDER as int);
}

proof fn lemma_slab_byte_bounds(s: Slab)
    requires
        s.wf(),
    ensures
        0 <= s.used_bytes_spec() <= s.total_bytes_spec(),
{
    vstd::arithmetic::mul::lemma_mul_nonnegative(s.used_blocks as int, s.block_size as int);
    vstd::arithmetic::mul::lemma_mul_inequality(
        s.used_blocks as int,
        s.total_blocks as int,
        s.block_size as int,
    );
}

impl Heap {
    /// Creates a heap over `[start, start + size)`: all eight slab classes start
    /// empty, and the buddy tier manages the whole range. The range must be
    /// page-aligned, at least `MIN_HEAP_SIZE` and a multiple of it, and leave
    /// room for the statistics to be computed without overflow.
    pub fn new(start: usize, size: usize) -> (r: Heap)
        requires
            start % 4096 == 0,
            start > 0,
            MIN_HEAP_SIZE <= size,
            size % MIN_HEAP_SIZE == 0,
            start + size <= usize::MAX,
            size <= usize::MAX / 2,
        ensures
            r.wf(),
            r.total_spec() == size,
            r.used_spec() == 0,
            r.buddy_user_bytes == 0,
            r.buddy_user_rounded == 0,
            r.slab_64_bytes.total_blocks == 0 && r.slab_64_bytes.used_blocks == 0
                && r.slab_64_bytes.free@.len() == 0,
            r.slab_128_bytes.total_blocks == 0 && r.slab_128_bytes.used_blocks == 0
                && r.slab_128_bytes.free@.len() == 0,
            r.slab_256_bytes.total_blocks == 0 && r.slab_256_bytes.used_blocks == 0
                && r.slab_256_bytes.free@.len() == 0,
            r.slab_512_bytes.total_blocks == 0 && r.slab_512_bytes.used_blocks == 0
                && r.slab_512_bytes.free@.len() == 0,
            r.slab_1024_bytes.total_blocks == 0 && r.slab_1024_bytes.used_blocks == 0
                && r.slab_1024_bytes.free@.len() == 0,
            r.slab_2048_bytes.total_blocks == 0 && r.slab_2048_bytes.used_blocks == 0
                && r.slab_2048_bytes.free@.len() == 0,
            r.slab_4096_bytes.total_blocks == 0 && r.slab_4096_bytes.used_blocks == 0
                && r.slab_4096_bytes.free@.len() == 0,
            r.slab_8192_bytes.total_blocks == 0 && r.slab_8192_bytes.used_blocks == 0
                && r.slab_8192_bytes.free@.len() == 0,
            r.buddy_allocator.total == size,
            r.buddy_allocator.allocated == 0,
            !r.buddy_allocator.empty_from(12),
    {
        proof {
            lemma_caps_pow2();
            lemma_mod_chain(start as int, 4096, 8);
            lemma_mod_chain(size as int, MIN_HEAP_SIZE as int, 8);
            vstd::arithmetic::div_mod::lemma_add_mod_noop(start as int, size as int, 8);
        }
        let mut buddy_allocator = BuddyTier::new();
        buddy_allocator.add_to_heap(start, start + size);
        let r = Heap {
            slab_64_bytes: Slab::new(64),
            slab_128_bytes: Slab::new(128),
            slab_256_bytes: Slab::new(256),
            slab_512_bytes: Slab::new(512),
            slab_1024_bytes: Slab::new(1024),
            slab_2048_bytes: Slab::new(2048),
            slab_4096_bytes: Slab::new(4096),
            slab_8192_bytes: Slab::new(8192),
            buddy_allocator,
            buddy_user_bytes: 0,
            buddy_user_rounded: 0,
        };
        r
    }

    /// Extends only the buddy tier's address space by the page-aligned range
    /// `[start, start + size)`; the slab classes are unaffected.
    pub fn add_memory(&mut self, start: usize, size: usize)
        requires
            old(self).wf(),
            start % 4096 == 0,
            start > 0,
            size % 4096 == 0,
            start + size <= usize::MAX,
            old(self).total_spec() + size <= usize::MAX / 2,
        ensures
            final(self).wf(),
            final(self).total_spec() == old(self).total_spec() + size,
            final(self).used_spec() == old(self).used_spec(),
            final(self).buddy_user_bytes == old(self).buddy_user_bytes,
            final(self).buddy_user_rounded == old(self).buddy_user_rounded,
            final(self).slab_64_bytes == old(self).slab_64_bytes,
            final(self).slab_128_bytes == old(self).slab_128_bytes,
            final(self).slab_256_bytes == old(self).slab_256_bytes,
            final(self).slab_512_bytes == old(self).slab_512_bytes,
            final(self).slab_1024_bytes == old(self).slab_1024_bytes,
            final(self).slab_2048_bytes == old(self).slab_2048_bytes,
            final(self).slab_4096_bytes == old(self).slab_4096_bytes,
            final(self).slab_8192_bytes == old(self).slab_8192_bytes,
            final(self).buddy_allocator.total == old(self).buddy_allocator.total + size,
            final(self).buddy_allocator.allocated == old(self).buddy_allocator.allocated,
    {
        proof {
            lemma_heap_bounds(*self);
            lemma_mod_chain(start as int, 4096, 8);
            lemma_mod_chain(size as int, 4096, 8);
            vstd::arithmetic::div_mod::lemma_add_mod_noop(start as int, size as int, 8);
        }
        self.buddy_allocator.add_to_heap(start, start + size);
    }

    /// Finds the sub-allocator for a request, by size and alignment alone.
    pub fn layout_to_allocator(layout: &Layout) -> (r: HeapAllocator)
        ensures
            r == spec_layout_to_allocator(*layout),
    {
        if layout.size > 8192 {
            HeapAllocator::BuddyAllocator
        } else if layout.size <= 64 && layout.align <= 64 {
            HeapAllocator::Slab64Bytes
        } else if layout.size <= 128 && layout.align <= 128 {
            HeapAllocator::Slab128Bytes
        } else if layout.size <= 256 && layout.align <= 256 {
            HeapAllocator::Slab256Bytes
        } else if layout.size <= 512 && layout.align <= 512 {
            HeapAllocator::Slab512Bytes
        } else if layout.size <= 1024 && layout.align <= 1024 {
            HeapAllocator::Slab1024Bytes
        } else if layout.size <= 2048 && layout.align <= 2048 {
            HeapAllocator::Slab2048Bytes
        } else if layout.size <= 4096 && layout.align <= 4096 {
            HeapAllocator::Slab4096Bytes
        } else {
            HeapAllocator::Slab8192Bytes
        }
    }

    /// Reports the requested size and the bytes actually reserved for a
    /// request of this layout: the class capacity, or the exact size for the
    /// buddy tier.
    pub fn usable_size(&self, layout: Layout) -> (r: (usize, usize))
        ensures
            r.0 == layout.size,
            r.1 == granted_spec(layout),
    {
        match Heap::layout_to_allocator(&layout) {
            HeapAllocator::Slab64Bytes => (layout.size, 64),
            HeapAllocator::Slab128Bytes => (layout.size, 128),
            HeapAllocator::Slab256Bytes => (layout.size, 256),
            HeapAllocator::Slab512Bytes => (layout.size, 512),
            HeapAllocator::Slab1024Bytes => (layout.size, 1024),
            HeapAllocator::Slab2048Bytes => (layout.size, 2048),
            HeapAllocator::Slab4096Bytes => (layout.size, 4096),
            HeapAllocator::Slab8192Bytes => (layout.size, 8192),
            HeapAllocator::BuddyAllocator => (layout.size, layout.size),
        }
    }

    pub fn total_bytes(&self) -> (r: usize)
        requires
            self.wf(),
        ensures
            r == self.total_spec(),
    {
        proof {
            lemma_heap_bounds(*self);
        }
        self.slab_64_bytes.total_blocks() * 64 + self.slab_128_bytes.total_blocks() * 128
            + self.slab_256_bytes.total_blocks() * 256 + self.slab_512_bytes.total_blocks() * 512
            + self.slab_1024_bytes.total_blocks() * 1024 + self.slab_2048_bytes.total_blocks()
            * 2048 + self.slab_4096_bytes.total_blocks() * 4096
            + self.slab_8192_bytes.total_blocks() * 8192
            + self.buddy_allocator.stats_total_bytes()
    }

    pub fn used_bytes(&self) -> (r: usize)
        requires
            self.wf(),
        ensures
            r == self.used_spec(),
    {
        proof {
            lemma_heap_bounds(*self);
        }
        self.slab_64_bytes.used_blocks() * 64 + self.slab_128_bytes.used_blocks() * 128
            + self.slab_256_bytes.used_blocks() * 256 + self.slab_512_bytes.used_blocks() * 512
            + self.slab_1024_bytes.used_blocks() * 1024 + self.slab_2048_bytes.used_blocks() * 2048
            + self.slab_4096_bytes.used_blocks() * 4096 + self.slab_8192_bytes.used_blocks() * 8192
            + self.buddy_user_bytes
    }

    pub fn available_bytes(&self) -> (r: usize)
        requires
            self.wf(),
        ensures
            r == self.available_spec(),
    {
        proof {
            lemma_heap_bounds(*self);
        }
        self.total_bytes() - self.used_bytes()
    }

    /// Classifies the request and dispatches it: a slab class pops a free
    /// block (growing itself from the buddy tier first when empty), the buddy
    /// tier serves large requests directly. A slab class with a free block
    /// never fails; otherwise failure means the buddy tier could not supply
    /// the growth chunk or the large block, and the heap is left unchanged.
    pub fn allocate(&mut self, layout: Layout) -> (r: Result<usize, AllocError>)
        requires
            old(self).wf(),
            layout.wf(),
        ensures
            final(self).wf(),
            match r {
                Ok(a) => Heap::alloc_ok_post(*old(self), *final(self), layout, a),
                Err(e) => e == AllocError::NoMemory && *final(self) == *old(self),
            },
            ({
                let c = spec_layout_to_allocator(layout);
                (!(c is BuddyAllocator) && old(self).class_slab(c).free@.len() > 0) ==> r is Ok
            }),
            ({
                let rd = rounded_req(layout.size as int, layout.align as int);
                (spec_layout_to_allocator(layout) is BuddyAllocator && r is Err) ==> (rd > p2(31)
                    || old(self).buddy_allocator.empty_from(lg(rd)))
            }),
            ({
                let c = spec_layout_to_allocator(layout);
                (!(c is BuddyAllocator) && r is Err) ==> (old(self).class_slab(c).free@.len() == 0
                    && old(self).buddy_allocator.empty_from(lg(grow_chunk(class_capacity(c)))))
            }),
            ({
                let c = spec_layout_to_allocator(layout);
                (c is BuddyAllocator && old(self).used_spec() + layout.size > old(
                    self,
                ).total_spec()) ==> r is Err
            }),
            ({
                let c = spec_layout_to_allocator(layout);
                (!(c is BuddyAllocator) && !old(self).buddy_allocator.empty_from(
                    lg(grow_chunk(class_capacity(c))),
                )) ==> r is Ok
            }),
    {
        proof {
            lemma_heap_bounds(*self);
            lemma_caps_pow2();
        }
        match Heap::layout_to_allocator(&layout) {
            HeapAllocator::Slab64Bytes => {
                match self.slab_64_bytes.allocate(&mut self.buddy_allocator) {
                    Ok(a) => {
                        proof {
                            lemma_align_divides_cap(a, 64, layout.align as int);
                        }
                        Ok(a)
                    },
                    Err(e) => Err(e),
                }
            },
            HeapAllocator::Slab128Bytes => {
                match self.slab_128_bytes.allocate(&mut self.buddy_allocator) {
                    Ok(a) => {
                        proof {
                            lemma_align_divides_cap(a, 128, layout.align as int);
                        }
                        Ok(a)
                    },
                    Err(e) => Err(e),
                }
            },
            HeapAllocator::Slab256Bytes => {
                match self.slab_256_bytes.allocate(&mut self.buddy_allocator) {
                    Ok(a) => {
                        proof {
                            lemma_align_divides_cap(a, 256, layout.align as int);
                        }
                        Ok(a)
                    },
                    Err(e) => Err(e),
                }
            },
            HeapAllocator::Slab512Bytes => {
                match self.slab_512_bytes.allocate(&mut self.buddy_allocator) {
                    Ok(a) => {
                        proof {
                            lemma_align_divides_cap(a, 512, layout.align as int);
                        }
                        Ok(a)
                    },
                    Err(e) => Err(e),
                }
            },
            HeapAllocator::Slab1024Bytes => {
                match self.slab_1024_bytes.allocate(&mut self.buddy_allocator) {
                    Ok(a) => {
                        proof {
                            lemma_align_divides_cap(a, 1024, layout.align as int);
                        }
                        Ok(a)
                    },
                    Err(e) => Err(e),
                }
            },
            HeapAllocator::Slab2048Bytes => {
                match self.slab_2048_bytes.allocate(&mut self.buddy_allocator) {
                    Ok(a) => {
                        proof {
                            lemma_align_divides_cap(a, 2048, layout.align as int);
                        }
                        Ok(a)
                    },
                    Err(e) => Err(e),
                }
            },
            HeapAllocator::Slab4096Bytes => {
                match self.slab_4096_bytes.allocate(&mut self.buddy_allocator) {
                    Ok(a) => {
                        proof {
                            lemma_align_divides_cap(a, 4096, layout.align as int);
                        }
                        Ok(a)
                    },
                    Err(e) => Err(e),
                }
            },
            HeapAllocator::Slab8192Bytes => {
                match self.slab_8192_bytes.allocate(&mut self.buddy_allocator) {
                    Ok(a) => {
                        proof {
                            if layout.align <= 8192 {
                                lemma_align_divides_cap(a, 8192, layout.align as int);
                            }
                        }
                        Ok(a)
                    },
                    Err(e) => Err(e),
                }
            },
            HeapAllocator::BuddyAllocator => {
                let rounded_opt = BuddyTier::round_request(layout.size, layout.align);
                match self.buddy_allocator.alloc_block(layout.size, layout.align) {
                    Ok(a) => {
                        let (rounded, _cls) = match rounded_opt {
                            Some(p) => p,
                            None => {
                                proof {
                                    assert(false);
                                }
                                (0, 0)
                            },
                        };
                        proof {
                            lemma_next_p2_ge(layout.size as int);
                            lemma_free_bytes_nonneg(self.buddy_allocator.lists(), ORDER as int);
                        }
                        self.buddy_user_bytes = self.buddy_user_bytes + layout.size;
                        self.buddy_user_rounded = self.buddy_user_rounded + rounded;
                        proof {
                            lemma_heap_bounds(*self);
                        }
                        Ok(a)
                    },
                    Err(_) => Err(AllocError::NoMemory),
                }
            },
        }
    }

    /// Returns a block obtained from a prior successful `allocate` with the
    /// very same layout: classification is re-run to find the owning
    /// sub-allocator, so a mismatched layout violates the precondition.
    pub fn deallocate(&mut self, ptr: usize, layout: Layout)
        requires
            old(self).wf(),
            layout.wf(),
            old(self).dealloc_req(ptr, layout),
        ensures
            final(self).wf(),
            Heap::dealloc_post(*old(self), *final(self), layout),
    {
        proof {
            lemma_heap_bounds(*self);
        }
        match Heap::layout_to_allocator(&layout) {
            HeapAllocator::Slab64Bytes => {
                self.slab_64_bytes.deallocate(ptr);
            },
            HeapAllocator::Slab128Bytes => {
                self.slab_128_bytes.deallocate(ptr);
            },
            HeapAllocator::Slab256Bytes => {
                self.slab_256_bytes.deallocate(ptr);
            },
            HeapAllocator::Slab512Bytes => {
                self.slab_512_bytes.deallocate(ptr);
            },
            HeapAllocator::Slab1024Bytes => {
                self.slab_1024_bytes.deallocate(ptr);
            },
            HeapAllocator::Slab2048Bytes => {
                self.slab_2048_bytes.deallocate(ptr);
            },
            HeapAllocator::Slab4096Bytes => {
                self.slab_4096_bytes.deallocate(ptr);
            },
            HeapAllocator::Slab8192Bytes => {
                self.slab_8192_bytes.deallocate(ptr);
            },
            HeapAllocator::BuddyAllocator => {
                let (rounded, _cls) = match BuddyTier::round_request(layout.size, layout.align) {
                    Some(p) => p,
                    None => {
                        proof {
                            assert(false);
                        }
                        (0, 0)
                    },
                };
                self.buddy_allocator.dealloc_block(ptr, layout.size, layout.align);
                self.buddy_user_bytes = self.buddy_user_bytes - layout.size;
                self.buddy_user_rounded = self.buddy_user_rounded - rounded;
            },
        }
    }
}

/// Classification totality, soundness and minimality: a request of at most
/// 8192 bytes with alignment at most 8192 is routed to the smallest class
/// whose capacity covers both size and alignment; anything larger than 8192
/// bytes goes to the buddy tier whatever its alignment.
pub proof fn lemma_classification(l: Layout)
    ensures
        l.size > 8192 ==> spec_layout_to_allocator(l) is BuddyAllocator,
        (l.size <= 8192 && l.align <= 8192) ==> ({
            let c = spec_layout_to_allocator(l);
            &&& !(c is BuddyAllocator)
            &&& l.size <= class_capacity(c)
            &&& l.align <= class_capacity(c)
            &&& forall|k: int|
                is_class_capacity(k) && l.size <= k && l.align <= k ==> class_capacity(c) <= k
        }),
{
}

/// Statistics invariant: in every well-formed heap state the managed bytes
/// split exactly into used and available bytes.
pub proof fn lemma_stats_partition(h: Heap)
    requires
        h.wf(),
    ensures
        h.total_spec() == h.used_spec() + h.available_spec(),
        0 <= h.used_spec() <= h.total_spec(),
{
    lemma_heap_bounds(h);
}

/// Allocate/deallocate round trip: a successful allocation leaves the heap in
/// a state where deallocating the same block with the same layout is allowed,
/// and doing so restores the used-byte count exactly.
pub proof fn lemma_alloc_dealloc_roundtrip(h0: Heap, h1: Heap, h2: Heap, l: Layout, a: usize)
    requires
        h0.wf(),
        l.wf(),
        l.size <= 8192,
        l.align <= l.size,
        Heap::alloc_ok_post(h0, h1, l, a),
        Heap::dealloc_post(h1, h2, l),
    ensures
        h1.dealloc_req(a, l),
        h2.used_spec() == h0.used_spec(),
{
}

} // verus!
