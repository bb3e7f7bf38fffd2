use crate::buddy::{lemma_p2_concrete, lemma_p2_order, lg, next_p2, rounded_req, BuddyTier};
use crate::layout::{
    is_pow2, lemma_is_pow2_exponent, lemma_mod_chain, lemma_p2_divides, lemma_p2_mono,
    lemma_p2_pos, p2, AllocError,
};
use vstd::prelude::*;

verus! {

/// Bytes a class requests from the buddy tier when its free list runs dry:
/// one page, or one block for the classes of at least a page.
pub open spec fn grow_chunk(bs: int) -> int {
    if bs < 4096 {
        4096
    } else {
        bs
    }
}

/// A power of two is its own rounding: a request for `p2(k)` bytes aligned to
/// a divisor of it (at least 8) rounds to exactly `p2(k)`.
pub proof fn lemma_rounded_exact(k: int, align: int)
    requires
        3 <= k,
        1 <= align <= p2(k),
    ensures
        rounded_req(p2(k), align) == p2(k),
{
    lemma_p2_pos(k - 1);
    lemma_p2_concrete();
    lemma_p2_mono(3, k);
    assert(p2(k - 1) < p2(k));
    lemma_next_p2_self(k);
}

/// `next_p2` is the identity on powers of two.
pub proof fn lemma_next_p2_self(k: int)
    requires
        0 <= k,
    ensures
        next_p2(p2(k)) == p2(k),
{
    lemma_p2_pos(k);
    if k > 0 {
        lemma_p2_pos(k - 1);
        assert(p2(k - 1) < p2(k));
    }
    crate::buddy::lemma_next_p2_char(p2(k), k);
}

/// One fixed-size class of the tiered heap: a free list of equal-size blocks,
/// with incrementally maintained block counters. Blocks enter by growth from
/// the buddy tier and by deallocation, and leave by allocation; the class
/// never returns memory.
pub struct Slab {
    pub block_size: usize,
    pub free: Vec<usize>,
    pub total_blocks: usize,
    pub used_blocks: usize,
}

impl Slab {
    /// Counters and free list agree, and every free block is a nonzero
    /// address aligned to the block size.
    pub open spec fn wf(self) -> bool {
        &&& is_pow2(self.block_size as int)
        &&& 64 <= self.block_size <= 8192
        &&& self.used_blocks + self.free@.len() == self.total_blocks
        &&& forall|i: int|
            0 <= i < self.free@.len() ==> (#[trigger] self.free@[i]) != 0 && (self.free@[i] as int)
                % (self.block_size as int) == 0
    }

    pub open spec fn total_bytes_spec(self) -> int {
        self.total_blocks * self.block_size
    }

    pub open spec fn used_bytes_spec(self) -> int {
        self.used_blocks * self.block_size
    }

    pub fn new(block_size: usize) -> (r: Self)
        requires
            is_pow2(block_size as int),
            64 <= block_size <= 8192,
        ensures
            r.wf(),
            r.block_size == block_size,
            r.total_blocks == 0,
            r.used_blocks == 0,
            r.free@.len() == 0,
    {
        Slab { block_size, free: Vec::new(), total_blocks: 0, used_blocks: 0 }
    }

    pub fn total_blocks(&self) -> (r: usize)
        ensures
            r == self.total_blocks,
    {
        self.total_blocks
    }

    pub fn used_blocks(&self) -> (r: usize)
        ensures
            r == self.used_blocks,
    {
        self.used_blocks
    }

    /// Adds the externally supplied range `[start, start + size)` as
    /// `size / block_size` fresh free blocks.
    pub fn grow(&mut self, start: usize, size: usize)
        requires
            old(self).wf(),
            start != 0,
            (start as int) % (old(self).block_size as int) == 0,
            (size as int) % (old(self).block_size as int) == 0,
            start + size <= usize::MAX,
            old(self).total_bytes_spec() + size <= usize::MAX,
        ensures
            final(self).wf(),
            final(self).block_size == old(self).block_size,
            final(self).used_blocks == old(self).used_blocks,
            final(self).total_blocks == old(self).total_blocks + size as int / (
            old(self).block_size as int),
            final(self).free@.len() == old(self).free@.len() + size as int / (
            old(self).block_size as int),
    {
        let bs = self.block_size;
        let count = size / bs;
        proof {
            vstd::arithmetic::div_mod::lemma_fundamental_div_mod(size as int, bs as int);
            // count * bs == size since bs divides size
            assert(count * bs == size) by (nonlinear_arith)
                requires
                    size as int == (bs as int) * (size as int / bs as int) + (size as int) % (
                    bs as int),
                    (size as int) % (bs as int) == 0,
                    count == size as int / bs as int,
            ;
            // the new total block count stays within the machine bound
            let tb = old(self).total_blocks as int;
            let csize = count as int;
            let bsz = bs as int;
            assert((tb + csize) * bsz == tb * bsz + csize * bsz) by (nonlinear_arith);
            assert(tb + csize <= (tb + csize) * bsz) by (nonlinear_arith)
                requires
                    bsz >= 1,
                    tb + csize >= 0,
            ;
        }
        let mut t: usize = 0;
        while t < count
            invariant
                t <= count,
                count * bs == size,
                bs == self.block_size,
                self.block_size == old(self).block_size,
                is_pow2(self.block_size as int),
                64 <= self.block_size <= 8192,
                forall|i: int|
                    0 <= i < self.free@.len() ==> (#[trigger] self.free@[i]) != 0 && (
                    self.free@[i] as int) % (self.block_size as int) == 0,
                start != 0,
                (start as int) % (bs as int) == 0,
                start + size <= usize::MAX,
                self.used_blocks == old(self).used_blocks,
                self.total_blocks == old(self).total_blocks,
                old(self).used_blocks + old(self).free@.len() == old(self).total_blocks,
                self.free@.len() == old(self).free@.len() + t,
            decreases count - t,
        {
            proof {
                assert(t * bs + bs <= count * bs) by (nonlinear_arith)
                    requires
                        t < count,
                        bs >= 1,
                ;
                assert(t * bs >= 0) by (nonlinear_arith)
                    requires
                        t >= 0,
                        bs >= 1,
                ;
                vstd::arithmetic::mul::lemma_mul_is_commutative(t as int, bs as int);
                vstd::arithmetic::div_mod::lemma_mod_multiples_vanish(
                    t as int,
                    start as int,
                    bs as int,
                );
            }
            let a = start + t * bs;
            self.free.push(a);
            t = t + 1;
        }
        self.total_blocks = self.total_blocks + count;
    }

    /// Pops a free block, growing the class by one chunk from the buddy tier
    /// first when the free list is empty. Fails only when that growth
    /// allocation fails; a class with a free block never fails.
    pub fn allocate(&mut self, buddy: &mut BuddyTier) -> (r: Result<usize, AllocError>)
        requires
            old(self).wf(),
            old(buddy).wf(),
            old(self).total_bytes_spec() + grow_chunk(old(self).block_size as int) <= usize::MAX,
        ensures
            final(self).wf(),
            final(buddy).wf(),
            final(self).block_size == old(self).block_size,
            final(buddy).total == old(buddy).total,
            old(self).free@.len() > 0 ==> r is Ok,
            match r {
                Ok(a) => {
                    &&& a != 0
                    &&& (a as int) % (old(self).block_size as int) == 0
                    &&& final(self).used_blocks == old(self).used_blocks + 1
                    &&& (old(self).free@.len() > 0 || !old(buddy).empty_from(
                        lg(grow_chunk(old(self).block_size as int)),
                    ))
                    &&& final(self).used_bytes_spec() == old(self).used_bytes_spec() + old(
                        self,
                    ).block_size
                    &&& ({
                        let chunk = grow_chunk(old(self).block_size as int);
                        (final(self).total_bytes_spec() == old(self).total_bytes_spec()
                            && *final(buddy) == *old(buddy)) || (final(self).total_bytes_spec()
                            == old(self).total_bytes_spec() + chunk
                            && final(buddy).allocated == old(buddy).allocated + chunk)
                    })
                },
                Err(e) => {
                    &&& e == AllocError::NoMemory
                    &&& *final(self) == *old(self)
                    &&& *final(buddy) == *old(buddy)
                    &&& old(self).free@.len() == 0
                    &&& old(buddy).empty_from(lg(grow_chunk(old(self).block_size as int)))
                },
            },
    {
        let bs = self.block_size;
        if self.free.len() == 0 {
            let chunk = if bs < 4096 {
                4096
            } else {
                bs
            };
            proof {
                let b = lemma_is_pow2_exponent(bs as int);
                lemma_p2_pos(b);
                lemma_p2_concrete();
                if bs < 4096 {
                    lemma_p2_order(b, 12);
                    lemma_rounded_exact(12, bs as int);
                    lemma_p2_divides(b, 12);
                } else {
                    lemma_p2_order(12, b);
                    lemma_rounded_exact(b, bs as int);
                    lemma_p2_divides(b, b);
                }
            }
            let start = match buddy.alloc_block(chunk, bs) {
                Ok(s) => s,
                Err(_) => {
                    proof {
                        lemma_p2_concrete();
                    }
                    return Err(AllocError::NoMemory);
                },
            };
            proof {
                lemma_mod_chain(start as int, chunk as int, bs as int);
            }
            let ghost pre_grow = *self;
            self.grow(start, chunk);
            proof {
                let q = chunk as int / bs as int;
                vstd::arithmetic::div_mod::lemma_fundamental_div_mod(chunk as int, bs as int);
                assert(q * bs == chunk) by (nonlinear_arith)
                    requires
                        chunk as int == (bs as int) * q + (chunk as int) % (bs as int),
                        (chunk as int) % (bs as int) == 0,
                ;
                assert(q >= 1) by (nonlinear_arith)
                    requires
                        q * bs == chunk,
                        1 <= bs <= chunk,
                ;
                assert((pre_grow.total_blocks + q) * bs == pre_grow.total_blocks * bs + q * bs)
                    by (nonlinear_arith);
                assert(self.free@.len() >= 1);
            }
        }
        let a_opt = self.free.pop();
        let a = match a_opt {
            Some(v) => v,
            None => {
                proof {
                    assert(false);
                }
                return Err(AllocError::NoMemory);
            },
        };
        let ghost u0 = self.used_blocks as int;
        self.used_blocks = self.used_blocks + 1;
        proof {
            assert((u0 + 1) * bs == u0 * bs + bs) by (nonlinear_arith);
        }
        Ok(a)
    }

    /// Pushes the block back onto the free list. The address must come from a
    /// prior allocation of this class that has not been freed since.
    pub fn deallocate(&mut self, ptr: usize)
        requires
            old(self).wf(),
            old(self).used_blocks >= 1,
            ptr != 0,
            (ptr as int) % (old(self).block_size as int) == 0,
        ensures
            final(self).wf(),
            final(self).block_size == old(self).block_size,
            final(self).total_blocks == old(self).total_blocks,
            final(self).used_blocks == old(self).used_blocks - 1,
            final(self).used_bytes_spec() == old(self).used_bytes_spec() - old(self).block_size,
            final(self).total_bytes_spec() == old(self).total_bytes_spec(),
    {
        let ghost u0 = self.used_blocks as int;
        let ghost bs = self.block_size as int;
        self.free.push(ptr);
        self.used_blocks = self.used_blocks - 1;
        proof {
            assert((u0 - 1) * bs == u0 * bs - bs) by (nonlinear_arith);
        }
    }
}

} // verus!
