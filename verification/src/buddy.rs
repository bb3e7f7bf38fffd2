use crate::layout::{
    is_pow2, lemma_is_pow2_exponent, lemma_mod_chain, lemma_p2_divides, lemma_p2_mono,
    lemma_p2_pos, p2, AllocError,
};
use vstd::prelude::*;

verus! {

/// Number of block orders: block sizes are the powers of two `p2(0)` up to
/// `p2(ORDER - 1)`.
pub const ORDER: usize = 32;

/// The largest block size the tier manages, `p2(31)` bytes.
pub const MAX_BLOCK: usize = 0x8000_0000;

/// The least power of two that is `>= n` (1 for `n <= 1`).
pub open spec fn next_p2(n: int) -> int
    decreases n,
{
    if n <= 1 {
        1
    } else {
        2 * next_p2((n + 1) / 2)
    }
}

/// What a request for `size` bytes at alignment `align` rounds up to: the
/// least power of two at least `size`, raised to `align` and to the minimum
/// block size of 8 bytes if needed.
pub open spec fn rounded_req(size: int, align: int) -> int {
    let np = next_p2(size);
    let m = if np >= align {
        np
    } else {
        align
    };
    if m >= 8 {
        m
    } else {
        8
    }
}

/// A free block of order `k`: a nonzero address, aligned to the block size,
/// whose whole extent stays inside the address space.
pub open spec fn blk_ok(a: usize, k: int) -> bool {
    a != 0 && (a as int) % p2(k) == 0 && a + p2(k) <= usize::MAX
}

/// Bytes held by the free lists of orders below `n`.
pub open spec fn free_bytes_upto(ls: Seq<Seq<usize>>, n: int) -> int
    decreases n,
{
    if n <= 0 {
        0
    } else {
        free_bytes_upto(ls, n - 1) + ls[n - 1].len() * p2(n - 1)
    }
}

pub proof fn lemma_p2_concrete()
    ensures
        p2(3) == 8,
        p2(12) == 4096,
        p2(30) == 0x4000_0000,
        p2(31) == 0x8000_0000,
{
    assert(p2(3) == 8 && p2(12) == 4096 && p2(30) == 0x4000_0000 && p2(31) == 0x8000_0000) by {
        reveal_with_fuel(p2, 33);
    };
}

/// `p2` reflects the order of its exponents.
pub proof fn lemma_p2_order(j: int, k: int)
    requires
        0 <= j,
        0 <= k,
        p2(j) <= p2(k),
    ensures
        j <= k,
{
    if j > k {
        lemma_p2_mono(k + 1, j);
        lemma_p2_pos(k);
    }
}

pub proof fn lemma_next_p2_ge(n: int)
    ensures
        next_p2(n) >= n,
        next_p2(n) >= 1,
    decreases n,
{
    if n > 1 {
        let m = (n + 1) / 2;
        lemma_next_p2_ge(m);
        assert(2 * m >= n);
    }
}

/// The doubling search characterizes `next_p2`: if `p2(c) >= n` and the
/// previous power (when there is one) is still below `n`, then `p2(c)` is it.
pub proof fn lemma_next_p2_char(n: int, c: int)
    requires
        1 <= n,
        0 <= c,
        p2(c) >= n,
        c > 0 ==> p2(c - 1) < n,
    ensures
        next_p2(n) == p2(c),
    decreases c,
{
    if n == 1 {
        if c > 0 {
            lemma_p2_pos(c - 1);
        }
    } else {
        lemma_p2_pos(c);
        if c == 0 {
        } else {
            let m = (n + 1) / 2;
            assert(1 <= m < n);
            if n % 2 == 1 {
                assert(p2(c) == 2 * p2(c - 1));
                assert(p2(c) != n);
            }
            assert(p2(c) >= 2 * m);
            assert(p2(c - 1) >= m);
            if c - 1 > 0 {
                assert(p2(c - 2) < m);
            }
            lemma_next_p2_char(m, c - 1);
        }
    }
}

/// Free-list byte sums do not change at untouched orders: two stacks of lists
/// that agree everywhere except (possibly) order `k` differ in their byte sum
/// by exactly the length difference at `k`, weighted by the block size.
pub proof fn lemma_free_bytes_agree(ls1: Seq<Seq<usize>>, ls2: Seq<Seq<usize>>, k: int, n: int)
    requires
        forall|m: int| 0 <= m < n && m != k ==> ls1[m] == ls2[m],
    ensures
        free_bytes_upto(ls2, n) == free_bytes_upto(ls1, n) + if 0 <= k < n {
            (ls2[k].len() - ls1[k].len()) * p2(k)
        } else {
            0
        },
    decreases n,
{
    if n > 0 {
        lemma_free_bytes_agree(ls1, ls2, k, n - 1);
        if k == n - 1 {
            assert((ls2[k].len() - ls1[k].len()) * p2(k) == ls2[k].len() * p2(k) - ls1[k].len()
                * p2(k)) by (nonlinear_arith);
        }
    }
}

/// Adding one block at order `k` adds `p2(k)` free bytes.
pub proof fn lemma_free_bytes_push(ls1: Seq<Seq<usize>>, ls2: Seq<Seq<usize>>, k: int)
    requires
        0 <= k < ORDER,
        forall|m: int| 0 <= m < ORDER && m != k ==> ls1[m] == ls2[m],
        ls2[k].len() == ls1[k].len() + 1,
    ensures
        free_bytes_upto(ls2, ORDER as int) == free_bytes_upto(ls1, ORDER as int) + p2(k),
{
    lemma_free_bytes_agree(ls1, ls2, k, ORDER as int);
    assert((ls2[k].len() - ls1[k].len()) * p2(k) == p2(k)) by (nonlinear_arith)
        requires
            ls2[k].len() == ls1[k].len() + 1,
    ;
}

/// Removing one block at order `k` removes `p2(k)` free bytes.
pub proof fn lemma_free_bytes_drop(ls1: Seq<Seq<usize>>, ls2: Seq<Seq<usize>>, k: int)
    requires
        0 <= k < ORDER,
        forall|m: int| 0 <= m < ORDER && m != k ==> ls1[m] == ls2[m],
        ls2[k].len() == ls1[k].len() - 1,
    ensures
        free_bytes_upto(ls2, ORDER as int) == free_bytes_upto(ls1, ORDER as int) - p2(k),
{
    lemma_free_bytes_agree(ls1, ls2, k, ORDER as int);
    assert((ls2[k].len() - ls1[k].len()) * p2(k) == -p2(k)) by (nonlinear_arith)
        requires
            ls2[k].len() == ls1[k].len() - 1,
    ;
}

/// Floor of the base-two logarithm (0 for `n <= 1`).
pub open spec fn lg(n: int) -> int
    decreases n,
{
    if n <= 1 {
        0
    } else {
        1 + lg(n / 2)
    }
}

pub proof fn lemma_lg_p2(k: int)
    requires
        0 <= k,
    ensures
        lg(p2(k)) == k,
    decreases k,
{
    if k > 0 {
        lemma_lg_p2(k - 1);
        lemma_p2_pos(k - 1);
        assert(p2(k) / 2 == p2(k - 1));
    }
}

pub proof fn lemma_free_bytes_nonneg(ls: Seq<Seq<usize>>, n: int)
    ensures
        free_bytes_upto(ls, n) >= 0,
    decreases n,
{
    if n > 0 {
        lemma_free_bytes_nonneg(ls, n - 1);
        lemma_p2_pos(n - 1);
        assert(ls[n - 1].len() * p2(n - 1) >= 0) by (nonlinear_arith)
            requires
                p2(n - 1) >= 1,
        ;
    }
}

pub proof fn lemma_free_bytes_zero(ls: Seq<Seq<usize>>, n: int)
    requires
        forall|m: int| 0 <= m < n ==> ls[m].len() == 0,
    ensures
        free_bytes_upto(ls, n) == 0,
    decreases n,
{
    if n > 0 {
        lemma_free_bytes_zero(ls, n - 1);
    }
}

/// Power-of-two binary-buddy allocator over a raw address range.
///
/// All bookkeeping is plain integer arithmetic on addresses: each order `k`
/// owns a free list of blocks of `p2(k)` bytes, each aligned to its own size.
/// Allocation rounds the request to a power of two, splits a larger block
/// when needed; deallocation re-merges a block with its buddy while the buddy
/// is free. `allocated` counts rounded bytes handed out; `total` counts all
/// bytes ever added, and the difference is exactly what the free lists hold.
pub struct BuddyTier {
    pub free_lists: Vec<Vec<usize>>,
    pub allocated: usize,
    pub total: usize,
}

impl BuddyTier {
    pub open spec fn lists(self) -> Seq<Seq<usize>> {
        self.free_lists@.map_values(|l: Vec<usize>| l@)
    }

    pub open spec fn free_bytes(self) -> int {
        free_bytes_upto(self.lists(), ORDER as int)
    }

    pub open spec fn lists_wf(self) -> bool {
        &&& self.free_lists@.len() == ORDER
        &&& forall|k: int, i: int|
            0 <= k < ORDER && 0 <= i < self.lists()[k].len() ==> blk_ok(
                #[trigger] self.lists()[k][i],
                k,
            )
    }

    pub open spec fn wf(self) -> bool {
        &&& self.lists_wf()
        &&& self.allocated + self.free_bytes() == self.total
    }

    /// All orders at `k` and above hold no block.
    pub open spec fn empty_from(self, k: int) -> bool {
        forall|m: int| k <= m < ORDER ==> self.lists()[m].len() == 0
    }

    pub fn new() -> (r: Self)
        ensures
            r.wf(),
            r.total == 0,
            r.allocated == 0,
            r.empty_from(0),
    {
        let mut free_lists: Vec<Vec<usize>> = Vec::new();
        let mut i: usize = 0;
        while i < ORDER
            invariant
                i <= ORDER,
                free_lists@.len() == i,
                forall|m: int| 0 <= m < i ==> free_lists@[m]@.len() == 0,
            decreases ORDER - i,
        {
            free_lists.push(Vec::new());
            i = i + 1;
        }
        let r = BuddyTier { free_lists, allocated: 0, total: 0 };
        proof {
            lemma_free_bytes_zero(r.lists(), ORDER as int);
        }
        r
    }

    pub fn stats_total_bytes(&self) -> (r: usize)
        ensures
            r == self.total,
    {
        self.total
    }

    pub fn stats_alloc_actual(&self) -> (r: usize)
        ensures
            r == self.allocated,
    {
        self.allocated
    }

    fn len_at(&self, k: usize) -> (n: usize)
        requires
            self.free_lists@.len() == ORDER,
            k < ORDER,
        ensures
            n == self.lists()[k as int].len(),
    {
        let l = &self.free_lists[k];
        l.len()
    }

    fn get_at(&self, k: usize, i: usize) -> (a: usize)
        requires
            self.free_lists@.len() == ORDER,
            k < ORDER,
            i < self.lists()[k as int].len(),
        ensures
            a == self.lists()[k as int][i as int],
    {
        let l = &self.free_lists[k];
        l[i]
    }

    fn push_at(&mut self, k: usize, a: usize)
        requires
            old(self).free_lists@.len() == ORDER,
            k < ORDER,
        ensures
            final(self).free_lists@.len() == ORDER,
            final(self).lists() == old(self).lists().update(
                k as int,
                old(self).lists()[k as int].push(a),
            ),
            final(self).allocated == old(self).allocated,
            final(self).total == old(self).total,
    {
        let l = &mut self.free_lists[k];
        l.push(a);
        proof {
            assert(self.lists() =~~= old(self).lists().update(
                k as int,
                old(self).lists()[k as int].push(a),
            ));
        }
    }

    fn pop_at(&mut self, k: usize) -> (a: usize)
        requires
            old(self).free_lists@.len() == ORDER,
            k < ORDER,
            old(self).lists()[k as int].len() > 0,
        ensures
            final(self).free_lists@.len() == ORDER,
            a == old(self).lists()[k as int].last(),
            final(self).lists() == old(self).lists().update(
                k as int,
                old(self).lists()[k as int].drop_last(),
            ),
            final(self).allocated == old(self).allocated,
            final(self).total == old(self).total,
    {
        let l = &mut self.free_lists[k];
        let a_opt = l.pop();
        let a = match a_opt {
            Some(v) => v,
            None => {
                proof {
                    assert(false);
                }
                0
            },
        };
        proof {
            assert(self.lists() =~~= old(self).lists().update(
                k as int,
                old(self).lists()[k as int].drop_last(),
            ));
        }
        a
    }

    fn remove_at(&mut self, k: usize, i: usize) -> (a: usize)
        requires
            old(self).free_lists@.len() == ORDER,
            k < ORDER,
            i < old(self).lists()[k as int].len(),
        ensures
            final(self).free_lists@.len() == ORDER,
            a == old(self).lists()[k as int][i as int],
            final(self).lists() == old(self).lists().update(
                k as int,
                old(self).lists()[k as int].update(
                    i as int,
                    old(self).lists()[k as int].last(),
                ).drop_last(),
            ),
            final(self).allocated == old(self).allocated,
            final(self).total == old(self).total,
    {
        let l = &mut self.free_lists[k];
        let a = l.swap_remove(i);
        proof {
            assert(self.lists() =~~= old(self).lists().update(
                k as int,
                old(self).lists()[k as int].update(
                    i as int,
                    old(self).lists()[k as int].last(),
                ).drop_last(),
            ));
        }
        a
    }

    fn p2_exec(k: usize) -> (r: usize)
        requires
            k <= 31,
        ensures
            r == p2(k as int),
    {
        proof {
            lemma_p2_concrete();
        }
        let mut r: usize = 1;
        let mut i: usize = 0;
        while i < k
            invariant
                i <= k <= 31,
                r == p2(i as int),
            decreases k - i,
        {
            proof {
                lemma_p2_mono(i as int + 1, 31);
                lemma_p2_concrete();
            }
            r = r * 2;
            i = i + 1;
        }
        r
    }

    /// Rounds a request up as the tier's allocation does: to
    /// `rounded_req(size, align)`, together with the order of that block size.
    /// `None` when the rounded size exceeds the largest managed block.
    pub(crate) fn round_request(size: usize, align: usize) -> (r: Option<(usize, usize)>)
        requires
            size >= 1,
            is_pow2(align as int),
        ensures
            match r {
                Some(rc) => rc.0 == rounded_req(size as int, align as int) && 3 <= rc.1 <= 31
                    && rc.0 == p2(rc.1 as int),
                None => rounded_req(size as int, align as int) > p2(31),
            },
    {
        proof {
            lemma_p2_concrete();
        }
        let ghost align_exp: int = choose|e: int| 0 <= e && align as int == p2(e);
        proof {
            let e = lemma_is_pow2_exponent(align as int);
            assert(0 <= e && align as int == p2(e));
            assert(0 <= align_exp && align as int == p2(align_exp));
        }
        // the least power of two >= size
        let mut p: usize = 1;
        let mut c: usize = 0;
        while p < size && c < 31
            invariant
                c <= 31,
                p == p2(c as int),
                c > 0 ==> p2(c as int - 1) < size,
            decreases 31 - c,
        {
            proof {
                lemma_p2_mono(c as int + 1, 31);
                lemma_p2_concrete();
            }
            p = p * 2;
            c = c + 1;
        }
        if p < size {
            proof {
                lemma_next_p2_ge(size as int);
            }
            return None;
        }
        proof {
            lemma_next_p2_char(size as int, c as int);
        }
        // raise to the alignment; powers of two are hit exactly
        while p < align && c < 31
            invariant
                c <= 31,
                p == p2(c as int),
                p >= next_p2(size as int),
                p > next_p2(size as int) ==> p <= align,
                0 <= align_exp,
                align as int == p2(align_exp),
            decreases 31 - c,
        {
            proof {
                lemma_p2_mono(c as int + 1, 31);
                lemma_p2_concrete();
                lemma_p2_pos(align_exp);
                lemma_p2_order(c as int, align_exp);
                lemma_p2_mono(c as int + 1, align_exp);
            }
            p = p * 2;
            c = c + 1;
        }
        if p < align {
            proof {
                assert(rounded_req(size as int, align as int) >= align);
            }
            return None;
        }
        let ghost m_val: int = if next_p2(size as int) >= align as int {
            next_p2(size as int)
        } else {
            align as int
        };
        proof {
            assert(p == m_val);
        }
        // raise to the minimum block size
        while p < 8
            invariant
                c <= 31,
                1 <= p,
                p == p2(c as int),
                p == m_val || (p > m_val && p <= 8),
            decreases 8 - p,
        {
            proof {
                lemma_p2_concrete();
                assert(p2(2) == 4) by {
                    reveal_with_fuel(p2, 3);
                };
                if c as int >= 3 {
                    lemma_p2_mono(3, c as int);
                } else {
                    lemma_p2_mono(c as int, 2);
                }
            }
            p = p * 2;
            c = c + 1;
        }
        proof {
            lemma_p2_concrete();
            lemma_p2_order(3, c as int);
        }
        Some((p, c))
    }

    /// Serves `size` bytes at alignment `align`. The request is rounded up to
    /// a power-of-two block; a larger free block is split as needed. On
    /// success the address is aligned to the whole rounded block (hence to
    /// `align`) and `allocated` grows by the rounded size. On failure nothing
    /// changes, and failure happens only when the request rounds past the
    /// largest managed block or every order that could serve it is empty.
    pub fn alloc_block(&mut self, size: usize, align: usize) -> (r: Result<usize, AllocError>)
        requires
            old(self).wf(),
            size >= 1,
            is_pow2(align as int),
        ensures
            final(self).wf(),
            final(self).total == old(self).total,
            match r {
                Ok(a) => {
                    &&& rounded_req(size as int, align as int) <= p2(31)
                    &&& final(self).allocated == old(self).allocated + rounded_req(
                        size as int,
                        align as int,
                    )
                    &&& a != 0
                    &&& (a as int) % rounded_req(size as int, align as int) == 0
                    &&& (a as int) % (align as int) == 0
                    &&& a + rounded_req(size as int, align as int) <= usize::MAX
                    &&& !old(self).empty_from(lg(rounded_req(size as int, align as int)))
                },
                Err(e) => {
                    &&& e == AllocError::NoMemory
                    &&& *final(self) == *old(self)
                    &&& (rounded_req(size as int, align as int) > p2(31) || old(self).empty_from(
                        lg(rounded_req(size as int, align as int)),
                    ))
                },
            },
    {
        let rc = Self::round_request(size, align);
        let (rounded, class) = match rc {
            Some(pair) => pair,
            None => {
                return Err(AllocError::NoMemory);
            },
        };
        proof {
            lemma_lg_p2(class as int);
            lemma_p2_mono(class as int, 31);
        }
        let mut i: usize = class;
        while i < ORDER && self.len_at(i) == 0
            invariant
                class <= i <= ORDER,
                *self == *old(self),
                self.wf(),
                forall|m: int| class <= m < i ==> self.lists()[m].len() == 0,
            decreases ORDER - i,
        {
            i = i + 1;
        }
        if i == ORDER {
            return Err(AllocError::NoMemory);
        }
        proof {
            // the found order refutes emptiness at and above the needed class
            assert(old(self).lists()[i as int].len() > 0);
            assert(!old(self).empty_from(class as int));
        }
        // a block of order `i` exists: take it and split down to `class`
        let ghost ls0 = self.lists();
        let addr0 = self.pop_at(i);
        proof {
            assert(ls0[i as int][ls0[i as int].len() - 1] == addr0);
            assert(blk_ok(addr0, i as int));
            lemma_free_bytes_drop(ls0, self.lists(), i as int);
            assert forall|k2: int, i2: int|
                0 <= k2 < ORDER && 0 <= i2 < self.lists()[k2].len() implies blk_ok(
                #[trigger] self.lists()[k2][i2],
                k2,
            ) by {
                assert(blk_ok(ls0[k2][i2], k2));
            }
        }
        let mut j: usize = i;
        let mut bsize: usize = Self::p2_exec(i);
        let mut addr: usize = addr0;
        while j > class
            invariant
                class <= j <= i < ORDER,
                bsize == p2(j as int),
                addr != 0,
                (addr as int) % p2(j as int) == 0,
                addr + p2(j as int) <= usize::MAX,
                self.free_lists@.len() == ORDER,
                self.lists_wf(),
                self.allocated == old(self).allocated,
                self.total == old(self).total,
                self.allocated + self.free_bytes() + p2(j as int) == self.total,
            decreases j,
        {
            proof {
                lemma_p2_pos(j as int - 1);
                lemma_p2_divides(j as int - 1, j as int);
                lemma_mod_chain(addr as int, p2(j as int), p2(j as int - 1));
                vstd::arithmetic::div_mod::lemma_mod_add_multiples_vanish(
                    addr as int,
                    p2(j as int - 1),
                );
            }
            j = j - 1;
            let half = bsize / 2;
            let upper = addr + half;
            let ghost lsp = self.lists();
            self.push_at(j, upper);
            bsize = half;
            proof {
                lemma_free_bytes_push(lsp, self.lists(), j as int);
                assert forall|k2: int, i2: int|
                    0 <= k2 < ORDER && 0 <= i2 < self.lists()[k2].len() implies blk_ok(
                    #[trigger] self.lists()[k2][i2],
                    k2,
                ) by {
                    if k2 == j as int && i2 == lsp[k2].len() {
                        assert(self.lists()[k2][i2] == upper);
                    } else {
                        assert(self.lists()[k2][i2] == lsp[k2][i2]);
                        assert(blk_ok(lsp[k2][i2], k2));
                    }
                }
            }
        }
        proof {
            lemma_free_bytes_nonneg(self.lists(), ORDER as int);
            let e = lemma_is_pow2_exponent(align as int);
            lemma_p2_order(e, class as int);
            lemma_p2_divides(e, class as int);
            lemma_p2_pos(e);
            lemma_p2_pos(class as int);
            lemma_mod_chain(addr as int, p2(class as int), align as int);
        }
        self.allocated = self.allocated + rounded;
        Ok(addr)
    }

    /// Returns the block at `addr` (a prior successful allocation of the same
    /// `size` and `align`) to the free lists, merging it with its buddy while
    /// the buddy is also free. `allocated` shrinks by the rounded size.
    pub fn dealloc_block(&mut self, addr: usize, size: usize, align: usize)
        requires
            old(self).wf(),
            size >= 1,
            is_pow2(align as int),
            rounded_req(size as int, align as int) <= p2(31),
            addr != 0,
            (addr as int) % rounded_req(size as int, align as int) == 0,
            addr + rounded_req(size as int, align as int) <= usize::MAX,
            old(self).allocated >= rounded_req(size as int, align as int),
        ensures
            final(self).wf(),
            final(self).total == old(self).total,
            final(self).allocated == old(self).allocated - rounded_req(size as int, align as int),
    {
        let rc = Self::round_request(size, align);
        let (rounded, class) = match rc {
            Some(pair) => pair,
            None => {
                proof {
                    assert(false);
                }
                return ;
            },
        };
        let mut cur: usize = addr;
        let mut k: usize = class;
        let mut bsize: usize = rounded;
        let mut merging: bool = true;
        while k < 31 && merging
            invariant
                class <= k <= 31,
                bsize == p2(k as int),
                cur != 0,
                (cur as int) % p2(k as int) == 0,
                cur + p2(k as int) <= usize::MAX,
                self.free_lists@.len() == ORDER,
                self.lists_wf(),
                self.allocated == old(self).allocated,
                self.total == old(self).total,
                self.free_bytes() == old(self).free_bytes() - (p2(k as int) - p2(class as int)),
            decreases 31 - k + (if merging {
                1int
            } else {
                0
            }),
        {
            proof {
                lemma_p2_concrete();
                lemma_p2_mono(k as int + 1, 31);
                lemma_p2_pos(k as int);
                assert(p2(k as int + 1) == 2 * p2(k as int));
                vstd::arithmetic::div_mod::lemma_breakdown(cur as int, p2(k as int), 2);
                assert((cur as int) % (p2(k as int) * 2) == p2(k as int) * (((cur as int) / p2(
                    k as int,
                )) % 2));
                vstd::arithmetic::div_mod::lemma_mod_bound((cur as int) / p2(k as int), 2);
            }
            let msize = bsize * 2;
            let even = cur % msize == 0;
            proof {
                assert(msize == p2(k as int + 1));
                if !even {
                    assert((cur as int) % p2(k as int + 1) == p2(k as int)) by {
                        let b = ((cur as int) / p2(k as int)) % 2;
                        assert(0 <= b < 2);
                        assert((cur as int) % p2(k as int + 1) == p2(k as int) * b);
                        if b == 0 {
                            assert(p2(k as int) * b == 0) by (nonlinear_arith)
                                requires
                                    b == 0,
                            ;
                        } else {
                            assert(p2(k as int) * b == p2(k as int)) by (nonlinear_arith)
                                requires
                                    b == 1,
                            ;
                        }
                    };
                    vstd::arithmetic::div_mod::lemma_fundamental_div_mod(
                        cur as int,
                        p2(k as int + 1),
                    );
                }
            }
            let buddy_addr = if even {
                cur + bsize
            } else {
                cur - bsize
            };
            // scan order k for the buddy block
            let n = self.len_at(k);
            let mut m: usize = 0;
            let mut fidx: usize = n;
            while m < n
                invariant
                    m <= n,
                    fidx <= n,
                    k < ORDER,
                    self.free_lists@.len() == ORDER,
                    n == self.lists()[k as int].len(),
                    fidx < n ==> self.lists()[k as int][fidx as int] == buddy_addr,
                decreases n - m,
            {
                if fidx == n && self.get_at(k, m) == buddy_addr {
                    fidx = m;
                }
                m = m + 1;
            }
            if fidx < n {
                let ghost lsp = self.lists();
                let got = self.remove_at(k, fidx);
                proof {
                    assert(blk_ok(lsp[k as int][fidx as int], k as int));
                    assert(blk_ok(lsp[k as int][lsp[k as int].len() - 1], k as int));
                    lemma_free_bytes_drop(lsp, self.lists(), k as int);
                    assert forall|k2: int, i2: int|
                        0 <= k2 < ORDER && 0 <= i2 < self.lists()[k2].len() implies blk_ok(
                        #[trigger] self.lists()[k2][i2],
                        k2,
                    ) by {
                        if k2 == k as int {
                            assert(blk_ok(lsp[k2][i2], k2));
                            assert(blk_ok(lsp[k2][lsp[k2].len() - 1], k2));
                        } else {
                            assert(blk_ok(lsp[k2][i2], k2));
                        }
                    }
                }
                let merged = if cur < buddy_addr {
                    cur
                } else {
                    buddy_addr
                };
                proof {
                    if even {
                        assert(merged == cur);
                        assert((merged as int) % p2(k as int + 1) == 0);
                    } else {
                        let q = (cur as int) / p2(k as int + 1);
                        assert(cur as int - p2(k as int) == p2(k as int + 1) * q);
                        vstd::arithmetic::div_mod::lemma_mod_multiples_basic(q, p2(k as int + 1));
                        assert((q * p2(k as int + 1)) % p2(k as int + 1) == 0);
                        vstd::arithmetic::mul::lemma_mul_is_commutative(q, p2(k as int + 1));
                        assert(merged == buddy_addr);
                        assert((merged as int) == cur as int - p2(k as int));
                        assert((merged as int) == q * p2(k as int + 1));
                        assert((merged as int) % p2(k as int + 1) == 0);
                    }
                }
                cur = merged;
                bsize = msize;
                k = k + 1;
            } else {
                merging = false;
            }
        }
        let ghost lsp = self.lists();
        self.push_at(k, cur);
        proof {
            lemma_free_bytes_push(lsp, self.lists(), k as int);
            assert forall|k2: int, i2: int|
                0 <= k2 < ORDER && 0 <= i2 < self.lists()[k2].len() implies blk_ok(
                #[trigger] self.lists()[k2][i2],
                k2,
            ) by {
                if k2 == k as int && i2 == lsp[k2].len() {
                    assert(self.lists()[k2][i2] == cur);
                } else {
                    assert(self.lists()[k2][i2] == lsp[k2][i2]);
                    assert(blk_ok(lsp[k2][i2], k2));
                }
            }
        }
        self.allocated = self.allocated - rounded;
    }

    /// Adds the range `[start, end)` to the tier's free lists, carved into
    /// power-of-two blocks each aligned to its own size, exactly as large as
    /// the position and the remaining range allow. `total` grows by the whole
    /// range length. A page-aligned range of at least one page always leaves
    /// a free block of page order or larger behind.
    pub fn add_to_heap(&mut self, start: usize, end: usize)
        requires
            old(self).wf(),
            start % 8 == 0,
            end % 8 == 0,
            0 < start <= end,
            old(self).total + (end - start) <= usize::MAX,
        ensures
            final(self).wf(),
            final(self).allocated == old(self).allocated,
            final(self).total == old(self).total + (end - start),
            (start % 4096 == 0 && end - start >= 4096) ==> !final(self).empty_from(12),
    {
        let mut current: usize = start;
        while current < end
            invariant
                start <= current <= end,
                current % 8 == 0,
                end % 8 == 0,
                current > 0,
                self.free_lists@.len() == ORDER,
                self.lists_wf(),
                self.allocated == old(self).allocated,
                self.allocated + self.free_bytes() == self.total,
                self.total == old(self).total + (current - start),
                old(self).total + (end - start) <= usize::MAX,
                (start % 4096 == 0 && end - start >= 4096 && current > start) ==> !self.empty_from(
                    12,
                ),
            decreases end - current,
        {
            proof {
                lemma_p2_concrete();
                // the remaining gap is a positive multiple of 8
                let a = (end as int) / 8;
                let b = (current as int) / 8;
                vstd::arithmetic::div_mod::lemma_fundamental_div_mod(end as int, 8);
                vstd::arithmetic::div_mod::lemma_fundamental_div_mod(current as int, 8);
                assert(end - current == 8 * (a - b));
                assert(a - b >= 1);
            }
            // largest power of two dividing `current`, capped at the top order
            let mut low: usize = 8;
            let mut lk: usize = 3;
            while lk < 31 && current % (low * 2) == 0
                invariant
                    3 <= lk <= 31,
                    low == p2(lk as int),
                    8 <= low <= MAX_BLOCK,
                    lk < 31 ==> low <= 0x4000_0000,
                    (current as int) % p2(lk as int) == 0,
                decreases 31 - lk,
            {
                proof {
                    lemma_p2_mono(lk as int + 1, 31);
                    if lk as int + 1 < 31 {
                        lemma_p2_mono(lk as int + 1, 30);
                    }
                    lemma_p2_concrete();
                }
                low = low * 2;
                lk = lk + 1;
            }
            // largest power of two that fits in the remaining gap, capped
            let gap = end - current;
            let mut gsize: usize = 8;
            let mut gk: usize = 3;
            while gk < 31 && gsize * 2 <= gap
                invariant
                    3 <= gk <= 31,
                    gsize == p2(gk as int),
                    8 <= gsize <= gap,
                    gk < 31 ==> gsize <= 0x4000_0000,
                    gap == end - current,
                decreases 31 - gk,
            {
                proof {
                    lemma_p2_mono(gk as int + 1, 31);
                    if gk as int + 1 < 31 {
                        lemma_p2_mono(gk as int + 1, 30);
                    }
                    lemma_p2_concrete();
                }
                gsize = gsize * 2;
                gk = gk + 1;
            }
            let (bsize, bk) = if low <= gsize {
                (low, lk)
            } else {
                (gsize, gk)
            };
            proof {
                lemma_p2_pos(bk as int);
                lemma_p2_pos(lk as int);
                if bk != lk {
                    lemma_p2_order(bk as int, lk as int);
                    lemma_p2_divides(bk as int, lk as int);
                    lemma_mod_chain(current as int, p2(lk as int), p2(bk as int));
                }
                // the very first block carved from a page-aligned range of at
                // least a page has page order or larger
                if current == start && start % 4096 == 0 && end - start >= 4096 {
                    lemma_p2_concrete();
                    if low < 4096 {
                        lemma_p2_order(lk as int, 12);
                        lemma_p2_mono(lk as int + 1, 12);
                        lemma_p2_divides(lk as int + 1, 12);
                        lemma_p2_pos(lk as int + 1);
                        lemma_mod_chain(current as int, 4096, p2(lk as int + 1));
                        assert(low * 2 == p2(lk as int + 1));
                        assert(false);
                    }
                    if gsize < 4096 {
                        lemma_p2_order(gk as int, 12);
                        lemma_p2_mono(gk as int + 1, 12);
                        assert(gsize * 2 == p2(gk as int + 1));
                        assert(false);
                    }
                    assert(bsize >= 4096);
                    lemma_p2_order(12, bk as int);
                }
            }
            let ghost lsp = self.lists();
            self.push_at(bk, current);
            proof {
                lemma_free_bytes_push(lsp, self.lists(), bk as int);
                assert forall|k2: int, i2: int|
                    0 <= k2 < ORDER && 0 <= i2 < self.lists()[k2].len() implies blk_ok(
                    #[trigger] self.lists()[k2][i2],
                    k2,
                ) by {
                    if k2 == bk as int && i2 == lsp[k2].len() {
                        assert(self.lists()[k2][i2] == current);
                    } else {
                        assert(self.lists()[k2][i2] == lsp[k2][i2]);
                        assert(blk_ok(lsp[k2][i2], k2));
                    }
                }
            }
            self.total = self.total + bsize;
            proof {
                // a page-order block, once present, stays present
                if start % 4096 == 0 && end - start >= 4096 {
                    if current == start {
                        assert(self.lists()[bk as int].len() > 0);
                        assert(!self.empty_from(12));
                    } else {
                        assert(exists|m: int| 12 <= m < 32 && lsp[m].len() > 0);
                        let m = choose|m: int| 12 <= m < 32 && lsp[m].len() > 0;
                        assert(self.lists()[m].len() > 0);
                        assert(!self.empty_from(12));
                    }
                }
                // the next cursor stays a multiple of 8
                lemma_p2_divides(3, bk as int);
                lemma_p2_concrete();
                let qc = (current as int) / 8;
                let qb = p2(bk as int) / 8;
                vstd::arithmetic::div_mod::lemma_fundamental_div_mod(current as int, 8);
                vstd::arithmetic::div_mod::lemma_fundamental_div_mod(p2(bk as int), 8);
                assert(current + p2(bk as int) == 8 * (qc + qb));
                vstd::arithmetic::div_mod::lemma_mod_multiples_basic(qc + qb, 8);
            }
            current = current + bsize;
        }
    }
}

} // verus!
