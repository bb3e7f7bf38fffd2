use vstd::prelude::*;

verus! {

/// Powers of two, as a recursive halving test.
pub open spec fn is_pow2(n: int) -> bool
    decreases n,
{
    if n <= 0 {
        false
    } else if n == 1 {
        true
    } else {
        n % 2 == 0 && is_pow2(n / 2)
    }
}

/// The `k`-th power of two (1 for `k <= 0`).
pub open spec fn p2(k: int) -> int
    decreases k,
{
    if k <= 0 {
        1
    } else {
        2 * p2(k - 1)
    }
}

pub proof fn lemma_p2_pos(k: int)
    ensures
        p2(k) >= 1,
    decreases k,
{
    if k > 0 {
        lemma_p2_pos(k - 1);
    }
}

pub proof fn lemma_p2_mono(j: int, k: int)
    requires
        j <= k,
    ensures
        p2(j) <= p2(k),
    decreases k - j,
{
    if j < k {
        lemma_p2_mono(j, k - 1);
        lemma_p2_pos(k - 1);
    }
}

/// A smaller power of two divides a larger one.
pub proof fn lemma_p2_divides(j: int, k: int)
    requires
        0 <= j <= k,
    ensures
        p2(k) % p2(j) == 0,
    decreases k,
{
    lemma_p2_pos(j);
    if j == k {
        vstd::arithmetic::div_mod::lemma_mod_self_0(p2(j));
    } else {
        lemma_p2_divides(j, k - 1);
        let q = p2(k - 1) / p2(j);
        vstd::arithmetic::div_mod::lemma_fundamental_div_mod(p2(k - 1), p2(j));
        assert(p2(k) == (2 * q) * p2(j)) by (nonlinear_arith)
            requires
                p2(k) == 2 * p2(k - 1),
                p2(k - 1) == q * p2(j),
        ;
        vstd::arithmetic::div_mod::lemma_mod_multiples_basic(2 * q, p2(j));
    }
}

/// Divisibility chains through a middle divisor.
pub proof fn lemma_mod_chain(a: int, b: int, c: int)
    requires
        b >= 1,
        c >= 1,
        a % b == 0,
        b % c == 0,
    ensures
        a % c == 0,
{
    let q = a / b;
    let t = b / c;
    vstd::arithmetic::div_mod::lemma_fundamental_div_mod(a, b);
    vstd::arithmetic::div_mod::lemma_fundamental_div_mod(b, c);
    assert(a == (q * t) * c) by (nonlinear_arith)
        requires
            a == q * b,
            b == t * c,
    ;
    vstd::arithmetic::div_mod::lemma_mod_multiples_basic(q * t, c);
}

/// Every power of two in the `is_pow2` sense is `p2` of some exponent.
pub proof fn lemma_is_pow2_exponent(n: int) -> (k: int)
    requires
        is_pow2(n),
    ensures
        0 <= k,
        n == p2(k),
    decreases n,
{
    if n == 1 {
        0
    } else {
        let j = lemma_is_pow2_exponent(n / 2);
        j + 1
    }
}

/// `pos` rounded up to the next multiple of `align` (for `align >= 1`).
pub open spec fn align_up(pos: int, align: int) -> int {
    if pos % align == 0 {
        pos
    } else {
        pos + (align - pos % align)
    }
}

pub proof fn lemma_align_up(pos: int, align: int)
    requires
        align >= 1,
        pos >= 0,
    ensures
        align_up(pos, align) % align == 0,
        pos <= align_up(pos, align) < pos + align,
{
    let r = pos % align;
    vstd::arithmetic::div_mod::lemma_fundamental_div_mod(pos, align);
    if r != 0 {
        let q = pos / align;
        assert(pos + (align - r) == (q + 1) * align) by (nonlinear_arith)
            requires
                pos == align * q + r,
        ;
        vstd::arithmetic::div_mod::lemma_mod_multiples_basic(q + 1, align);
    }
}

/// An allocation request: a byte count and a power-of-two alignment.
#[derive(Clone, Copy, PartialEq, Eq, Structural, Debug)]
pub struct Layout {
    pub size: usize,
    pub align: usize,
}

impl Layout {
    /// A layout is well formed when its alignment is a power of two.
    pub open spec fn wf(self) -> bool {
        is_pow2(self.align as int)
    }

    pub fn new(size: usize, align: usize) -> (r: Self)
        requires
            is_pow2(align as int),
        ensures
            r == (Layout { size, align }),
            r.wf(),
    {
        Layout { size, align }
    }

    pub fn size(&self) -> (r: usize)
        ensures
            r == self.size,
    {
        self.size
    }

    pub fn align(&self) -> (r: usize)
        ensures
            r == self.align,
    {
        self.align
    }
}

/// Recoverable exhaustion: the request cannot be served from current capacity.
#[derive(Clone, Copy, PartialEq, Eq, Structural, Debug)]
pub enum AllocError {
    NoMemory,
}

} // verus!
