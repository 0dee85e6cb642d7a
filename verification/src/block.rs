//! One contiguous physical extent with two oppositely growing cursors.

use vstd::prelude::*;

verus! {

use vstd::arithmetic::div_mod::lemma_fundamental_div_mod;
use vstd::arithmetic::div_mod::lemma_mod_bound;
use vstd::arithmetic::div_mod::lemma_mod_multiples_basic;
use vstd::arithmetic::mul::lemma_mul_inequality;
use vstd::arithmetic::mul::lemma_mul_is_commutative;
use vstd::arithmetic::mul::lemma_mul_is_distributive_add_other_way;

/// Bookkeeping for one contiguous physical memory range donated to the
/// allocator. Byte allocations consume its low end (`b_used` grows),
/// page allocations consume its high end (`p_used` grows, in pages of
/// `PAGE_SIZE` bytes); neither cursor ever retreats and they never cross.
#[derive(Clone, Copy)]
pub struct Block<const PAGE_SIZE: usize> {
    pub start: usize,
    pub size: usize,
    pub b_used: usize,
    pub p_used: usize,
}

/// Bytes needed above `addr` to reach the next multiple of `align`.
pub open spec fn pad_to(addr: int, align: int) -> int {
    if addr % align == 0 {
        0
    } else {
        align - addr % align
    }
}

/// The least `q` with `q * d >= x` (for `x >= 0`, `d >= 1`).
pub open spec fn div_round_up(x: int, d: int) -> int {
    x / d + if x % d == 0 {
        0int
    } else {
        1int
    }
}

impl<const PAGE_SIZE: usize> Block<PAGE_SIZE> {
    /// Well-formedness: the two cursors never cross, and the range's end
    /// address fits the address space.
    pub open spec fn inv(self) -> bool {
        &&& 1 <= PAGE_SIZE
        &&& self.b_used + self.p_used * PAGE_SIZE <= self.size
        &&& self.start + self.size <= usize::MAX
    }

    /// The byte cursor: first address not yet consumed from the low end.
    pub open spec fn low(self) -> int {
        self.start + self.b_used
    }

    /// The page cursor: lowest address consumed from the high end.
    pub open spec fn top(self) -> int {
        self.start + self.size - self.p_used * PAGE_SIZE
    }

    /// Bytes of the free area between the two cursors.
    pub open spec fn avail_bytes(self) -> int {
        self.size - self.b_used - self.p_used * PAGE_SIZE
    }

    /// Padding a byte allocation at the current cursor needs for `align`.
    pub open spec fn pad(self, align: int) -> int {
        pad_to(self.low(), align)
    }

    /// A byte allocation of `size` aligned to `align` fits the free area.
    pub open spec fn can_alloc_bytes(self, size: int, align: int) -> bool {
        self.pad(align) + size <= self.avail_bytes()
    }

    /// Bytes wasted below a `count`-page reservation so that its base is a
    /// multiple of `align`.
    pub open spec fn page_waste(self, count: int, align: int) -> int {
        (self.top() - count * PAGE_SIZE) % align
    }

    /// Pages a `count`-page request reserves, alignment waste included.
    pub open spec fn pages_needed(self, count: int, align: int) -> int {
        count + div_round_up(self.page_waste(count, align), PAGE_SIZE as int)
    }

    /// A page allocation of `count` pages aligned to `align` fits the free
    /// area.
    pub open spec fn can_alloc_pages(self, count: int, align: int) -> bool {
        self.pages_needed(count, align) * PAGE_SIZE <= self.avail_bytes()
    }

    pub fn new(start: usize, size: usize) -> (r: Self)
        requires
            1 <= PAGE_SIZE,
            start + size <= usize::MAX,
        ensures
            r == (Block::<PAGE_SIZE> { start, size, b_used: 0, p_used: 0 }),
            r.inv(),
    {
        Self { start, size, b_used: 0, p_used: 0 }
    }

    pub fn available_bytes(&self) -> (r: usize)
        requires
            self.inv(),
        ensures
            r == self.avail_bytes(),
    {
        self.size - self.b_used - self.p_used * PAGE_SIZE
    }

    pub fn available_pages(&self) -> (r: usize)
        requires
            self.inv(),
        ensures
            r == self.avail_bytes() / (PAGE_SIZE as int),
    {
        self.available_bytes() / PAGE_SIZE
    }

    /// Whether a byte allocation of `size` aligned to `align` fits.
    pub fn fits_bytes(&self, size: usize, align: usize) -> (r: bool)
        requires
            self.inv(),
            1 <= align,
        ensures
            r == self.can_alloc_bytes(size as int, align as int),
    {
        let avail = self.available_bytes();
        let low = self.start + self.b_used;
        let rem = low % align;
        let pad: usize = if rem == 0 {
            0
        } else {
            align - rem
        };
        size <= avail && pad <= avail - size
    }

    /// Whether a page allocation of `count` pages aligned to `align` fits.
    pub fn fits_pages(&self, count: usize, align: usize) -> (r: bool)
        requires
            self.inv(),
            1 <= align,
        ensures
            r == self.can_alloc_pages(count as int, align as int),
    {
        let ghost ps = PAGE_SIZE as int;
        let ghost wg = self.page_waste(count as int, align as int);
        proof {
            lemma_mod_bound(self.top() - count as int * ps, align as int);
            lemma_div_round_up(wg, ps);
            lemma_mul_le_div(count as int, self.avail_bytes(), ps);
        }
        let avail = self.available_bytes();
        if count > avail / PAGE_SIZE {
            proof {
                lemma_mul_inequality(
                    count as int,
                    self.pages_needed(count as int, align as int),
                    ps,
                );
            }
            return false;
        }
        let cps = count * PAGE_SIZE;
        let top = self.start + self.size - self.p_used * PAGE_SIZE;
        let x = top - cps;
        let w = x % align;
        let extra = w / PAGE_SIZE + if w % PAGE_SIZE == 0 {
            0
        } else {
            1
        };
        proof {
            vstd::arithmetic::div_mod::lemma_div_nonincreasing(w as int, ps);
            lemma_mul_le_div(extra as int, self.avail_bytes() - count as int * ps, ps);
            lemma_mul_is_distributive_add_other_way(ps, count as int, extra as int);
        }
        extra <= (avail - cps) / PAGE_SIZE
    }

    /// Reserve `count` pages from the top of the free area, wasting as many
    /// further pages as the requested alignment forces, and return the base
    /// address of the `count`-page range.
    pub fn alloc_pages(&mut self, count: usize, align: usize) -> (r: usize)
        requires
            old(self).inv(),
            1 <= align,
            old(self).can_alloc_pages(count as int, align as int),
        ensures
            final(self).inv(),
            page_alloc_step(*old(self), *final(self), count as int, align as int, r as int),
            r as int % (align as int) == 0,
            old(self).low() <= r,
            r + count * PAGE_SIZE as int <= old(self).top(),
            final(self).top() <= r,
            final(self).low() == old(self).low(),
    {
        let ghost pre = *old(self);
        let ghost ps = PAGE_SIZE as int;
        let ghost wg = pre.page_waste(count as int, align as int);
        let ghost extrag = div_round_up(wg, ps);
        proof {
            lemma_mod_bound(pre.top() - count as int * ps, align as int);
            lemma_div_round_up(wg, ps);
            lemma_mul_is_distributive_add_other_way(ps, count as int, extrag);
        }
        let cps = count * PAGE_SIZE;
        let top = self.start + self.size - self.p_used * PAGE_SIZE;
        let x = top - cps;
        let w = x % align;
        let extra = w / PAGE_SIZE + if w % PAGE_SIZE == 0 {
            0
        } else {
            1
        };
        let base = x - w;
        proof {
            lemma_fundamental_div_mod(x as int, align as int);
            lemma_mul_is_commutative(align as int, x as int / align as int);
            lemma_mod_multiples_basic(x as int / align as int, align as int);
            lemma_mul_is_distributive_add_other_way(ps, pre.p_used + count as int, extrag);
            lemma_mul_is_distributive_add_other_way(ps, pre.p_used as int, count as int);
            lemma_mul_inequality(1, ps, pre.p_used + count as int + extrag);
            lemma_mul_is_commutative(ps, pre.p_used + count as int + extrag);
        }
        self.p_used = self.p_used + count + extra;
        base
    }

    /// Advance the byte cursor past `size` bytes (plus alignment padding)
    /// and return the lowest address of the new allocation.
    pub fn alloc_bytes(&mut self, size: usize, align: usize) -> (r: usize)
        requires
            old(self).inv(),
            1 <= align,
            old(self).can_alloc_bytes(size as int, align as int),
        ensures
            final(self).inv(),
            byte_alloc_step(*old(self), *final(self), size as int, align as int, r as int),
            r as int % (align as int) == 0,
            old(self).low() <= r,
            r + size <= final(self).low() <= final(self).top() == old(self).top(),
    {
        proof {
            lemma_pad_to(old(self).low(), align as int);
        }
        let low = self.start + self.b_used;
        let rem = low % align;
        let pad: usize = if rem == 0 {
            0
        } else {
            align - rem
        };
        let ptr = low + pad;
        self.b_used = self.b_used + pad + size;
        ptr
    }
}

/// How one byte allocation moves a block: only the byte cursor advances,
/// by the alignment padding plus the requested size, and the returned
/// address is the old cursor plus the padding.
pub open spec fn byte_alloc_step<const PAGE_SIZE: usize>(
    pre: Block<PAGE_SIZE>,
    post: Block<PAGE_SIZE>,
    size: int,
    align: int,
    addr: int,
) -> bool {
    &&& post.start == pre.start
    &&& post.size == pre.size
    &&& post.p_used == pre.p_used
    &&& post.b_used == pre.b_used + pre.pad(align) + size
    &&& addr == pre.low() + pre.pad(align)
}

/// How one page allocation moves a block: only the page cursor advances,
/// by the requested count plus the pages holding the alignment waste, and
/// the returned base lies that waste below the old page cursor minus the
/// requested range.
pub open spec fn page_alloc_step<const PAGE_SIZE: usize>(
    pre: Block<PAGE_SIZE>,
    post: Block<PAGE_SIZE>,
    count: int,
    align: int,
    addr: int,
) -> bool {
    &&& post.start == pre.start
    &&& post.size == pre.size
    &&& post.b_used == pre.b_used
    &&& post.p_used == pre.p_used + pre.pages_needed(count, align)
    &&& addr == pre.top() - count * PAGE_SIZE - pre.page_waste(count, align)
}

/// What every byte-allocation step guarantees: the returned range starts at
/// or after the old byte cursor, ends at or before the new one, and the page
/// side is untouched.
pub proof fn lemma_byte_step_bounds<const PAGE_SIZE: usize>(
    pre: Block<PAGE_SIZE>,
    post: Block<PAGE_SIZE>,
    size: int,
    align: int,
    addr: int,
)
    requires
        pre.inv(),
        1 <= align,
        0 <= size,
        pre.can_alloc_bytes(size, align),
        byte_alloc_step(pre, post, size, align, addr),
    ensures
        pre.low() <= addr,
        addr + size <= post.low(),
        post.low() <= post.top(),
        post.top() == pre.top(),
        post.inv(),
{
    lemma_pad_to(pre.low(), align);
}

/// What every page-allocation step guarantees: the returned range lies
/// between the byte cursor and the old page cursor, the new page cursor
/// lies at or below the returned base, and the byte side is untouched.
pub proof fn lemma_page_step_bounds<const PAGE_SIZE: usize>(
    pre: Block<PAGE_SIZE>,
    post: Block<PAGE_SIZE>,
    count: int,
    align: int,
    addr: int,
)
    requires
        pre.inv(),
        1 <= align,
        0 <= count,
        pre.can_alloc_pages(count, align),
        page_alloc_step(pre, post, count, align, addr),
    ensures
        pre.low() <= addr,
        addr + count * PAGE_SIZE <= pre.top(),
        post.top() <= addr,
        post.low() == pre.low(),
        post.inv(),
{
    let ps = PAGE_SIZE as int;
    let w = pre.page_waste(count, align);
    let extra = div_round_up(w, ps);
    lemma_mod_bound(pre.top() - count * ps, align);
    lemma_div_round_up(w, ps);
    lemma_mul_is_distributive_add_other_way(ps, count, extra);
    lemma_mul_is_distributive_add_other_way(ps, pre.p_used as int, count + extra);
}

/// `div_round_up` rounds up: its result covers `x` and overshoots by less
/// than `d`.
pub proof fn lemma_div_round_up(x: int, d: int)
    requires
        0 <= x,
        1 <= d,
    ensures
        0 <= div_round_up(x, d),
        x <= div_round_up(x, d) * d < x + d,
{
    lemma_fundamental_div_mod(x, d);
    lemma_mod_bound(x, d);
    vstd::arithmetic::div_mod::lemma_div_pos_is_pos(x, d);
    if x % d == 0 {
        lemma_mul_is_commutative(d, x / d);
    } else {
        lemma_mul_is_distributive_add_other_way(d, x / d, 1);
        lemma_mul_is_commutative(d, x / d);
    }
}

/// Scaling by a positive `d` and flooring by `d` are adjoint:
/// `a * d <= m` exactly when `a <= m / d`.
pub proof fn lemma_mul_le_div(a: int, m: int, d: int)
    requires
        0 <= a,
        0 <= m,
        1 <= d,
    ensures
        (a * d <= m) <==> (a <= m / d),
{
    lemma_fundamental_div_mod(m, d);
    lemma_mod_bound(m, d);
    if a * d <= m {
        vstd::arithmetic::div_mod::lemma_div_is_ordered(a * d, m, d);
        vstd::arithmetic::div_mod::lemma_div_by_multiple(a, d);
    }
    if a <= m / d {
        lemma_mul_inequality(a, m / d, d);
        lemma_mul_is_commutative(m / d, d);
    }
}

/// The padding to `align` is small and lands on a multiple of `align`.
pub proof fn lemma_pad_to(addr: int, align: int)
    requires
        0 <= addr,
        1 <= align,
    ensures
        0 <= pad_to(addr, align) < align,
        (addr + pad_to(addr, align)) % align == 0,
{
    lemma_mod_bound(addr, align);
    lemma_fundamental_div_mod(addr, align);
    if addr % align == 0 {
    } else {
        assert(addr + pad_to(addr, align) == (addr / align + 1) * align) by {
            lemma_mul_is_distributive_add_other_way(align, addr / align, 1);
            lemma_mul_is_commutative(align, addr / align);
        }
        lemma_mod_multiples_basic(addr / align + 1, align);
    }
}

} // verus!
