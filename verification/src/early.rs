//! The early allocator: a bounded table of blocks served first-fit.

use vstd::prelude::*;

verus! {

use crate::block::Block;
use crate::block::byte_alloc_step;
use crate::block::page_alloc_step;
use vstd::arithmetic::div_mod::lemma_div_nonincreasing;
use vstd::arithmetic::mul::lemma_mul_inequality;
use vstd::arithmetic::mul::lemma_mul_is_commutative;
use vstd::arithmetic::mul::lemma_mul_is_distributive_add_other_way;

/// Hard bound on how many extents the kernel may register.
pub const CAPACITY: usize = 1024;

/// Why an allocator call failed.
#[derive(Clone, Copy, Debug, PartialEq, Eq, Structural)]
pub enum AllocError {
    /// The block table is full: no further extent can be registered.
    CapacityExceeded,
    /// No registered block has enough free space of the requested kind.
    OutOfMemory,
}

/// The bootstrap allocator: a bounded table of [`Block`]s, filled during
/// registration and then serving byte and page requests first-fit in
/// registration order. Nothing is ever reclaimed.
pub struct EarlyAllocator<const PAGE_SIZE: usize> {
    pub regions: Vec<Block<PAGE_SIZE>>,
}

/// Total bytes managed: the sum of the blocks' sizes.
pub open spec fn sum_sizes<const PAGE_SIZE: usize>(s: Seq<Block<PAGE_SIZE>>) -> int
    decreases s.len(),
{
    if s.len() == 0 {
        0
    } else {
        sum_sizes(s.drop_last()) + s.last().size
    }
}

/// Bytes consumed from the blocks' low ends.
pub open spec fn sum_b_used<const PAGE_SIZE: usize>(s: Seq<Block<PAGE_SIZE>>) -> int
    decreases s.len(),
{
    if s.len() == 0 {
        0
    } else {
        sum_b_used(s.drop_last()) + s.last().b_used
    }
}

/// Pages consumed from the blocks' high ends.
pub open spec fn sum_p_used<const PAGE_SIZE: usize>(s: Seq<Block<PAGE_SIZE>>) -> int
    decreases s.len(),
{
    if s.len() == 0 {
        0
    } else {
        sum_p_used(s.drop_last()) + s.last().p_used
    }
}

/// Free bytes between the blocks' cursors.
pub open spec fn sum_avail<const PAGE_SIZE: usize>(s: Seq<Block<PAGE_SIZE>>) -> int
    decreases s.len(),
{
    if s.len() == 0 {
        0
    } else {
        sum_avail(s.drop_last()) + s.last().avail_bytes()
    }
}

/// Total pages managed: each block's size in whole pages.
pub open spec fn sum_size_pages<const PAGE_SIZE: usize>(s: Seq<Block<PAGE_SIZE>>) -> int
    decreases s.len(),
{
    if s.len() == 0 {
        0
    } else {
        sum_size_pages(s.drop_last()) + s.last().size as int / (PAGE_SIZE as int)
    }
}

/// Free pages between the blocks' cursors.
pub open spec fn sum_avail_pages<const PAGE_SIZE: usize>(s: Seq<Block<PAGE_SIZE>>) -> int
    decreases s.len(),
{
    if s.len() == 0 {
        0
    } else {
        sum_avail_pages(s.drop_last()) + s.last().avail_bytes() / (PAGE_SIZE as int)
    }
}

/// A prefix of the table never sums to more than the whole table.
pub proof fn lemma_sum_sizes_prefix<const PAGE_SIZE: usize>(s: Seq<Block<PAGE_SIZE>>, i: int)
    requires
        0 <= i <= s.len(),
    ensures
        sum_sizes(s.take(i)) <= sum_sizes(s),
    decreases s.len() - i,
{
    if i == s.len() {
        assert(s.take(i) =~= s);
    } else {
        assert(s.take(i + 1).drop_last() =~= s.take(i));
        assert(s.take(i + 1).last() == s[i]);
        lemma_sum_sizes_prefix(s, i + 1);
    }
}

/// One byte allocation served by the block at index `i`: every earlier
/// block was too full, block `i` moved by one byte-allocation step, and
/// every other block is untouched.
pub open spec fn byte_alloc_at<const PAGE_SIZE: usize>(
    pre: EarlyAllocator<PAGE_SIZE>,
    post: EarlyAllocator<PAGE_SIZE>,
    i: int,
    size: int,
    align: int,
    addr: int,
) -> bool {
    &&& 0 <= i < pre.regions@.len()
    &&& post.regions@.len() == pre.regions@.len()
    &&& (forall|j: int|
        0 <= j < pre.regions@.len() && j != i ==> post.regions@[j] == #[trigger] pre.regions@[j])
    &&& (forall|j: int|
        0 <= j < i ==> !(#[trigger] pre.regions@[j]).can_alloc_bytes(size, align))
    &&& pre.regions@[i].can_alloc_bytes(size, align)
    &&& byte_alloc_step(pre.regions@[i], post.regions@[i], size, align, addr)
}

/// Some block served one byte allocation: the witness of [`byte_alloc_at`].
pub open spec fn serves_bytes<const PAGE_SIZE: usize>(
    pre: EarlyAllocator<PAGE_SIZE>,
    post: EarlyAllocator<PAGE_SIZE>,
    size: int,
    align: int,
    addr: int,
) -> bool {
    exists|i: int| byte_alloc_at(pre, post, i, size, align, addr)
}

/// One page allocation served by the block at index `i`, likewise.
pub open spec fn page_alloc_at<const PAGE_SIZE: usize>(
    pre: EarlyAllocator<PAGE_SIZE>,
    post: EarlyAllocator<PAGE_SIZE>,
    i: int,
    count: int,
    align: int,
    addr: int,
) -> bool {
    &&& 0 <= i < pre.regions@.len()
    &&& post.regions@.len() == pre.regions@.len()
    &&& (forall|j: int|
        0 <= j < pre.regions@.len() && j != i ==> post.regions@[j] == #[trigger] pre.regions@[j])
    &&& (forall|j: int|
        0 <= j < i ==> !(#[trigger] pre.regions@[j]).can_alloc_pages(count, align))
    &&& pre.regions@[i].can_alloc_pages(count, align)
    &&& page_alloc_step(pre.regions@[i], post.regions@[i], count, align, addr)
}

/// Some block served one page allocation: the witness of [`page_alloc_at`].
pub open spec fn serves_pages<const PAGE_SIZE: usize>(
    pre: EarlyAllocator<PAGE_SIZE>,
    post: EarlyAllocator<PAGE_SIZE>,
    count: int,
    align: int,
    addr: int,
) -> bool {
    exists|i: int| page_alloc_at(pre, post, i, count, align, addr)
}

impl<const PAGE_SIZE: usize> EarlyAllocator<PAGE_SIZE> {
    /// Well-formedness: the table is within capacity and every block keeps
    /// its cursors apart.
    pub open spec fn wf(self) -> bool {
        &&& 1 <= PAGE_SIZE
        &&& self.regions@.len() <= CAPACITY
        &&& (forall|i: int| 0 <= i < self.regions@.len() ==> (#[trigger] self.regions@[i]).inv())
    }

    /// No registered block can serve a byte allocation of `size` bytes
    /// aligned to `align`.
    pub open spec fn no_byte_fit(self, size: int, align: int) -> bool {
        forall|i: int|
            0 <= i < self.regions@.len() ==> !(#[trigger] self.regions@[i]).can_alloc_bytes(
                size,
                align,
            )
    }

    /// No registered block can serve a page allocation of `count` pages
    /// aligned to `align`.
    pub open spec fn no_page_fit(self, count: int, align: int) -> bool {
        forall|i: int|
            0 <= i < self.regions@.len() ==> !(#[trigger] self.regions@[i]).can_alloc_pages(
                count,
                align,
            )
    }

    pub fn new() -> (r: Self)
        requires
            1 <= PAGE_SIZE,
        ensures
            r.wf(),
            r.regions@.len() == 0,
    {
        Self { regions: Vec::new() }
    }

    pub fn region_count(&self) -> (r: usize)
        ensures
            r == self.regions@.len(),
    {
        self.regions.len()
    }

    /// Register the extent `[start, start + size)`. Fails exactly when the
    /// table is already at capacity, and then changes nothing.
    pub fn add_memory(&mut self, start: usize, size: usize) -> (r: Result<(), AllocError>)
        requires
            old(self).wf(),
            start + size <= usize::MAX,
        ensures
            final(self).wf(),
            old(self).regions@.len() < CAPACITY ==> {
                &&& r == Ok::<(), AllocError>(())
                &&& final(self).regions@ == old(self).regions@.push(
                    (Block::<PAGE_SIZE> { start, size, b_used: 0, p_used: 0 }),
                )
            },
            old(self).regions@.len() == CAPACITY ==> {
                &&& r == Err::<(), AllocError>(AllocError::CapacityExceeded)
                &&& *final(self) == *old(self)
            },
    {
        if self.regions.len() == CAPACITY {
            return Err(AllocError::CapacityExceeded);
        }
        self.regions.push(Block::new(start, size));
        Ok(())
    }

    /// Register the very first extents at boot: the table must not be full,
    /// since the kernel cannot run at all if this donation is refused.
    pub fn init(&mut self, start: usize, size: usize)
        requires
            old(self).wf(),
            old(self).regions@.len() < CAPACITY,
            start + size <= usize::MAX,
        ensures
            final(self).wf(),
            final(self).regions@ == old(self).regions@.push(
                Block::<PAGE_SIZE> { start, size, b_used: 0, p_used: 0 },
            ),
    {
        let _ = self.add_memory(start, size);
    }

    /// Serve a byte allocation of `size` bytes aligned to `align` from the
    /// first block with room, or fail with `OutOfMemory` exactly when no
    /// block has room, changing nothing.
    #[verifier::loop_isolation(false)]
    pub fn alloc_bytes(&mut self, size: usize, align: usize) -> (r: Result<usize, AllocError>)
        requires
            old(self).wf(),
            1 <= align,
        ensures
            final(self).wf(),
            r matches Ok(addr) ==> serves_bytes(
                *old(self),
                *final(self),
                size as int,
                align as int,
                addr as int,
            ),
            r matches Err(e) ==> {
                &&& e == AllocError::OutOfMemory
                &&& *final(self) == *old(self)
                &&& old(self).no_byte_fit(size as int, align as int)
            },
    {
        let n = self.regions.len();
        for i in 0..n
            invariant
                *self == *old(self),
                n == self.regions@.len(),
                self.wf(),
                1 <= align,
                forall|j: int|
                    0 <= j < i ==> !(#[trigger] self.regions@[j]).can_alloc_bytes(
                        size as int,
                        align as int,
                    ),
        {
            if self.regions[i].fits_bytes(size, align) {
                let mut b = self.regions[i];
                let addr = b.alloc_bytes(size, align);
                self.regions.set(i, b);
                proof {
                    assert(byte_alloc_at(
                        *old(self),
                        *self,
                        i as int,
                        size as int,
                        align as int,
                        addr as int,
                    ));
                    assert(serves_bytes(
                        *old(self),
                        *self,
                        size as int,
                        align as int,
                        addr as int,
                    ));
                }
                return Ok(addr);
            }
        }
        Err(AllocError::OutOfMemory)
    }

    /// Byte deallocation is deliberately a no-op: the bootstrap allocator
    /// never reclaims memory during its short life.
    pub fn dealloc(&mut self, _pos: usize, _size: usize, _align: usize)
        ensures
            *final(self) == *old(self),
    {
    }

    /// Serve a page allocation of `count` pages aligned to `align` from the
    /// first block with room, or fail with `OutOfMemory` exactly when no
    /// block has room, changing nothing.
    #[verifier::loop_isolation(false)]
    pub fn alloc_pages(&mut self, count: usize, align: usize) -> (r: Result<usize, AllocError>)
        requires
            old(self).wf(),
            1 <= align,
        ensures
            final(self).wf(),
            r matches Ok(addr) ==> serves_pages(
                *old(self),
                *final(self),
                count as int,
                align as int,
                addr as int,
            ),
            r matches Err(e) ==> {
                &&& e == AllocError::OutOfMemory
                &&& *final(self) == *old(self)
                &&& old(self).no_page_fit(count as int, align as int)
            },
    {
        let n = self.regions.len();
        for i in 0..n
            invariant
                *self == *old(self),
                n == self.regions@.len(),
                self.wf(),
                1 <= align,
                forall|j: int|
                    0 <= j < i ==> !(#[trigger] self.regions@[j]).can_alloc_pages(
                        count as int,
                        align as int,
                    ),
        {
            if self.regions[i].fits_pages(count, align) {
                let mut b = self.regions[i];
                let addr = b.alloc_pages(count, align);
                self.regions.set(i, b);
                proof {
                    assert(page_alloc_at(
                        *old(self),
                        *self,
                        i as int,
                        count as int,
                        align as int,
                        addr as int,
                    ));
                    assert(serves_pages(
                        *old(self),
                        *self,
                        count as int,
                        align as int,
                        addr as int,
                    ));
                }
                return Ok(addr);
            }
        }
        Err(AllocError::OutOfMemory)
    }

    /// Page deallocation is deliberately a no-op: early page allocations
    /// back long-lived kernel structures and stay reserved forever.
    pub fn dealloc_pages(&mut self, _pos: usize, _num_pages: usize)
        ensures
            *final(self) == *old(self),
    {
    }

    pub fn total_bytes(&self) -> (r: usize)
        requires
            self.wf(),
            sum_sizes(self.regions@) <= usize::MAX,
        ensures
            r == sum_sizes(self.regions@),
    {
        let ghost s = self.regions@;
        let mut acc: usize = 0;
        let n = self.regions.len();
        for i in 0..n
            invariant
                s == self.regions@,
                n == s.len(),
                self.wf(),
                sum_sizes(s) <= usize::MAX,
                acc == sum_sizes(s.take(i as int)),
        {
            proof {
                assert(s.take(i + 1).drop_last() =~= s.take(i as int));
                assert(s.take(i + 1).last() == s[i as int]);
                lemma_sum_sizes_prefix(s, i + 1);
            }
            acc = acc + self.regions[i].size;
        }
        proof {
            assert(s.take(n as int) =~= s);
        }
        acc
    }

    pub fn used_bytes(&self) -> (r: usize)
        requires
            self.wf(),
            sum_sizes(self.regions@) <= usize::MAX,
        ensures
            r == sum_b_used(self.regions@),
    {
        let ghost s = self.regions@;
        let mut acc: usize = 0;
        let n = self.regions.len();
        for i in 0..n
            invariant
                s == self.regions@,
                n == s.len(),
                self.wf(),
                sum_sizes(s) <= usize::MAX,
                acc == sum_b_used(s.take(i as int)),
                acc <= sum_sizes(s.take(i as int)),
        {
            proof {
                assert(s.take(i + 1).drop_last() =~= s.take(i as int));
                assert(s.take(i + 1).last() == s[i as int]);
                assert(s[i as int].inv());
                lemma_sum_sizes_prefix(s, i + 1);
            }
            acc = acc + self.regions[i].b_used;
        }
        proof {
            assert(s.take(n as int) =~= s);
        }
        acc
    }

    pub fn available_bytes(&self) -> (r: usize)
        requires
            self.wf(),
            sum_sizes(self.regions@) <= usize::MAX,
        ensures
            r == sum_avail(self.regions@),
    {
        let ghost s = self.regions@;
        let mut acc: usize = 0;
        let n = self.regions.len();
        for i in 0..n
            invariant
                s == self.regions@,
                n == s.len(),
                self.wf(),
                sum_sizes(s) <= usize::MAX,
                acc == sum_avail(s.take(i as int)),
                acc <= sum_sizes(s.take(i as int)),
        {
            proof {
                assert(s.take(i + 1).drop_last() =~= s.take(i as int));
                assert(s.take(i + 1).last() == s[i as int]);
                assert(s[i as int].inv());
                lemma_sum_sizes_prefix(s, i + 1);
            }
            let a = self.regions[i].available_bytes();
            acc = acc + a;
        }
        proof {
            assert(s.take(n as int) =~= s);
        }
        acc
    }

    pub fn total_pages(&self) -> (r: usize)
        requires
            self.wf(),
            sum_sizes(self.regions@) <= usize::MAX,
        ensures
            r == sum_size_pages(self.regions@),
    {
        let ghost s = self.regions@;
        let mut acc: usize = 0;
        let n = self.regions.len();
        for i in 0..n
            invariant
                s == self.regions@,
                n == s.len(),
                self.wf(),
                sum_sizes(s) <= usize::MAX,
                acc == sum_size_pages(s.take(i as int)),
                acc <= sum_sizes(s.take(i as int)),
        {
            proof {
                assert(s.take(i + 1).drop_last() =~= s.take(i as int));
                assert(s.take(i + 1).last() == s[i as int]);
                assert(s[i as int].inv());
                lemma_sum_sizes_prefix(s, i + 1);
                lemma_div_nonincreasing(s[i as int].size as int, PAGE_SIZE as int);
            }
            acc = acc + self.regions[i].size / PAGE_SIZE;
        }
        proof {
            assert(s.take(n as int) =~= s);
        }
        acc
    }

    pub fn used_pages(&self) -> (r: usize)
        requires
            self.wf(),
            sum_sizes(self.regions@) <= usize::MAX,
        ensures
            r == sum_p_used(self.regions@),
    {
        let ghost s = self.regions@;
        let mut acc: usize = 0;
        let n = self.regions.len();
        for i in 0..n
            invariant
                s == self.regions@,
                n == s.len(),
                self.wf(),
                sum_sizes(s) <= usize::MAX,
                acc == sum_p_used(s.take(i as int)),
                acc <= sum_sizes(s.take(i as int)),
        {
            proof {
                assert(s.take(i + 1).drop_last() =~= s.take(i as int));
                assert(s.take(i + 1).last() == s[i as int]);
                assert(s[i as int].inv());
                lemma_sum_sizes_prefix(s, i + 1);
                lemma_mul_inequality(1, PAGE_SIZE as int, s[i as int].p_used as int);
                lemma_mul_is_commutative(PAGE_SIZE as int, s[i as int].p_used as int);
            }
            acc = acc + self.regions[i].p_used;
        }
        proof {
            assert(s.take(n as int) =~= s);
        }
        acc
    }

    pub fn available_pages(&self) -> (r: usize)
        requires
            self.wf(),
            sum_sizes(self.regions@) <= usize::MAX,
        ensures
            r == sum_avail_pages(self.regions@),
    {
        let ghost s = self.regions@;
        let mut acc: usize = 0;
        let n = self.regions.len();
        for i in 0..n
            invariant
                s == self.regions@,
                n == s.len(),
                self.wf(),
                sum_sizes(s) <= usize::MAX,
                acc == sum_avail_pages(s.take(i as int)),
                acc <= sum_sizes(s.take(i as int)),
        {
            proof {
                assert(s.take(i + 1).drop_last() =~= s.take(i as int));
                assert(s.take(i + 1).last() == s[i as int]);
                assert(s[i as int].inv());
                lemma_sum_sizes_prefix(s, i + 1);
                lemma_div_nonincreasing(s[i as int].avail_bytes(), PAGE_SIZE as int);
            }
            let a = self.regions[i].available_pages();
            acc = acc + a;
        }
        proof {
            assert(s.take(n as int) =~= s);
        }
        acc
    }
}

/// Per-table accounting: free bytes are exactly what the sizes leave after
/// byte allocations and page reservations.
pub proof fn lemma_sum_accounting<const PAGE_SIZE: usize>(s: Seq<Block<PAGE_SIZE>>)
    ensures
        sum_b_used(s) + sum_avail(s) + sum_p_used(s) * PAGE_SIZE == sum_sizes(s),
    decreases s.len(),
{
    if s.len() == 0 {
    } else {
        lemma_sum_accounting(s.drop_last());
        lemma_mul_is_distributive_add_other_way(
            PAGE_SIZE as int,
            sum_p_used(s.drop_last()),
            s.last().p_used as int,
        );
    }
}

} // verus!
