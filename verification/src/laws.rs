//! The allocator's cross-call guarantees, as proved lemmas.

use vstd::prelude::*;

verus! {

use crate::block::lemma_byte_step_bounds;
use crate::block::lemma_page_step_bounds;
use crate::block::lemma_pad_to;
use crate::early::EarlyAllocator;
use crate::early::byte_alloc_at;
use crate::early::page_alloc_at;
use crate::early::sum_avail;
use crate::early::sum_b_used;
use crate::early::sum_p_used;
use crate::early::sum_sizes;
use crate::early::lemma_sum_accounting;
use vstd::arithmetic::mul::lemma_mul_inequality;

/// Byte allocation is monotonic: when two successive byte allocations are
/// served by the same block, the second range starts at or above the end
/// of the first, so the two ranges never overlap.
pub proof fn lemma_byte_allocs_disjoint<const PAGE_SIZE: usize>(
    s0: EarlyAllocator<PAGE_SIZE>,
    s1: EarlyAllocator<PAGE_SIZE>,
    s2: EarlyAllocator<PAGE_SIZE>,
    i: int,
    size1: int,
    align1: int,
    a1: int,
    size2: int,
    align2: int,
    a2: int,
)
    requires
        s0.wf(),
        1 <= align1,
        1 <= align2,
        0 <= size1,
        0 <= size2,
        byte_alloc_at(s0, s1, i, size1, align1, a1),
        byte_alloc_at(s1, s2, i, size2, align2, a2),
    ensures
        a1 + size1 <= a2,
{
    let b0 = s0.regions@[i];
    let b1 = s1.regions@[i];
    assert(b0.inv());
    lemma_byte_step_bounds(b0, b1, size1, align1, a1);
    lemma_pad_to(b1.low(), align2);
}

/// Page allocation descends: when two successive page allocations are
/// served by the same block, the second range lies entirely below the
/// first, and its base address is strictly smaller whenever at least one
/// page was asked for.
pub proof fn lemma_page_allocs_descend<const PAGE_SIZE: usize>(
    s0: EarlyAllocator<PAGE_SIZE>,
    s1: EarlyAllocator<PAGE_SIZE>,
    s2: EarlyAllocator<PAGE_SIZE>,
    i: int,
    count1: int,
    align1: int,
    a1: int,
    count2: int,
    align2: int,
    a2: int,
)
    requires
        s0.wf(),
        1 <= align1,
        1 <= align2,
        0 <= count1,
        0 <= count2,
        page_alloc_at(s0, s1, i, count1, align1, a1),
        page_alloc_at(s1, s2, i, count2, align2, a2),
    ensures
        a2 + count2 * PAGE_SIZE <= a1,
        1 <= count2 ==> a2 < a1,
{
    let b0 = s0.regions@[i];
    let b1 = s1.regions@[i];
    let b2 = s2.regions@[i];
    assert(b0.inv());
    lemma_page_step_bounds(b0, b1, count1, align1, a1);
    lemma_page_step_bounds(b1, b2, count2, align2, a2);
    if 1 <= count2 {
        lemma_mul_inequality(1, count2, PAGE_SIZE as int);
    }
}

/// A page allocation never overlaps an earlier byte allocation from the
/// same block: the byte range ends at or below the page range's base.
pub proof fn lemma_pages_above_bytes<const PAGE_SIZE: usize>(
    s0: EarlyAllocator<PAGE_SIZE>,
    s1: EarlyAllocator<PAGE_SIZE>,
    s2: EarlyAllocator<PAGE_SIZE>,
    i: int,
    size: int,
    byte_align: int,
    byte_addr: int,
    count: int,
    page_align: int,
    page_addr: int,
)
    requires
        s0.wf(),
        1 <= byte_align,
        1 <= page_align,
        0 <= size,
        0 <= count,
        byte_alloc_at(s0, s1, i, size, byte_align, byte_addr),
        page_alloc_at(s1, s2, i, count, page_align, page_addr),
    ensures
        byte_addr + size <= page_addr,
{
    let b0 = s0.regions@[i];
    let b1 = s1.regions@[i];
    let b2 = s2.regions@[i];
    assert(b0.inv());
    lemma_byte_step_bounds(b0, b1, size, byte_align, byte_addr);
    lemma_page_step_bounds(b1, b2, count, page_align, page_addr);
}

/// Aggregate accounting: every managed byte is consumed by the byte
/// cursors, free between the cursors, or reserved by the page cursors;
/// while no pages are reserved, used and free bytes alone add up to the
/// total.
pub proof fn lemma_accounting<const PAGE_SIZE: usize>(a: EarlyAllocator<PAGE_SIZE>)
    ensures
        sum_b_used(a.regions@) + sum_avail(a.regions@) + sum_p_used(a.regions@) * PAGE_SIZE
            == sum_sizes(a.regions@),
        sum_p_used(a.regions@) == 0 ==> sum_b_used(a.regions@) + sum_avail(a.regions@)
            == sum_sizes(a.regions@),
{
    lemma_sum_accounting(a.regions@);
}

} // verus!
