//! The first-fit heap allocator over a list of free regions.
//!
//! The free list is held as a vector of region records, head first, in place
//! of nodes written into the free memory itself.
use vstd::prelude::*;
use crate::address::{
    is_power_of_two, lemma_power_of_two_divides, lemma_power_of_two_positive,
    VirtualAddress, CANONICAL_HIGH_START, CANONICAL_LOW_END,
};

verus! {

/// The bytes that a free-region record needs: every block must be able to
/// hold one once it is freed.
pub const NODE_SIZE: u64 = 16;

/// The alignment of a free-region record.
pub const NODE_ALIGN: u64 = 8;

/// A free region `[start, start + size)`.
#[derive(Debug, Clone, Copy, PartialEq, Eq, Structural)]
pub struct ListNode {
    pub start: u64,
    pub size: u64,
}

/// The region lies in one canonical half and can hold a record.
pub open spec fn region_wf(start: int, size: int) -> bool {
    &&& 0 <= start
    &&& start % 8 == 0
    &&& size >= NODE_SIZE
    &&& (start + size < CANONICAL_LOW_END || (start >= CANONICAL_HIGH_START && start + size
        <= u64::MAX))
}

pub open spec fn nodes_wf(nodes: Seq<ListNode>) -> bool {
    forall|i: int| 0 <= i < nodes.len() ==> region_wf(#[trigger] nodes[i].start as int, nodes[i].size as int)
}

/// The smallest multiple of `align` that is at least `x`.
pub open spec fn round_up(x: int, align: int) -> int {
    if x % align == 0 {
        x
    } else {
        x + align - x % align
    }
}

/// The alignment that a request gets: at least that of a record.
pub open spec fn normalized_align(align: int) -> int {
    if align < NODE_ALIGN {
        NODE_ALIGN as int
    } else {
        align
    }
}

/// The size that a request gets: a multiple of its alignment, and at least
/// the size of a record.
pub open spec fn normalized_size(size: int, align: int) -> int {
    let s = round_up(size, normalized_align(align));
    if s < NODE_SIZE {
        NODE_SIZE as int
    } else {
        s
    }
}

/// A request that a layout can describe: a power-of-two alignment and a
/// size that, rounded up to it, stays within `isize::MAX`.
pub open spec fn request_wf(size: int, align: int) -> bool {
    &&& is_power_of_two(align)
    &&& 0 <= size
    &&& size + align <= isize::MAX as int + 1
}

/// Where a block of `size` bytes at `align` would start in `node`.
pub open spec fn block_start(node: ListNode, align: int) -> int {
    round_up(node.start as int, align)
}

/// `node` can hold the block, and what is left behind the block is either
/// nothing or enough for a record.
pub open spec fn fits(node: ListNode, size: int, align: int) -> bool {
    let end = node.start + node.size;
    let block_end = block_start(node, align) + size;
    &&& block_end <= end
    &&& (block_end == end || end - block_end >= NODE_SIZE)
}

/// The index of the first region from `i` on that fits the block, or the
/// length of the list.
pub open spec fn first_fit_from(nodes: Seq<ListNode>, size: int, align: int, i: int) -> int
    decreases nodes.len() - i,
{
    if i >= nodes.len() {
        nodes.len() as int
    } else if fits(nodes[i], size, align) {
        i
    } else {
        first_fit_from(nodes, size, align, i + 1)
    }
}

/// The free list after the block is carved out of region `i`: the region
/// leaves the list, and what is left behind the block comes first.
pub open spec fn carve(nodes: Seq<ListNode>, i: int, size: int, align: int) -> Seq<ListNode> {
    let node = nodes[i];
    let block_end = block_start(node, align) + size;
    let end = node.start + node.size;
    let rest = nodes.remove(i);
    if block_end < end {
        seq![ListNode { start: block_end as u64, size: (end - block_end) as u64 }] + rest
    } else {
        rest
    }
}

/// First-fit allocation of a request: the block's address and the new free
/// list, or `None` when no region fits.
pub open spec fn spec_alloc(nodes: Seq<ListNode>, size: int, align: int) -> Option<(u64, Seq<ListNode>)> {
    let s = normalized_size(size, align);
    let a = normalized_align(align);
    let i = first_fit_from(nodes, s, a, 0);
    if i < nodes.len() {
        Some((block_start(nodes[i], a) as u64, carve(nodes, i, s, a)))
    } else {
        None
    }
}

/// Freeing a block puts it at the head of the free list.
pub open spec fn spec_free(nodes: Seq<ListNode>, ptr: u64, size: int, align: int) -> Seq<ListNode> {
    seq![ListNode { start: ptr, size: normalized_size(size, align) as u64 }] + nodes
}

proof fn lemma_first_fit(nodes: Seq<ListNode>, size: int, align: int, i: int)
    requires
        0 <= i <= nodes.len(),
    ensures
        i <= first_fit_from(nodes, size, align, i) <= nodes.len(),
        first_fit_from(nodes, size, align, i) < nodes.len() ==> fits(
            nodes[first_fit_from(nodes, size, align, i)],
            size,
            align,
        ),
    decreases nodes.len() - i,
{
    if i < nodes.len() && !fits(nodes[i], size, align) {
        lemma_first_fit(nodes, size, align, i + 1);
    }
}

pub proof fn lemma_round_up(x: int, align: int)
    requires
        x >= 0,
        align > 0,
    ensures
        round_up(x, align) % align == 0,
        x <= round_up(x, align) < x + align,
{
    vstd::arithmetic::div_mod::lemma_mod_bound(x, align);
    if x % align != 0 {
        vstd::arithmetic::div_mod::lemma_fundamental_div_mod(x, align);
        let q = x / align;
        assert(x + align - x % align == (q + 1) * align) by (nonlinear_arith)
            requires
                x == align * q + x % align,
        ;
        vstd::arithmetic::div_mod::lemma_mod_multiples_basic(q + 1, align);
    }
}

/// What the normalization of a request gives.
pub proof fn lemma_normalized(size: int, align: int)
    requires
        request_wf(size, align),
    ensures
        is_power_of_two(normalized_align(align)),
        normalized_align(align) % 8 == 0,
        normalized_size(size, align) % 8 == 0,
        normalized_size(size, align) >= NODE_SIZE,
        normalized_size(size, align) >= size,
        normalized_size(size, align) <= size + normalized_align(align) + NODE_SIZE,
        normalized_align(align) <= align + 8,
        round_up(size, normalized_align(align)) % normalized_align(align) == 0,
{
    let a = normalized_align(align);
    assert(is_power_of_two(8)) by {
        reveal_with_fuel(is_power_of_two, 4);
    }
    lemma_power_of_two_positive(align);
    if align >= 8 {
        lemma_power_of_two_divides(8, align);
    }
    lemma_round_up(size, a);
    let r = round_up(size, a);
    assert(r % 8 == 0) by {
        vstd::arithmetic::div_mod::lemma_fundamental_div_mod(r, a);
        vstd::arithmetic::div_mod::lemma_fundamental_div_mod(a, 8);
        let q = r / a;
        let m = a / 8;
        assert(r == 8 * (q * m)) by (nonlinear_arith)
            requires
                r == a * q + r % a,
                r % a == 0,
                a == 8 * m + a % 8,
                a % 8 == 0,
        ;
        vstd::arithmetic::div_mod::lemma_mod_multiples_basic(q * m, 8);
        vstd::arithmetic::mul::lemma_mul_is_commutative(8, q * m);
    }
}

proof fn lemma_multiple_of_multiple(x: int, a: int)
    requires
        x >= 0,
        a > 0,
        x % a == 0,
        a % 8 == 0,
    ensures
        x % 8 == 0,
{
    vstd::arithmetic::div_mod::lemma_fundamental_div_mod(x, a);
    vstd::arithmetic::div_mod::lemma_fundamental_div_mod(a, 8);
    let q = x / a;
    let m = a / 8;
    assert(x == 8 * (q * m)) by (nonlinear_arith)
        requires
            x == a * q + x % a,
            x % a == 0,
            a == 8 * m + a % 8,
            a % 8 == 0,
    ;
    vstd::arithmetic::div_mod::lemma_mod_multiples_basic(q * m, 8);
    vstd::arithmetic::mul::lemma_mul_is_commutative(8, q * m);
}

/// One allocate/free cycle loses nothing: after a request is allocated and
/// its block freed, the same request is served again with the same block,
/// and the free list is the one the first allocation left.
pub proof fn lemma_free_then_alloc_reuses_block(nodes: Seq<ListNode>, size: int, align: int)
    requires
        nodes_wf(nodes),
        request_wf(size, align),
        spec_alloc(nodes, size, align).is_some(),
    ensures
        ({
            let (p, after) = spec_alloc(nodes, size, align)->0;
            spec_alloc(spec_free(after, p, size, align), size, align) == Some((p, after))
        }),
{
    let s = normalized_size(size, align);
    let a = normalized_align(align);
    lemma_normalized(size, align);
    lemma_power_of_two_positive(a);
    lemma_first_fit(nodes, s, a, 0);
    let i = first_fit_from(nodes, s, a, 0);
    let node = nodes[i];
    assert(region_wf(node.start as int, node.size as int));
    lemma_round_up(node.start as int, a);
    let (p, after) = spec_alloc(nodes, size, align)->0;
    assert(p as int == block_start(node, a));
    let freed = spec_free(after, p, size, align);
    let head = freed[0];
    assert(head == ListNode { start: p, size: s as u64 });
    assert(block_start(head, a) == p);
    assert(fits(head, s, a));
    assert(first_fit_from(freed, s, a, 0) == 0);
    assert(carve(freed, 0, s, a) =~= after);
}

/// The bytes in the free regions.
pub open spec fn total_free(nodes: Seq<ListNode>) -> int
    decreases nodes.len(),
{
    if nodes.len() == 0 {
        0
    } else {
        total_free(nodes.drop_last()) + nodes.last().size
    }
}

proof fn lemma_total_free_push_front(node: ListNode, nodes: Seq<ListNode>)
    ensures
        total_free(seq![node] + nodes) == node.size + total_free(nodes),
    decreases nodes.len(),
{
    let all = seq![node] + nodes;
    if nodes.len() > 0 {
        assert(all.drop_last() =~= seq![node] + nodes.drop_last());
        assert(all.last() == nodes.last());
        lemma_total_free_push_front(node, nodes.drop_last());
        assert(total_free(all) == total_free(all.drop_last()) + all.last().size);
        assert(total_free(nodes) == total_free(nodes.drop_last()) + nodes.last().size);
    } else {
        assert(all.drop_last() =~= Seq::<ListNode>::empty());
        assert(all.last() == node);
        assert(total_free(all) == total_free(all.drop_last()) + all.last().size);
        assert(total_free(nodes) == 0);
    }
}

proof fn lemma_total_free_remove(nodes: Seq<ListNode>, i: int)
    requires
        0 <= i < nodes.len(),
    ensures
        total_free(nodes.remove(i)) == total_free(nodes) - nodes[i].size,
    decreases nodes.len(),
{
    if i == nodes.len() - 1 {
        assert(nodes.remove(i) =~= nodes.drop_last());
    } else {
        let init = nodes.drop_last();
        lemma_total_free_remove(init, i);
        assert(nodes.remove(i).drop_last() =~= init.remove(i));
        assert(nodes.remove(i).last() == nodes.last());
    }
}

/// One allocate/free cycle keeps every free byte when the block starts at
/// the start of the region it is carved from: the free regions hold as
/// many bytes as before, though the block and what follows it may now be
/// two regions.
pub proof fn lemma_free_after_alloc_keeps_free_bytes(nodes: Seq<ListNode>, size: int, align: int)
    requires
        nodes_wf(nodes),
        request_wf(size, align),
        spec_alloc(nodes, size, align).is_some(),
        (spec_alloc(nodes, size, align)->0).0 == nodes[first_fit_from(
            nodes,
            normalized_size(size, align),
            normalized_align(align),
            0,
        )].start,
    ensures
        ({
            let (p, after) = spec_alloc(nodes, size, align)->0;
            total_free(spec_free(after, p, size, align)) == total_free(nodes)
        }),
{
    let s = normalized_size(size, align);
    let a = normalized_align(align);
    lemma_normalized(size, align);
    lemma_first_fit(nodes, s, a, 0);
    let i = first_fit_from(nodes, s, a, 0);
    let node = nodes[i];
    assert(region_wf(node.start as int, node.size as int));
    let (p, after) = spec_alloc(nodes, size, align)->0;
    lemma_total_free_remove(nodes, i);
    let rest = nodes.remove(i);
    let block_end = p + s;
    let end = node.start + node.size;
    if block_end < end {
        lemma_total_free_push_front(ListNode { start: block_end as u64, size: (end - block_end) as u64 }, rest);
    }
    lemma_total_free_push_front(ListNode { start: p, size: s as u64 }, after);
}

/// A multiple of `a` is a multiple of every divisor `d` of `a`.
pub proof fn lemma_divides_trans(x: int, a: int, d: int)
    requires
        x >= 0,
        a > 0,
        d > 0,
        x % a == 0,
        a % d == 0,
    ensures
        x % d == 0,
{
    vstd::arithmetic::div_mod::lemma_fundamental_div_mod(x, a);
    vstd::arithmetic::div_mod::lemma_fundamental_div_mod(a, d);
    let q = x / a;
    let m = a / d;
    assert(x == d * (q * m)) by (nonlinear_arith)
        requires
            x == a * q + x % a,
            x % a == 0,
            a == d * m + a % d,
            a % d == 0,
    ;
    vstd::arithmetic::div_mod::lemma_mod_multiples_basic(q * m, d);
    vstd::arithmetic::mul::lemma_mul_is_commutative(d, q * m);
}

impl ListNode {
    /// The record of no memory.
    pub fn empty() -> (r: Self)
        ensures
            r.start == 0 && r.size == 0,
    {
        ListNode { start: 0, size: 0 }
    }

    pub fn new(start: VirtualAddress, size: u64) -> (r: Self)
        ensures
            r.start == start.inner && r.size == size,
    {
        ListNode { start: start.inner, size }
    }

    pub fn start_addr(&self) -> (r: VirtualAddress)
        requires
            region_wf(self.start as int, self.size as int),
        ensures
            r.inner == self.start,
            r.wf(),
    {
        VirtualAddress { inner: self.start }
    }

    /// The first byte past the region; it lies in the region's canonical half.
    pub fn end_addr(&self) -> (r: u64)
        requires
            region_wf(self.start as int, self.size as int),
        ensures
            r == self.start + self.size,
    {
        self.start + self.size
    }
}

/// The block size and alignment that a request gets.
pub fn size_align(size: usize, align: usize) -> (r: (usize, usize))
    requires
        request_wf(size as int, align as int),
    ensures
        r.0 == normalized_size(size as int, align as int),
        r.1 == normalized_align(align as int),
{
    proof {
        lemma_normalized(size as int, align as int);
        lemma_round_up(size as int, normalized_align(align as int));
    }
    let a: usize = if align < 8 { 8 } else { align };
    let rem = size % a;
    let padded: usize = if rem == 0 { size } else { size + (a - rem) };
    let s: usize = if padded < 16 { 16 } else { padded };
    (s, a)
}

/// Where a block of `size` bytes at the power-of-two `align` starts in
/// `region`, when the region can hold it; an unusable sliver left behind the
/// block rejects the region.
fn alloc_from_region(region: &ListNode, size: u64, align: u64) -> (r: Result<u64, ()>)
    requires
        region_wf(region.start as int, region.size as int),
        align > 0,
    ensures
        match r {
            Ok(s) => fits(*region, size as int, align as int) && s == block_start(*region, align as int),
            Err(_) => !fits(*region, size as int, align as int),
        },
{
    proof {
        lemma_round_up(region.start as int, align as int);
    }
    let start = region.start;
    let end = region.start + region.size;
    let rem = start % align;
    let alloc_start: u64 = if rem == 0 {
        start
    } else {
        if align - rem > end - start {
            return Err(());
        }
        start + (align - rem)
    };
    if size > end - alloc_start {
        return Err(());
    }
    let alloc_end = alloc_start + size;
    let excess = end - alloc_end;
    if excess > 0 && excess < NODE_SIZE {
        Err(())
    } else {
        Ok(alloc_start)
    }
}

/// The first-fit allocator. Freed blocks go back to the head of the list;
/// neighbouring free regions are not merged.
pub struct LinkedListAllocator {
    regions: Vec<ListNode>,
}

impl LinkedListAllocator {
    /// The free list, head first.
    pub closed spec fn view(&self) -> Seq<ListNode> {
        self.regions@
    }

    pub closed spec fn wf(&self) -> bool {
        nodes_wf(self.regions@)
    }

    /// An allocator with no memory.
    pub fn new() -> (r: Self)
        ensures
            r.wf(),
            r.view() == Seq::<ListNode>::empty(),
    {
        LinkedListAllocator { regions: Vec::new() }
    }

    /// Hands the region `[heap_start, heap_start + size)` to the allocator.
    pub fn init(&mut self, heap_start: VirtualAddress, size: u64)
        requires
            old(self).wf(),
            region_wf(heap_start.inner as int, size as int),
        ensures
            final(self).wf(),
            final(self).view() == seq![ListNode { start: heap_start.inner, size }] + old(self).view(),
    {
        self.add_free_region(heap_start.inner, size);
    }

    /// Puts `[addr, addr + size)` at the head of the free list. A region
    /// too small or too loosely aligned for a record is a caller bug.
    fn add_free_region(&mut self, addr: u64, size: u64)
        requires
            old(self).wf(),
            region_wf(addr as int, size as int),
        ensures
            final(self).wf(),
            final(self).view() == seq![ListNode { start: addr, size }] + old(self).view(),
    {
        self.regions.insert(0, ListNode { start: addr, size });
        proof {
            assert(self.regions@ =~= seq![ListNode { start: addr, size }] + old(self).regions@);
        }
    }

    /// The index of the first region that fits the block, and where the
    /// block starts in it.
    fn find_region(&self, size: u64, align: u64) -> (r: Option<(usize, u64)>)
        requires
            self.wf(),
            align > 0,
        ensures
            match r {
                Some((i, s)) => i == first_fit_from(self.view(), size as int, align as int, 0) && i
                    < self.view().len() && s == block_start(self.view()[i as int], align as int),
                None => first_fit_from(self.view(), size as int, align as int, 0) == self.view().len(),
            },
    {
        let mut i: usize = 0;
        while i < self.regions.len()
            invariant
                self.wf(),
                align > 0,
                0 <= i <= self.regions@.len(),
                first_fit_from(self.regions@, size as int, align as int, 0) == first_fit_from(
                    self.regions@,
                    size as int,
                    align as int,
                    i as int,
                ),
            decreases self.regions@.len() - i,
        {
            let region = &self.regions[i];
            match alloc_from_region(region, size, align) {
                Ok(s) => {
                    return Some((i, s));
                },
                Err(_) => {},
            }
            i = i + 1;
        }
        None
    }

    /// Allocates a block for the request (`size` bytes at the power-of-two
    /// `align`, both raised as `size_align` says) from the first region that
    /// fits it. `None` when no region fits.
    pub fn alloc_first_fit(&mut self, size: usize, align: usize) -> (r: Option<VirtualAddress>)
        requires
            old(self).wf(),
            request_wf(size as int, align as int),
        ensures
            final(self).wf(),
            match spec_alloc(old(self).view(), size as int, align as int) {
                Some((p, nodes)) => r == Some(VirtualAddress { inner: p }) && final(self).view()
                    == nodes,
                None => r.is_none() && final(self).view() == old(self).view(),
            },
            r matches Some(p) ==> p.wf(),
            r matches Some(p) ==> region_wf(p.inner as int, normalized_size(size as int, align as int))
                && p.inner % (align as u64) == 0 && p.inner % (normalized_align(align as int) as u64)
                == 0,
    {
        let (s, a) = size_align(size, align);
        proof {
            lemma_normalized(size as int, align as int);
            lemma_first_fit(self.view(), s as int, a as int, 0);
        }
        let found = self.find_region(s as u64, a as u64);
        match found {
            None => None,
            Some((i, alloc_start)) => {
                let ghost nodes = self.view();
                let region = self.regions.remove(i);
                let alloc_end = alloc_start + s as u64;
                let region_end = region.start + region.size;
                proof {
                    lemma_round_up(region.start as int, a as int);
                    assert(nodes_wf(self.regions@)) by {
                        assert forall|j: int| 0 <= j < self.regions@.len() implies region_wf(
                            #[trigger] self.regions@[j].start as int,
                            self.regions@[j].size as int,
                        ) by {
                            if j >= i {
                                assert(self.regions@[j] == nodes[j + 1]);
                            } else {
                                assert(self.regions@[j] == nodes[j]);
                            }
                        }
                    }
                    assert(self.regions@ =~= nodes.remove(i as int));
                }
                if alloc_end < region_end {
                    proof {
                        lemma_multiple_of_multiple(alloc_start as int, a as int);
                        assert((alloc_start + s) % 8 == 0);
                    }
                    self.add_free_region(alloc_end, region_end - alloc_end);
                }
                proof {
                    assert(self.view() =~= carve(nodes, i as int, s as int, a as int));
                    lemma_multiple_of_multiple(alloc_start as int, a as int);
                    lemma_power_of_two_positive(align as int);
                    lemma_power_of_two_divides(align as int, a as int);
                    lemma_divides_trans(alloc_start as int, a as int, align as int);
                }
                Some(VirtualAddress { inner: alloc_start })
            },
        }
    }

    /// Returns the block at `ptr` of the request (`size`, `align`) to the
    /// head of the free list. The block must be one that this allocator
    /// handed out for the same request.
    pub fn free(&mut self, ptr: VirtualAddress, size: usize, align: usize)
        requires
            old(self).wf(),
            request_wf(size as int, align as int),
            region_wf(ptr.inner as int, normalized_size(size as int, align as int)),
        ensures
            final(self).wf(),
            final(self).view() == spec_free(old(self).view(), ptr.inner, size as int, align as int),
    {
        let (s, _) = size_align(size, align);
        self.add_free_region(ptr.inner, s as u64);
    }

    /// A copy of the free list, head first.
    pub fn free_regions(&self) -> (r: Vec<ListNode>)
        ensures
            r@ == self.view(),
    {
        let mut out: Vec<ListNode> = Vec::new();
        let mut i: usize = 0;
        while i < self.regions.len()
            invariant
                0 <= i <= self.regions@.len(),
                out@ == self.regions@.take(i as int),
            decreases self.regions@.len() - i,
        {
            out.push(self.regions[i]);
            i = i + 1;
            proof {
                assert(out@ =~= self.regions@.take(i as int));
            }
        }
        proof {
            assert(self.regions@.take(i as int) =~= self.regions@);
        }
        out
    }
}

} // verus!
