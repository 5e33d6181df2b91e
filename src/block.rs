//! The fixed-size-block heap allocator: one free list per size class, with
//! the first-fit allocator behind it for new blocks and oversize requests.
use vstd::prelude::*;
use crate::address::{
    is_power_of_two, lemma_power_of_two_divides, lemma_power_of_two_positive, VirtualAddress,
};
use crate::linked_list::{
    lemma_divides_trans, normalized_size, region_wf, request_wf, spec_alloc, spec_free, ListNode,
    LinkedListAllocator,
};

verus! {

/// The number of size classes.
pub const BLOCK_CLASSES: usize = 10;

/// The block size of class `index`: 8, 16, 32, ... 4096 bytes.
pub open spec fn block_size(index: int) -> int {
    if index == 0 {
        8
    } else if index == 1 {
        16
    } else if index == 2 {
        32
    } else if index == 3 {
        64
    } else if index == 4 {
        128
    } else if index == 5 {
        256
    } else if index == 6 {
        512
    } else if index == 7 {
        1024
    } else if index == 8 {
        2048
    } else {
        4096
    }
}

/// The first class from `i` on whose blocks hold `required` bytes, or the
/// number of classes.
pub open spec fn class_from(required: int, i: int) -> int
    decreases BLOCK_CLASSES - i,
{
    if i >= BLOCK_CLASSES {
        BLOCK_CLASSES as int
    } else if required <= block_size(i) {
        i
    } else {
        class_from(required, i + 1)
    }
}

/// The smallest class that holds a request of `size` bytes at `align`, if any.
pub open spec fn block_class(size: int, align: int) -> Option<int> {
    let required = if size < align {
        align
    } else {
        size
    };
    let c = class_from(required, 0);
    if c < BLOCK_CLASSES {
        Some(c)
    } else {
        None
    }
}

/// An allocation on the abstract state (free lists, fallback free list): the
/// block's address and the new state.
pub open spec fn spec_block_alloc(
    lists: Seq<Seq<u64>>,
    fallback: Seq<ListNode>,
    size: int,
    align: int,
) -> (Option<u64>, Seq<Seq<u64>>, Seq<ListNode>) {
    match block_class(size, align) {
        Some(c) => if lists[c].len() > 0 {
            (Some(lists[c].last()), lists.update(c, lists[c].drop_last()), fallback)
        } else {
            match spec_alloc(fallback, block_size(c), block_size(c)) {
                Some((p, f)) => (Some(p), lists, f),
                None => (None, lists, fallback),
            }
        },
        None => match spec_alloc(fallback, size, align) {
            Some((p, f)) => (Some(p), lists, f),
            None => (None, lists, fallback),
        },
    }
}

/// A deallocation on the abstract state.
pub open spec fn spec_block_dealloc(
    lists: Seq<Seq<u64>>,
    fallback: Seq<ListNode>,
    ptr: u64,
    size: int,
    align: int,
) -> (Seq<Seq<u64>>, Seq<ListNode>) {
    match block_class(size, align) {
        Some(c) => (lists.update(c, lists[c].push(ptr)), fallback),
        None => (lists, spec_free(fallback, ptr, size, align)),
    }
}

/// A block of class `c` at `addr` fits in its canonical half and can hold a
/// record of the first-fit allocator.
pub open spec fn block_wf(addr: u64, c: int) -> bool {
    &&& region_wf(addr as int, if block_size(c) < 16 { 16 } else { block_size(c) })
    &&& addr % (block_size(c) as u64) == 0
}

/// Every block size is a power of two.
pub proof fn lemma_block_size_power_of_two(c: int)
    requires
        0 <= c < BLOCK_CLASSES,
    ensures
        is_power_of_two(block_size(c)),
        block_size(c) >= 8,
{
    reveal_with_fuel(is_power_of_two, 14);
}

/// What a block handed out for a request must be, so that it can be
/// handed back: a block of its class, or else a first-fit block.
pub open spec fn block_for(addr: u64, size: int, align: int) -> bool {
    match block_class(size, align) {
        Some(c) => block_wf(addr, c),
        None => region_wf(addr as int, normalized_size(size, align)),
    }
}

proof fn lemma_class_from(required: int, i: int)
    requires
        0 <= i <= BLOCK_CLASSES,
    ensures
        i <= class_from(required, i) <= BLOCK_CLASSES,
        class_from(required, i) < BLOCK_CLASSES ==> required <= block_size(class_from(required, i)),
        forall|j: int| i <= j < class_from(required, i) ==> block_size(j) < required,
    decreases BLOCK_CLASSES - i,
{
    if i < BLOCK_CLASSES && required > block_size(i) {
        lemma_class_from(required, i + 1);
    }
}

/// A request is served from the smallest class whose blocks hold both its
/// size and its alignment.
pub proof fn lemma_block_class_covers_request(size: int, align: int)
    ensures
        block_class(size, align) matches Some(c) ==> {
            &&& 0 <= c < BLOCK_CLASSES
            &&& block_size(c) >= size
            &&& block_size(c) >= align
            &&& forall|j: int| 0 <= j < c ==> block_size(j) < size || block_size(j) < align
        },
        block_class(size, align).is_none() ==> size > 4096 || align > 4096,
{
    let required = if size < align {
        align
    } else {
        size
    };
    lemma_class_from(required, 0);
    if class_from(required, 0) >= BLOCK_CLASSES {
        assert(block_size(9) < required);
    }
}

/// Freed blocks are reused: once a request of a class has been allocated
/// and freed, further allocate/free cycles of the same request take nothing
/// more from the first-fit allocator.
pub proof fn lemma_block_cycle_reuses(
    lists: Seq<Seq<u64>>,
    fallback: Seq<ListNode>,
    size: int,
    align: int,
)
    requires
        lists.len() == BLOCK_CLASSES,
        block_class(size, align).is_some(),
        spec_block_alloc(lists, fallback, size, align).0.is_some(),
    ensures
        ({
            let (p, l1, f1) = spec_block_alloc(lists, fallback, size, align);
            let (l2, f2) = spec_block_dealloc(l1, f1, p->0, size, align);
            let (q, l3, f3) = spec_block_alloc(l2, f2, size, align);
            &&& q == p
            &&& f3 == f1
            &&& l3 == l1
            &&& lists[block_class(size, align)->0].len() > 0 ==> f1 == fallback
        }),
{
    let c = block_class(size, align)->0;
    lemma_block_class_covers_request(size, align);
    let (p, l1, f1) = spec_block_alloc(lists, fallback, size, align);
    let (l2, f2) = spec_block_dealloc(l1, f1, p->0, size, align);
    assert(l2[c].len() > 0);
    assert(l2[c].last() == p->0);
    assert(l2[c].drop_last() =~= l1[c]);
    assert(l2.update(c, l2[c].drop_last()) =~= l1);
}

/// While a class has freed blocks, its requests take them back last freed
/// first and leave the first-fit allocator alone.
pub proof fn lemma_class_request_reuses_freed_block(
    lists: Seq<Seq<u64>>,
    fallback: Seq<ListNode>,
    size: int,
    align: int,
)
    requires
        lists.len() == BLOCK_CLASSES,
        block_class(size, align).is_some(),
        lists[block_class(size, align)->0].len() > 0,
    ensures
        ({
            let c = block_class(size, align)->0;
            let (p, l, f) = spec_block_alloc(lists, fallback, size, align);
            &&& p == Some(lists[c].last())
            &&& l == lists.update(c, lists[c].drop_last())
            &&& f == fallback
        }),
{
}

/// The block size of class `index`.
pub fn block_size_of(index: usize) -> (r: usize)
    requires
        index < BLOCK_CLASSES,
    ensures
        r == block_size(index as int),
{
    match index {
        0 => 8,
        1 => 16,
        2 => 32,
        3 => 64,
        4 => 128,
        5 => 256,
        6 => 512,
        7 => 1024,
        8 => 2048,
        _ => 4096,
    }
}

/// The smallest class that holds `max(size, align)` bytes, if any.
pub fn get_block_size_index(size: usize, align: usize) -> (r: Option<usize>)
    ensures
        match r {
            Some(i) => block_class(size as int, align as int) == Some(i as int),
            None => block_class(size as int, align as int).is_none(),
        },
{
    let required = if size < align {
        align
    } else {
        size
    };
    let mut i: usize = 0;
    while i < BLOCK_CLASSES
        invariant
            0 <= i <= BLOCK_CLASSES,
            required == if size < align {
                align
            } else {
                size
            },
            class_from(required as int, 0) == class_from(required as int, i as int),
        decreases BLOCK_CLASSES - i,
    {
        if required <= block_size_of(i) {
            assert(class_from(required as int, i as int) == i);
            return Some(i);
        }
        i = i + 1;
    }
    None
}

/// A free block of a size class: it holds only the link to the next one.
#[derive(Debug, Clone, Copy, PartialEq, Eq, Structural)]
pub struct Block {
    pub next: Option<u64>,
}

impl Block {
    pub fn new(next: Option<u64>) -> (r: Self)
        ensures
            r.next == next,
    {
        Block { next }
    }
}

/// Segregated free lists for the size classes, backed by the first-fit
/// allocator.
pub struct BlockAllocator {
    free_lists: Vec<Vec<u64>>,
    fallback_allocator: LinkedListAllocator,
}

impl BlockAllocator {
    /// The free blocks of each class; the last one is handed out first.
    pub closed spec fn lists(&self) -> Seq<Seq<u64>> {
        Seq::new(self.free_lists@.len(), |i: int| self.free_lists@[i]@)
    }

    /// The free list of the first-fit allocator behind the classes.
    pub closed spec fn fallback(&self) -> Seq<ListNode> {
        self.fallback_allocator.view()
    }

    pub closed spec fn wf(&self) -> bool {
        &&& self.free_lists@.len() == BLOCK_CLASSES
        &&& self.fallback_allocator.wf()
        &&& forall|c: int, k: int|
            0 <= c < BLOCK_CLASSES && 0 <= k < self.free_lists@[c]@.len() ==> block_wf(
                #[trigger] self.free_lists@[c]@[k],
                c,
            )
    }

    /// An allocator with no memory.
    pub fn new() -> (r: Self)
        ensures
            r.wf(),
            r.lists() == Seq::new(BLOCK_CLASSES as nat, |i: int| Seq::<u64>::empty()),
            r.fallback() == Seq::<ListNode>::empty(),
    {
        let mut free_lists: Vec<Vec<u64>> = Vec::new();
        let mut i: usize = 0;
        while i < BLOCK_CLASSES
            invariant
                0 <= i <= BLOCK_CLASSES,
                free_lists@.len() == i,
                forall|j: int| 0 <= j < i ==> (#[trigger] free_lists@[j])@ == Seq::<u64>::empty(),
            decreases BLOCK_CLASSES - i,
        {
            free_lists.push(Vec::new());
            i = i + 1;
        }
        let r = BlockAllocator { free_lists, fallback_allocator: LinkedListAllocator::new() };
        assert(r.lists() =~= Seq::new(BLOCK_CLASSES as nat, |i: int| Seq::<u64>::empty()));
        r
    }

    /// Hands the heap `[start, start + size)` to the first-fit allocator.
    pub fn init(&mut self, start: VirtualAddress, size: u64)
        requires
            old(self).wf(),
            region_wf(start.inner as int, size as int),
        ensures
            final(self).wf(),
            final(self).lists() == old(self).lists(),
            final(self).fallback() == seq![ListNode { start: start.inner, size }] + old(self).fallback(),
    {
        self.fallback_allocator.init(start, size);
    }

    /// Allocates a block for `size` bytes at the power-of-two `align`. An
    /// in-class request takes the last freed block of its class, or else one
    /// new block of exactly the class size from the first-fit allocator; a
    /// larger request goes to the first-fit allocator as it is. `None` when
    /// no memory is left.
    pub fn allocate(&mut self, size: usize, align: usize) -> (r: Option<VirtualAddress>)
        requires
            old(self).wf(),
            request_wf(size as int, align as int),
        ensures
            final(self).wf(),
            ({
                let (p, l, f) = spec_block_alloc(
                    old(self).lists(),
                    old(self).fallback(),
                    size as int,
                    align as int,
                );
                &&& match r {
                    Some(a) => p == Some(a.inner),
                    None => p.is_none(),
                }
                &&& final(self).lists() == l
                &&& final(self).fallback() == f
            }),
            r matches Some(a) ==> a.wf(),
            r matches Some(a) ==> block_for(a.inner, size as int, align as int) && a.inner % (
            align as u64) == 0,
    {
        let ghost lists0 = self.lists();
        proof {
            lemma_block_class_covers_request(size as int, align as int);
        }
        match get_block_size_index(size, align) {
            Some(index) => {
                let popped = self.free_lists[index].pop();
                match popped {
                    Some(addr) => {
                        proof {
                            assert(block_wf(old(self).free_lists@[index as int]@.last(), index as int));
                            lemma_block_size_power_of_two(index as int);
                            lemma_power_of_two_divides(align as int, block_size(index as int));
                            lemma_power_of_two_positive(align as int);
                            lemma_divides_trans(addr as int, block_size(index as int), align as int);
                            assert(self.lists() =~= lists0.update(
                                index as int,
                                lists0[index as int].drop_last(),
                            ));
                            assert forall|c: int, k: int|
                                0 <= c < BLOCK_CLASSES && 0 <= k < self.free_lists@[c]@.len() implies block_wf(
                                #[trigger] self.free_lists@[c]@[k],
                                c,
                            ) by {
                                assert(self.free_lists@[c]@[k] == old(self).free_lists@[c]@[k]);
                            }
                        }
                        Some(VirtualAddress { inner: addr })
                    },
                    None => {
                        let block_size = block_size_of(index);
                        proof {
                            assert(self.lists() =~= lists0);
                            lemma_block_size_power_of_two(index as int);
                            vstd::arithmetic::div_mod::lemma_mod_self_0(block_size as int);
                            lemma_power_of_two_divides(align as int, block_size as int);
                            lemma_power_of_two_positive(align as int);
                        }
                        let r = self.fallback_allocator.alloc_first_fit(block_size, block_size);
                        proof {
                            if let Some(a) = r {
                                lemma_divides_trans(a.inner as int, block_size as int, align as int);
                            }
                        }
                        r
                    },
                }
            },
            None => {
                proof {
                    lemma_power_of_two_positive(align as int);
                }
                self.fallback_allocator.alloc_first_fit(size, align)
            },
        }
    }

    /// Takes back the block at `ptr` of the request (`size`, `align`): an
    /// in-class block goes on the free list of its class, a larger one back
    /// to the first-fit allocator. The block must be one that this allocator
    /// handed out for the same request.
    pub fn deallocate(&mut self, ptr: VirtualAddress, size: usize, align: usize)
        requires
            old(self).wf(),
            request_wf(size as int, align as int),
            block_for(ptr.inner, size as int, align as int),
        ensures
            final(self).wf(),
            ({
                let (l, f) = spec_block_dealloc(
                    old(self).lists(),
                    old(self).fallback(),
                    ptr.inner,
                    size as int,
                    align as int,
                );
                &&& final(self).lists() == l
                &&& final(self).fallback() == f
            }),
    {
        let ghost lists0 = self.lists();
        proof {
            lemma_block_class_covers_request(size as int, align as int);
        }
        match get_block_size_index(size, align) {
            Some(index) => {
                self.free_lists[index].push(ptr.inner);
                proof {
                    assert(block_wf(ptr.inner, index as int));
                    assert(self.lists() =~= lists0.update(index as int, lists0[index as int].push(ptr.inner)));
                    assert forall|c: int, k: int|
                        0 <= c < BLOCK_CLASSES && 0 <= k < self.free_lists@[c]@.len() implies block_wf(
                        #[trigger] self.free_lists@[c]@[k],
                        c,
                    ) by {
                        if c != index || k < old(self).free_lists@[c]@.len() {
                            assert(self.free_lists@[c]@[k] == old(self).free_lists@[c]@[k]);
                        }
                    }
                }
            },
            None => {
                self.fallback_allocator.free(ptr, size, align);
                proof {
                    assert(self.lists() =~= lists0);
                }
            },
        }
    }

    /// A copy of the first-fit allocator's free list, head first.
    pub fn fallback_regions(&self) -> (r: Vec<ListNode>)
        ensures
            r@ == self.fallback(),
    {
        self.fallback_allocator.free_regions()
    }
}

} // verus!
