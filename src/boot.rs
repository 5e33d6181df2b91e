//! The boot-time frame allocator over the firmware's usable memory regions,
//! and the mapping of the kernel heap with the frames it hands out.
use vstd::prelude::*;
use crate::address::{
    PhysicalAddress,
    align_down_spec, lemma_align_down, VirtualAddress, CANONICAL_HIGH_START, CANONICAL_LOW_END,
    KERNEL_BASE_ADDRESS, PHYSICAL_ADDRESS_LIMIT,
};
use crate::frame::{PhysicalFrame, VirtualPage};
use crate::table::{lemma_offset_keeps_indices, FrameAllocator, MapToError, MappedPageTable};
use crate::entry::PageTableEntryFlags;
use crate::block::BlockAllocator;
use crate::linked_list::ListNode;

verus! {

/// Where the kernel heap starts, as an offset from the kernel base.
pub const KERNEL_HEAP_START: u64 = 0xDEAD_BEEF;

/// The size of the kernel heap in bytes.
pub const KERNEL_HEAP_SIZE: u64 = 0x20_0000;

/// The first 8-byte-aligned address of the kernel heap.
pub const HEAP_FIRST_BYTE: u64 = 0xFFFF_8880_DEAD_BEF0;

/// The bytes of the kernel heap from `HEAP_FIRST_BYTE` on.
pub const HEAP_USABLE_SIZE: u64 = 0x1F_FFFF;

/// What the firmware says a region of physical memory is.
#[derive(Debug, Clone, Copy, PartialEq, Eq, Structural)]
pub enum MemoryRegionKind {
    /// Free for the kernel to use.
    Usable,
    /// In use by the boot loader or the kernel image.
    Bootloader,
    /// A kind of UEFI memory that is not handled.
    UnknownUefi(u32),
    /// A kind of BIOS memory that is not handled.
    UnknownBios(u32),
}

/// The physical memory `[start, end)` and its kind.
#[derive(Debug, Clone, Copy, PartialEq, Eq, Structural)]
pub struct MemoryRegion {
    pub start: u64,
    pub end: u64,
    pub kind: MemoryRegionKind,
}

/// The first frame boundary at or after the region's start.
pub open spec fn region_first_frame(region: MemoryRegion) -> int {
    if region.start % 4096 == 0 {
        region.start as int
    } else {
        region.start + 4096 - region.start % 4096
    }
}

/// How many whole frames lie inside the region.
pub open spec fn region_frame_count(region: MemoryRegion) -> nat {
    if region_first_frame(region) + 4096 <= region.end {
        ((region.end - region_first_frame(region)) / 4096) as nat
    } else {
        0
    }
}

/// The whole frames inside one region, in ascending order.
pub open spec fn region_frames(region: MemoryRegion) -> Seq<u64> {
    Seq::new(region_frame_count(region), |k: int| (region_first_frame(region) + 4096 * k) as u64)
}

/// The frames of the usable regions, in the order of the regions.
pub open spec fn usable_frames(regions: Seq<MemoryRegion>) -> Seq<u64>
    decreases regions.len(),
{
    if regions.len() == 0 {
        Seq::empty()
    } else {
        let rest = usable_frames(regions.drop_last());
        if regions.last().kind == MemoryRegionKind::Usable {
            rest + region_frames(regions.last())
        } else {
            rest
        }
    }
}

/// Every region lies below the 52-bit physical limit.
pub open spec fn regions_wf(regions: Seq<MemoryRegion>) -> bool {
    forall|i: int| 0 <= i < regions.len() ==> (#[trigger] regions[i]).end <= PHYSICAL_ADDRESS_LIMIT
}

proof fn lemma_usable_frames_prefix(regions: Seq<MemoryRegion>, i: int)
    requires
        0 <= i <= regions.len(),
    ensures
        usable_frames(regions.take(i)).len() <= usable_frames(regions).len(),
        forall|k: int|
            0 <= k < usable_frames(regions.take(i)).len() ==> #[trigger] usable_frames(regions)[k]
                == usable_frames(regions.take(i))[k],
    decreases regions.len(),
{
    if i == regions.len() {
        assert(regions.take(i) =~= regions);
    } else {
        let init = regions.drop_last();
        assert(regions.take(i) =~= init.take(i));
        lemma_usable_frames_prefix(init, i);
    }
}

proof fn lemma_usable_frames_step(regions: Seq<MemoryRegion>, i: int)
    requires
        0 <= i < regions.len(),
    ensures
        usable_frames(regions.take(i + 1)) == if regions[i].kind == MemoryRegionKind::Usable {
            usable_frames(regions.take(i)) + region_frames(regions[i])
        } else {
            usable_frames(regions.take(i))
        },
{
    let t = regions.take(i + 1);
    assert(t.drop_last() =~= regions.take(i));
    assert(t.last() == regions[i]);
}

proof fn lemma_region_frame(region: MemoryRegion, k: int)
    requires
        region.end <= PHYSICAL_ADDRESS_LIMIT,
        0 <= k < region_frame_count(region),
    ensures
        region.start <= region_first_frame(region) + 4096 * k,
        region_first_frame(region) + 4096 * k + 4096 <= region.end,
        (region_first_frame(region) + 4096 * k) % 4096 == 0,
        region_frames(region)[k] == region_first_frame(region) + 4096 * k,
{
    let f = region_first_frame(region);
    let c = region_frame_count(region) as int;
    assert(f % 4096 == 0);
    assert(c * 4096 <= region.end - f) by (nonlinear_arith)
        requires
            c == (region.end - f) / 4096,
            region.end - f >= 0,
    ;
    assert(4096 * k + 4096 <= 4096 * c) by (nonlinear_arith)
        requires
            k < c,
    ;
    assert((f + 4096 * k) % 4096 == 0) by (nonlinear_arith)
        requires
            f % 4096 == 0,
    ;
}

/// No region has more than 2^40 whole frames, so the whole list fits an
/// index of 128 bits.
proof fn lemma_usable_frames_bound(regions: Seq<MemoryRegion>)
    requires
        regions_wf(regions),
    ensures
        usable_frames(regions).len() <= regions.len() * 0x100_0000_0000,
    decreases regions.len(),
{
    if regions.len() > 0 {
        let init = regions.drop_last();
        assert(regions_wf(init)) by {
            assert forall|i: int| 0 <= i < init.len() implies (#[trigger] init[i]).end
                <= PHYSICAL_ADDRESS_LIMIT by {
                assert(init[i] == regions[i]);
            }
        }
        lemma_usable_frames_bound(init);
        let r = regions.last();
        assert(r.end <= PHYSICAL_ADDRESS_LIMIT);
        assert(region_frame_count(r) <= 0x100_0000_0000);
    }
}

/// How many pages hold a byte of `[start, end)`.
pub open spec fn page_count(start: u64, end: u64) -> int {
    if start < end {
        (align_down_spec(end - 1, 4096) - align_down_spec(start as int, 4096)) / 4096 + 1
    } else {
        0
    }
}

/// Hands out the frames of the usable regions one after the other and never
/// takes one back.
#[derive(Debug)]
pub struct BootFrameAllocator {
    memory_regions: Vec<MemoryRegion>,
    index: u128,
}

impl BootFrameAllocator {
    pub closed spec fn wf(&self) -> bool {
        &&& regions_wf(self.memory_regions@)
        &&& self.index <= usable_frames(self.memory_regions@).len()
    }

    /// The frames not handed out yet, in order.
    pub closed spec fn spec_upcoming(&self) -> Seq<u64> {
        usable_frames(self.memory_regions@).subrange(self.index as int, usable_frames(self.memory_regions@).len() as int)
    }

    /// Every frame this allocator hands out, in order.
    pub closed spec fn frames(&self) -> Seq<u64> {
        usable_frames(self.memory_regions@)
    }

    /// How many frames have been handed out.
    pub closed spec fn next_index(&self) -> int {
        self.index as int
    }

    pub fn new(memory_regions: Vec<MemoryRegion>) -> (r: Self)
        requires
            regions_wf(memory_regions@),
        ensures
            r.wf(),
            r.frames() == usable_frames(memory_regions@),
            r.next_index() == 0,
            r.spec_upcoming() == usable_frames(memory_regions@),
    {
        let r = BootFrameAllocator { memory_regions, index: 0 };
        assert(r.spec_upcoming() =~= usable_frames(r.memory_regions@));
        r
    }

    /// How many frames have been handed out.
    pub fn handed_out(&self) -> (r: u128)
        ensures
            r == self.next_index(),
    {
        self.index
    }

    /// The frame at position `n` of the usable frames, found by arithmetic on
    /// the region bounds.
    pub fn nth_usable_frame(&self, n: u128) -> (r: Option<PhysicalFrame>)
        requires
            self.wf(),
        ensures
            n < self.frames().len() ==> (r matches Some(f) && f.wf() && f.start() == self.frames()[n as int]),
            n >= self.frames().len() ==> r.is_none(),
    {
        let ghost regions = self.memory_regions@;
        let mut remaining: u128 = n;
        let mut i: usize = 0;
        while i < self.memory_regions.len()
            invariant
                self.wf(),
                regions == self.memory_regions@,
                0 <= i <= regions.len(),
                usable_frames(regions.take(i as int)).len() + remaining == n,
            decreases regions.len() - i,
        {
            let region = self.memory_regions[i];
            proof {
                lemma_usable_frames_step(regions, i as int);
                assert(region.end <= PHYSICAL_ADDRESS_LIMIT);
            }
            if region.kind == MemoryRegionKind::Usable && region.start < region.end {
                let rem = region.start % 4096;
                let first: u64 = if rem == 0 { region.start } else { region.start + (4096 - rem) };
                let count: u64 = if first < region.end && region.end - first >= 4096 {
                    (region.end - first) / 4096
                } else {
                    0
                };
                assert(count == region_frame_count(region));
                if remaining < count as u128 {
                    let k = remaining as u64;
                    proof {
                        lemma_region_frame(region, k as int);
                        lemma_usable_frames_prefix(regions, i + 1);
                        assert(usable_frames(regions.take(i + 1))[n as int] == region_frames(
                            region,
                        )[k as int]);
                    }
                    let raw = first + k * 4096;
                    return Some(PhysicalFrame { offset: PhysicalAddress { inner: raw } });
                }
                remaining = remaining - count as u128;
            }
            i = i + 1;
        }
        proof {
            assert(regions.take(regions.len() as int) =~= regions);
        }
        None
    }

    /// The next usable frame, or `None` once every usable frame is handed out.
    pub fn allocate_frame(&mut self) -> (r: Option<PhysicalFrame>)
        requires
            old(self).wf(),
        ensures
            final(self).wf(),
            final(self).frames() == old(self).frames(),
            old(self).next_index() < old(self).frames().len() ==> {
                &&& r matches Some(f)
                &&& f.wf()
                &&& f.start() == old(self).frames()[old(self).next_index()]
                &&& final(self).next_index() == old(self).next_index() + 1
            },
            old(self).next_index() >= old(self).frames().len() ==> r.is_none()
                && final(self).next_index() == old(self).next_index(),
            r matches Some(f) ==> f.wf(),
            old(self).spec_upcoming().len() == 0 ==> r.is_none() && final(self).spec_upcoming()
                == old(self).spec_upcoming(),
            old(self).spec_upcoming().len() > 0 ==> r == Some(
                PhysicalFrame { offset: PhysicalAddress { inner: old(self).spec_upcoming()[0] } },
            ) && final(self).spec_upcoming() == old(self).spec_upcoming().drop_first(),
    {
        let region_count = self.memory_regions.len();
        proof {
            lemma_usable_frames_bound(self.memory_regions@);
            assert(self.memory_regions@.len() * 0x100_0000_0000 < 0xFFFF_FFFF_FFFF_FFFF_FFFF_FFFF_FFFF_FFFF)
                by (nonlinear_arith)
                requires
                    self.memory_regions@.len() == region_count,
                    region_count <= usize::MAX,
            ;
        }
        let frame = self.nth_usable_frame(self.index);
        if frame.is_some() {
            self.index = self.index + 1;
        }
        proof {
            assert(final(self).spec_upcoming() =~= if old(self).spec_upcoming().len() > 0 {
                old(self).spec_upcoming().drop_first()
            } else {
                old(self).spec_upcoming()
            });
        }
        frame
    }

    /// Maps every page that holds a byte of `[start_addr, end_addr)` to the
    /// next frame of this allocator, present and writable, taking the frames
    /// of any tables needed on the way from it too. When a page of the range
    /// is mapped already, nothing is done and the error says so. A table
    /// frame that the allocator hands out twice, or no frame left, stops the
    /// work with that error.
    pub fn allocate_region(
        &mut self,
        page_table: &mut MappedPageTable,
        start_addr: VirtualAddress,
        end_addr: VirtualAddress,
    ) -> (r: Result<(), MapToError>)
        requires
            old(self).wf(),
            start_addr.wf(),
            end_addr.wf(),
            start_addr.inner <= end_addr.inner,
            end_addr.inner <= CANONICAL_LOW_END || start_addr.inner >= CANONICAL_HIGH_START,
        ensures
            final(self).wf(),
            forall|va: u64|
                old(page_table).translation(va).is_some() ==> #[trigger] final(page_table).translation(va)
                    == old(page_table).translation(va),
            r is Ok ==> forall|va: u64|
                start_addr.inner <= va < end_addr.inner ==> (
                #[trigger] final(page_table).translation(va)).is_some(),
            r matches Err(MapToError::PageAlreadyMapped) <==> start_addr.inner < end_addr.inner
                && exists|va: u64|
                align_down_spec(start_addr.inner as int, 4096) <= va < end_addr.inner && va % 4096
                    == 0 && (#[trigger] old(page_table).translation(va)).is_some(),
            r matches Err(MapToError::PageAlreadyMapped) ==> *final(self) == *old(self),
            r matches Err(MapToError::FrameAllocationFailed) ==> final(self).spec_upcoming().len()
                == 0,
            r matches Err(MapToError::FrameAlreadyInUse(k)) ==> final(page_table).has_table(k)
                && exists|j: int|
                0 <= j < old(self).spec_upcoming().len() - final(self).spec_upcoming().len() && old(
                    self,
                ).spec_upcoming()[j] == k,
            final(self).spec_upcoming().len() <= old(self).spec_upcoming().len(),
            final(self).spec_upcoming() == old(self).spec_upcoming().skip(
                old(self).spec_upcoming().len() - final(self).spec_upcoming().len(),
            ),
            (forall|va: u64|
                align_down_spec(start_addr.inner as int, 4096) <= va < end_addr.inner && va % 4096
                    == 0 ==> (#[trigger] old(page_table).translation(va)).is_none())
                && old(self).spec_upcoming().len() >= 4 * page_count(start_addr.inner, end_addr.inner)
                ==> r is Ok || r matches Err(MapToError::FrameAlreadyInUse(_)),
    {
        proof {
            assert(old(self).spec_upcoming().skip(0) =~= old(self).spec_upcoming());
        }
        if start_addr.inner == end_addr.inner {
            return Ok(());
        }
        let first = VirtualPage::from_address_aligned(start_addr);
        let last_byte = VirtualAddress { inner: end_addr.inner - 1 };
        let last = VirtualPage::from_address_aligned(last_byte);
        proof {
            lemma_align_down(start_addr.inner as int, 4096);
            lemma_align_down(last_byte.inner as int, 4096);
            assert(first.start() <= last.start()) by {
                vstd::arithmetic::div_mod::lemma_div_is_ordered(
                    start_addr.inner as int,
                    last_byte.inner as int,
                    4096,
                );
                assert((start_addr.inner as int / 4096) * 4096 <= (last_byte.inner as int / 4096)
                    * 4096) by (nonlinear_arith)
                    requires
                        start_addr.inner as int / 4096 <= last_byte.inner as int / 4096,
                ;
            }
            assert((last.start() - first.start()) % 4096 == 0) by (nonlinear_arith)
                requires
                    last.start() % 4096 == 0,
                    first.start() % 4096 == 0,
                    last.start() >= first.start(),
            ;
        }
        let count: u64 = (last.offset.inner - first.offset.inner) / 4096 + 1;
        proof {
            assert(first.start() + 4096 * count == last.start() + 4096) by (nonlinear_arith)
                requires
                    count == (last.start() - first.start()) / 4096 + 1,
                    (last.start() - first.start()) % 4096 == 0,
            ;
        }
        // Every page of the range must be free before anything is mapped.
        let mut page = first;
        let mut i: u64 = 0;
        while i < count
            invariant
                first.wf(),
                last.wf(),
                first.start() <= last.start(),
                first.start() + 4096 * count == last.start() + 4096,
                last.start() <= CANONICAL_LOW_END || first.start() >= CANONICAL_HIGH_START,
                0 <= i <= count,
                page.wf(),
                i < count ==> page.start() == first.start() + 4096 * i,
                *page_table == *old(page_table),
                *self == *old(self),
                self.wf(),
                start_addr.inner < end_addr.inner,
                first.start() == align_down_spec(start_addr.inner as int, 4096),
                last.start() <= end_addr.inner - 1 < last.start() + 4096,
                forall|va: u64|
                    first.start() <= va < first.start() + 4096 * i && va % 4096 == 0 ==> (
                    #[trigger] old(page_table).translation(va)).is_none(),
            decreases count - i,
        {
            if page_table.translate_virtual_address(page.offset).is_some() {
                proof {
                    assert(page.start() < end_addr.inner);
                    assert(old(page_table).translation(page.start()).is_some());
                }
                return Err(MapToError::PageAlreadyMapped);
            }
            proof {
                assert forall|va: u64|
                    first.start() <= va < first.start() + 4096 * (i + 1) && va % 4096 == 0 implies (
                    #[trigger] old(page_table).translation(va)).is_none() by {
                    if va >= first.start() + 4096 * i {
                        assert(va == page.start()) by (nonlinear_arith)
                            requires
                                va % 4096 == 0,
                                page.start() % 4096 == 0,
                                page.start() <= va < page.start() + 4096,
                        ;
                    }
                }
            }
            if i + 1 < count {
                proof {
                    assert(page.start() + 4096 <= last.start()) by (nonlinear_arith)
                        requires
                            page.start() == first.start() + 4096 * i,
                            i + 1 < count,
                            first.start() + 4096 * count == last.start() + 4096,
                    ;
                }
                page = page.advance(1);
            }
            i = i + 1;
        }
        let entry_flags = PageTableEntryFlags::PRESENT | PageTableEntryFlags::WRITE_ACCESS;
        let table_flags = entry_flags;
        let ghost up0 = self.spec_upcoming();
        let mut page = first;
        let mut i: u64 = 0;
        while i < count
            invariant
                self.wf(),
                first.wf(),
                last.wf(),
                first.start() <= last.start(),
                first.start() + 4096 * count == last.start() + 4096,
                last.start() <= CANONICAL_LOW_END || first.start() >= CANONICAL_HIGH_START,
                0 <= i <= count,
                page.wf(),
                i < count ==> page.start() == first.start() + 4096 * i,
                up0 == old(self).spec_upcoming(),
                first.start() == align_down_spec(start_addr.inner as int, 4096),
                last.start() <= end_addr.inner - 1 < last.start() + 4096,
                start_addr.inner < end_addr.inner,
                forall|va: u64|
                    first.start() <= va < first.start() + 4096 * count && va % 4096 == 0 ==> (
                    #[trigger] old(page_table).translation(va)).is_none(),
                self.spec_upcoming().len() <= up0.len(),
                self.spec_upcoming() == up0.skip(up0.len() - self.spec_upcoming().len()),
                up0.len() - self.spec_upcoming().len() <= 4 * i,
                count == page_count(start_addr.inner, end_addr.inner),
                forall|va: u64|
                    old(page_table).translation(va).is_some() ==> #[trigger] page_table.translation(
                        va,
                    ) == old(page_table).translation(va),
                forall|va: u64|
                    first.start() <= va < first.start() + 4096 * i ==> (
                    #[trigger] page_table.translation(va)).is_some(),
            decreases count - i,
        {
            let ghost before = *page_table;
            let ghost u_before = self.spec_upcoming();
            if page_table.translate_virtual_address(page.offset).is_none() {
                let frame = match self.allocate_frame() {
                    Some(f) => f,
                    None => {
                        proof {
                            assert(up0.len() < 4 * count) by (nonlinear_arith)
                                requires
                                    up0.len() - u_before.len() <= 4 * i,
                                    u_before.len() == 0,
                                    i < count,
                            ;
                        }
                        return Err(MapToError::FrameAllocationFailed);
                    },
                };
                let ghost u_mid = self.spec_upcoming();
                proof {
                    assert(u_mid == u_before.drop_first());
                    assert(u_mid =~= up0.skip(up0.len() - u_mid.len()));
                }
                let mapped = page_table.map_to(page, frame, entry_flags, table_flags, self);
                proof {
                    let u_after = self.spec_upcoming();
                    let n = before.missing_tables(page.start());
                    match mapped {
                        Err(MapToError::FrameAlreadyInUse(k)) => {
                            let j = choose|j: int|
                                0 <= j < n && j < u_mid.len() && u_mid[j] == k && u_after
                                    == u_mid.skip(j + 1);
                            assert(u_after.len() == u_mid.len() - (j + 1));
                            assert(up0[up0.len() - u_mid.len() + j] == k);
                            assert(u_after =~= up0.skip(up0.len() - u_after.len()));
                        },
                        Ok(()) => {
                            assert(u_after =~= up0.skip(up0.len() - u_after.len()));
                        },
                        Err(MapToError::FrameAllocationFailed) => {
                            assert(up0.len() < 4 * count) by (nonlinear_arith)
                                requires
                                    up0.len() - u_before.len() <= 4 * i,
                                    u_mid.len() == u_before.len() - 1,
                                    u_mid.len() < n,
                                    n <= 3,
                                    i < count,
                            ;
                        },
                        _ => {},
                    }
                }
                if mapped.is_err() {
                    return mapped;
                }
                proof {
                    assert forall|va: u64|
                        first.start() <= va < first.start() + 4096 * (i + 1) implies (
                        #[trigger] page_table.translation(va)).is_some() by {
                        if va < first.start() + 4096 * i {
                            assert(before.translation(va).is_some());
                        } else {
                            let off = (va - page.start()) as u64;
                            assert(page_table.translation((page.start() + off) as u64) == Some(
                                (frame.start() + off) as u64,
                            ));
                        }
                    }
                }
            } else {
                proof {
                    let p = page.start();
                    assert forall|va: u64|
                        first.start() <= va < first.start() + 4096 * (i + 1) implies (
                        #[trigger] page_table.translation(va)).is_some() by {
                        if va >= first.start() + 4096 * i {
                            let off = (va - p) as u64;
                            page_table.lemma_translation(p);
                            page_table.lemma_translation(va);
                            lemma_offset_keeps_indices(p, off);
                            assert((p + off) as u64 == va);
                            assert(page_table.walk_entry(va, 4) == page_table.walk_entry(p, 4));
                            assert(page_table.walk_entry(va, 3) == page_table.walk_entry(p, 3));
                            assert(page_table.walk_entry(va, 2) == page_table.walk_entry(p, 2));
                            assert(page_table.walk_entry(va, 1) == page_table.walk_entry(p, 1));
                        }
                    }
                }
            }
            if i + 1 < count {
                proof {
                    assert(page.start() + 4096 <= last.start()) by (nonlinear_arith)
                        requires
                            page.start() == first.start() + 4096 * i,
                            i + 1 < count,
                            first.start() + 4096 * count == last.start() + 4096,
                    ;
                }
                page = page.advance(1);
            }
            i = i + 1;
        }
        Ok(())
    }
}

/// Maps the heap `[KERNEL_BASE_ADDRESS + start, KERNEL_BASE_ADDRESS + start +
/// size)` with frames of `boot_allocator`, as `allocate_region` does.
pub fn map_frames(
    page_table: &mut MappedPageTable,
    boot_allocator: &mut BootFrameAllocator,
    start: u64,
    size: u64,
) -> (r: Result<(), MapToError>)
    requires
        old(boot_allocator).wf(),
        start + KERNEL_BASE_ADDRESS + size <= u64::MAX,
    ensures
        final(boot_allocator).wf(),
        forall|va: u64|
            old(page_table).translation(va).is_some() ==> #[trigger] final(page_table).translation(va)
                == old(page_table).translation(va),
        r is Ok ==> forall|va: u64|
            start + KERNEL_BASE_ADDRESS <= va < start + KERNEL_BASE_ADDRESS + size ==> (
            #[trigger] final(page_table).translation(va)).is_some(),
        r matches Err(MapToError::PageAlreadyMapped) <==> size > 0 && exists|va: u64|
            align_down_spec(start + KERNEL_BASE_ADDRESS, 4096) <= va < start + KERNEL_BASE_ADDRESS
                + size && va % 4096 == 0 && (#[trigger] old(page_table).translation(va)).is_some(),
        r matches Err(MapToError::PageAlreadyMapped) ==> *final(boot_allocator) == *old(boot_allocator),
        r matches Err(MapToError::FrameAllocationFailed) ==> final(boot_allocator).spec_upcoming().len()
            == 0,
        r matches Err(MapToError::FrameAlreadyInUse(k)) ==> final(page_table).has_table(k)
            && exists|j: int|
            0 <= j < old(boot_allocator).spec_upcoming().len() - final(boot_allocator).spec_upcoming().len()
                && old(boot_allocator).spec_upcoming()[j] == k,
        final(boot_allocator).spec_upcoming().len() <= old(boot_allocator).spec_upcoming().len(),
        (forall|va: u64|
            align_down_spec(start + KERNEL_BASE_ADDRESS, 4096) <= va < start + KERNEL_BASE_ADDRESS + size
                && va % 4096 == 0 ==> (#[trigger] old(page_table).translation(va)).is_none())
            && old(boot_allocator).spec_upcoming().len() >= 4 * page_count(
            (start + KERNEL_BASE_ADDRESS) as u64,
            (start + KERNEL_BASE_ADDRESS + size) as u64,
        ) ==> r is Ok || r matches Err(MapToError::FrameAlreadyInUse(_)),
{
    let start_addr = VirtualAddress::with_kernel_base_offset(start);
    let end_addr = start_addr.add_checked(size);
    boot_allocator.allocate_region(page_table, start_addr, end_addr)
}

/// Maps the kernel heap with frames of `boot_allocator` and hands its
/// 8-byte-aligned part to `heap_allocator`.
pub fn init_kheap(
    page_table: &mut MappedPageTable,
    heap_allocator: &mut BlockAllocator,
    boot_allocator: &mut BootFrameAllocator,
) -> (r: Result<(), MapToError>)
    requires
        old(boot_allocator).wf(),
        old(heap_allocator).wf(),
    ensures
        final(boot_allocator).wf(),
        forall|va: u64|
            old(page_table).translation(va).is_some() ==> #[trigger] final(page_table).translation(va)
                == old(page_table).translation(va),
        final(heap_allocator).wf(),
        r is Ok ==> {
            &&& forall|va: u64|
                KERNEL_HEAP_START + KERNEL_BASE_ADDRESS <= va < KERNEL_HEAP_START + KERNEL_BASE_ADDRESS
                    + KERNEL_HEAP_SIZE ==> (#[trigger] final(page_table).translation(va)).is_some()
            &&& final(heap_allocator).lists() == old(heap_allocator).lists()
            &&& final(heap_allocator).fallback() == seq![
                ListNode { start: HEAP_FIRST_BYTE, size: HEAP_USABLE_SIZE },
            ] + old(heap_allocator).fallback()
        },
        r is Err ==> *final(heap_allocator) == *old(heap_allocator),
        r matches Err(MapToError::PageAlreadyMapped) <==> exists|va: u64|
            align_down_spec(KERNEL_HEAP_START + KERNEL_BASE_ADDRESS, 4096) <= va < KERNEL_HEAP_START
                + KERNEL_BASE_ADDRESS + KERNEL_HEAP_SIZE && va % 4096 == 0 && (#[trigger] old(
                page_table,
            ).translation(va)).is_some(),
        r matches Err(MapToError::FrameAllocationFailed) ==> final(boot_allocator).spec_upcoming().len()
            == 0,
        r matches Err(MapToError::FrameAlreadyInUse(k)) ==> final(page_table).has_table(k)
            && exists|j: int|
            0 <= j < old(boot_allocator).spec_upcoming().len() - final(boot_allocator).spec_upcoming().len()
                && old(boot_allocator).spec_upcoming()[j] == k,
        (forall|va: u64|
            align_down_spec(KERNEL_HEAP_START + KERNEL_BASE_ADDRESS, 4096) <= va < KERNEL_HEAP_START
                + KERNEL_BASE_ADDRESS + KERNEL_HEAP_SIZE && va % 4096 == 0 ==> (#[trigger] old(
                page_table,
            ).translation(va)).is_none()) && old(boot_allocator).spec_upcoming().len() >= 4
            * page_count(
            (KERNEL_HEAP_START + KERNEL_BASE_ADDRESS) as u64,
            (KERNEL_HEAP_START + KERNEL_BASE_ADDRESS + KERNEL_HEAP_SIZE) as u64,
        ) ==> r is Ok || r matches Err(MapToError::FrameAlreadyInUse(_)),
{
    let mapped = map_frames(page_table, boot_allocator, KERNEL_HEAP_START, KERNEL_HEAP_SIZE);
    if mapped.is_ok() {
        proof {
            assert(crate::address::is_power_of_two(8)) by {
                reveal_with_fuel(crate::address::is_power_of_two, 4);
            }
        }
        let heap_start = VirtualAddress::with_kernel_base_offset(KERNEL_HEAP_START).align_up(8);
        let skipped = heap_start.inner - (KERNEL_HEAP_START + KERNEL_BASE_ADDRESS);
        heap_allocator.init(heap_start, KERNEL_HEAP_SIZE - skipped);
    }
    mapped
}

impl FrameAllocator for BootFrameAllocator {
    open spec fn inv(&self) -> bool {
        self.wf()
    }

    open spec fn upcoming(&self) -> Seq<u64> {
        self.spec_upcoming()
    }

    fn allocate_frame(&mut self) -> (r: Option<PhysicalFrame>) {
        BootFrameAllocator::allocate_frame(self)
    }
}

} // verus!
