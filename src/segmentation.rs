//! The global descriptor table, its segment descriptors and selectors, and
//! the task state segment with its stack tables.
use vstd::prelude::*;
use crate::address::{is_canonical, VirtualAddress};

verus! {

/// Kernel-space privilege ring.
pub const DPL_0: u8 = 0x00;

/// User-space privilege ring.
pub const DPL_3: u8 = 0x03;

/// The size of each interrupt stack.
pub const STACK_SIZE: u64 = 0x5000;

pub const PRIVILEGE_LEVEL_ZERO_STACK_TABLE_INDEX: usize = 0;
pub const PRIVILEGE_LEVEL_THREE_STACK_TABLE_INDEX: usize = 2;
pub const DOUBLE_FAULT_STACK_TABLE_INDEX: usize = 0;
pub const PAGE_FAULT_STACK_TABLE_INDEX: usize = 1;

/// The size in bytes of a task state segment.
pub const TSS_SIZE: u64 = 104;

/// The size in bytes of a segment descriptor.
pub const SEGMENT_DESCRIPTOR_SIZE: u64 = 8;

/// The number of descriptors in the table.
pub const GDT_ENTRIES: usize = 7;

/// An 8-byte segment descriptor, field by field.
#[derive(Debug, Clone, Copy, PartialEq, Eq, Structural)]
pub struct SegmentDescriptor {
    pub limit_low: u16,
    pub base_low: u16,
    pub base_middle: u8,
    pub access: u8,
    pub granularity: u8,
    pub base_high: u8,
}

/// A flat 64-bit segment with the given access byte.
pub open spec fn flat_segment(access: u8) -> SegmentDescriptor {
    SegmentDescriptor {
        limit_low: 0xFFFF,
        base_low: 0,
        base_middle: 0,
        access,
        granularity: 0xAF,
        base_high: 0,
    }
}

impl SegmentDescriptor {
    pub fn null_segment_descriptor() -> (r: Self)
        ensures
            r == (SegmentDescriptor {
                limit_low: 0,
                base_low: 0,
                base_middle: 0,
                access: 0,
                granularity: 0,
                base_high: 0,
            }),
    {
        SegmentDescriptor {
            limit_low: 0x0000,
            base_low: 0x0000,
            base_middle: 0x00,
            access: 0x00,
            granularity: 0x00,
            base_high: 0x00,
        }
    }

    pub fn kernel_code_segment_descriptor() -> (r: Self)
        ensures
            r == flat_segment(0x9A),
    {
        SegmentDescriptor {
            limit_low: 0xFFFF,
            base_low: 0x0000,
            base_middle: 0x00,
            access: 0x9A,
            granularity: 0xAF,
            base_high: 0x00,
        }
    }

    pub fn kernel_data_segment_descriptor() -> (r: Self)
        ensures
            r == flat_segment(0x92),
    {
        SegmentDescriptor {
            limit_low: 0xFFFF,
            base_low: 0x0000,
            base_middle: 0x00,
            access: 0x92,
            granularity: 0xAF,
            base_high: 0x00,
        }
    }

    pub fn user_code_segment_descriptor() -> (r: Self)
        ensures
            r == flat_segment(0xFA),
    {
        SegmentDescriptor {
            limit_low: 0xFFFF,
            base_low: 0x0000,
            base_middle: 0x00,
            access: 0xFA,
            granularity: 0xAF,
            base_high: 0x00,
        }
    }

    pub fn user_data_segment_descriptor() -> (r: Self)
        ensures
            r == flat_segment(0xF2),
    {
        SegmentDescriptor {
            limit_low: 0xFFFF,
            base_low: 0x0000,
            base_middle: 0x00,
            access: 0xF2,
            granularity: 0xAF,
            base_high: 0x00,
        }
    }

    /// The two descriptors of the system segment for the task state
    /// segment at `tss_address`: the low one carries bits 0..31 of the
    /// address and the limit, the high one bits 32..63.
    pub fn tss_system_segment(tss_address: u64) -> (r: (Self, Self))
        ensures
            r.0.limit_low == TSS_SIZE - 1,
            r.0.base_low == tss_address % 0x1_0000,
            r.0.base_middle == (tss_address / 0x1_0000) % 0x100,
            r.0.access == 0xE9,
            r.0.granularity == 0,
            r.0.base_high == (tss_address / 0x100_0000) % 0x100,
            r.1.limit_low == (tss_address / 0x1_0000_0000) % 0x1_0000,
            r.1.base_low == tss_address / 0x1_0000_0000_0000,
            r.1.base_middle == 0 && r.1.access == 0 && r.1.granularity == 0 && r.1.base_high == 0,
    {
        let low = SegmentDescriptor {
            limit_low: (TSS_SIZE - 1) as u16,
            base_low: (tss_address % 0x1_0000) as u16,
            base_middle: ((tss_address / 0x1_0000) % 0x100) as u8,
            access: 0xE9,
            granularity: 0x00,
            base_high: ((tss_address / 0x100_0000) % 0x100) as u8,
        };
        let high = SegmentDescriptor {
            limit_low: ((tss_address / 0x1_0000_0000) % 0x1_0000) as u16,
            base_low: (tss_address / 0x1_0000_0000_0000) as u16,
            base_middle: 0,
            access: 0,
            granularity: 0,
            base_high: 0,
        };
        (low, high)
    }

    /// The privilege bits (5 and 6) of the access byte, in place.
    pub fn get_requested_privilege_level(&self) -> (r: u8)
        ensures
            r == self.access & 0x60,
    {
        let rpl_bit_mask: u8 = 0x60;
        self.access & rpl_bit_mask
    }
}

/// A segment selector: the descriptor index above the privilege bits.
#[derive(Debug, Clone, Copy, PartialEq, Eq, Structural)]
pub struct SegmentSelector {
    pub inner: u16,
}

impl SegmentSelector {
    pub fn new(index: u16, dpl: u8) -> (r: SegmentSelector)
        ensures
            r.inner == (index << 3u16) | (dpl as u16),
    {
        SegmentSelector { inner: (index << 3u16) | (dpl as u16) }
    }
}

/// The selectors of the descriptors that the kernel installs.
#[derive(Debug, Clone, Copy, PartialEq, Eq, Structural)]
pub struct Selectors {
    pub null_segment_selector: SegmentSelector,
    pub kernel_code_selector: SegmentSelector,
    pub kernel_data_selector: SegmentSelector,
    pub user_code_selector: SegmentSelector,
    pub user_data_selector: SegmentSelector,
    pub tss_selector: SegmentSelector,
}

/// What the processor loads the table from: its last byte offset and base.
#[derive(Debug, Clone, Copy, PartialEq, Eq, Structural)]
pub struct GdtPointer {
    pub limit: u16,
    pub base: VirtualAddress,
}

/// The global descriptor table.
#[derive(Debug, Clone, Copy)]
pub struct GlobalDescriptorTable {
    descriptor_table: [SegmentDescriptor; 7],
}

impl GlobalDescriptorTable {
    pub closed spec fn view(&self) -> Seq<SegmentDescriptor> {
        self.descriptor_table@
    }

    /// A table of null descriptors.
    pub fn new() -> (r: GlobalDescriptorTable)
        ensures
            r.view().len() == GDT_ENTRIES,
            forall|i: int|
                0 <= i < GDT_ENTRIES ==> #[trigger] r.view()[i] == (SegmentDescriptor {
                    limit_low: 0,
                    base_low: 0,
                    base_middle: 0,
                    access: 0,
                    granularity: 0,
                    base_high: 0,
                }),
    {
        GlobalDescriptorTable { descriptor_table: [SegmentDescriptor::null_segment_descriptor(); 7] }
    }

    /// The selector of descriptor `index`, with the privilege bits of its
    /// access byte.
    pub fn get_entry(&self, index: usize) -> (r: SegmentSelector)
        requires
            index < GDT_ENTRIES,
        ensures
            r.inner == ((index as u16) << 3u16) | ((self.view()[index as int].access & 0x60) as u16),
    {
        let descriptor = self.descriptor_table[index];
        let segment_dpl = descriptor.get_requested_privilege_level();
        SegmentSelector::new(index as u16, segment_dpl)
    }

    /// Installs `segment_desc` at `index` and returns its selector with `dpl`.
    pub fn set_entry(&mut self, index: usize, segment_desc: SegmentDescriptor, dpl: u8) -> (r:
        SegmentSelector)
        requires
            index < GDT_ENTRIES,
        ensures
            final(self).view() == old(self).view().update(index as int, segment_desc),
            r.inner == ((index as u16) << 3u16) | (dpl as u16),
    {
        self.descriptor_table[index] = segment_desc;
        SegmentSelector::new(index as u16, dpl)
    }

    /// The pointer to load for this table when it lies at `base`.
    pub fn address(&self, base: VirtualAddress) -> (r: GdtPointer)
        ensures
            r.limit == GDT_ENTRIES * SEGMENT_DESCRIPTOR_SIZE - 1,
            r.base == base,
    {
        let limit = (GDT_ENTRIES as u64 * SEGMENT_DESCRIPTOR_SIZE - 1) as u16;
        GdtPointer { limit, base }
    }
}

/// The table that the kernel loads, with the selectors of its descriptors.
#[derive(Debug, Clone, Copy)]
pub struct GDTWithSegmentSelectors {
    table: GlobalDescriptorTable,
    pub selectors: Selectors,
}

impl GDTWithSegmentSelectors {
    /// Null, kernel code and data, user code and data, and the two halves
    /// of the system segment for the task state segment at `tss_address`.
    pub fn new(tss_address: u64) -> (r: Self)
        ensures
            r.table().view()[1] == flat_segment(0x9A),
            r.table().view()[2] == flat_segment(0x92),
            r.table().view()[3] == flat_segment(0xFA),
            r.table().view()[4] == flat_segment(0xF2),
            r.table().view()[5].access == 0xE9,
            r.spec_selectors().null_segment_selector.inner == 0,
            r.spec_selectors().kernel_code_selector.inner == 8,
            r.spec_selectors().kernel_data_selector.inner == 16,
            r.spec_selectors().user_code_selector.inner == 27,
            r.spec_selectors().user_data_selector.inner == 35,
            r.spec_selectors().tss_selector.inner == 40,
    {
        let mut gdt = GlobalDescriptorTable::new();
        let null_segment_selector = gdt.get_entry(0);
        let kernel_code_selector = gdt.set_entry(1, SegmentDescriptor::kernel_code_segment_descriptor(), DPL_0);
        let kernel_data_selector = gdt.set_entry(2, SegmentDescriptor::kernel_data_segment_descriptor(), DPL_0);
        let user_code_selector = gdt.set_entry(3, SegmentDescriptor::user_code_segment_descriptor(), DPL_3);
        let user_data_selector = gdt.set_entry(4, SegmentDescriptor::user_data_segment_descriptor(), DPL_3);
        let (tss_low, tss_high) = SegmentDescriptor::tss_system_segment(tss_address);
        let tss_selector = gdt.set_entry(5, tss_low, DPL_0);
        let _ = gdt.set_entry(6, tss_high, DPL_0);
        proof {
            assert(0u8 & 0x60u8 == 0u8) by (bit_vector);
            assert(((0u16 << 3u16) | 0u16) == 0u16) by (bit_vector);
            assert(((1u16 << 3u16) | 0u16) == 8u16) by (bit_vector);
            assert(((2u16 << 3u16) | 0u16) == 16u16) by (bit_vector);
            assert(((3u16 << 3u16) | 3u16) == 27u16) by (bit_vector);
            assert(((4u16 << 3u16) | 3u16) == 35u16) by (bit_vector);
            assert(((5u16 << 3u16) | 0u16) == 40u16) by (bit_vector);
        }
        let selectors = Selectors {
            null_segment_selector,
            kernel_code_selector,
            kernel_data_selector,
            user_code_selector,
            user_data_selector,
            tss_selector,
        };
        GDTWithSegmentSelectors { table: gdt, selectors }
    }

    pub closed spec fn table(&self) -> GlobalDescriptorTable {
        self.table
    }

    pub closed spec fn spec_selectors(&self) -> Selectors {
        self.selectors
    }

    /// The pointer to load for the table when it lies at `base`.
    pub fn table_pointer(&self, base: VirtualAddress) -> (r: GdtPointer)
        ensures
            r.limit == GDT_ENTRIES * SEGMENT_DESCRIPTOR_SIZE - 1,
            r.base == base,
    {
        self.table.address(base)
    }
}

/// Which stack table of the task state segment.
#[derive(Debug, Clone, Copy, PartialEq, Eq, Structural)]
pub enum StackTableType {
    Privilege,
    Interrupt,
}

/// The 64-bit task state segment: the stacks that the processor switches
/// to on a privilege change or an interrupt.
#[derive(Debug, Clone, Copy)]
pub struct TaskStateSegment {
    reserved_1: u32,
    privilege_stack_table: [VirtualAddress; 3],
    reserved_2: u64,
    interrupt_stack_table: [VirtualAddress; 7],
    reserved_3: u64,
    reserved_4: u16,
    iomap_base: u16,
}

impl TaskStateSegment {
    pub closed spec fn privilege_stacks(&self) -> Seq<VirtualAddress> {
        self.privilege_stack_table@
    }

    pub closed spec fn interrupt_stacks(&self) -> Seq<VirtualAddress> {
        self.interrupt_stack_table@
    }

    pub closed spec fn spec_iomap_base(&self) -> u16 {
        self.iomap_base
    }

    /// All stacks zero; the I/O map base lies past the segment.
    pub fn new() -> (r: TaskStateSegment)
        ensures
            r.privilege_stacks() == seq![VirtualAddress { inner: 0 }; 3],
            r.interrupt_stacks() == seq![VirtualAddress { inner: 0 }; 7],
            r.spec_iomap_base() == TSS_SIZE - 1,
    {
        let r = TaskStateSegment {
            reserved_1: 0,
            privilege_stack_table: [VirtualAddress::zero(); 3],
            reserved_2: 0,
            interrupt_stack_table: [VirtualAddress::zero(); 7],
            reserved_3: 0,
            reserved_4: 0,
            iomap_base: (TSS_SIZE - 1) as u16,
        };
        assert(r.privilege_stacks() =~= seq![VirtualAddress { inner: 0 }; 3]);
        assert(r.interrupt_stacks() =~= seq![VirtualAddress { inner: 0 }; 7]);
        r
    }

    /// Points interrupt stack `stack_table_index` at the top of the stack
    /// that starts at `stack_start`.
    pub fn init_interrupt_stack_table(&mut self, stack_table_index: usize, stack_start: u64)
        requires
            stack_table_index < 7,
            stack_start + STACK_SIZE <= u64::MAX,
            is_canonical((stack_start + STACK_SIZE) as u64),
        ensures
            final(self).interrupt_stacks() == old(self).interrupt_stacks().update(
                stack_table_index as int,
                VirtualAddress { inner: (stack_start + STACK_SIZE) as u64 },
            ),
            final(self).privilege_stacks() == old(self).privilege_stacks(),
    {
        let stack_ptr = VirtualAddress::with_offset(stack_start, STACK_SIZE);
        self.interrupt_stack_table[stack_table_index] = stack_ptr;
    }

    /// Points privilege stack `stack_table_index` at the top of the stack
    /// that starts at `stack_start`.
    pub fn init_priviledge_stack_table(&mut self, stack_table_index: usize, stack_start: u64)
        requires
            stack_table_index < 3,
            stack_start + STACK_SIZE <= u64::MAX,
            is_canonical((stack_start + STACK_SIZE) as u64),
        ensures
            final(self).privilege_stacks() == old(self).privilege_stacks().update(
                stack_table_index as int,
                VirtualAddress { inner: (stack_start + STACK_SIZE) as u64 },
            ),
            final(self).interrupt_stacks() == old(self).interrupt_stacks(),
    {
        let stack_ptr = VirtualAddress::with_offset(stack_start, STACK_SIZE);
        self.privilege_stack_table[stack_table_index] = stack_ptr;
    }

    /// The top of interrupt stack `index`.
    pub fn interrupt_stack(&self, index: usize) -> (r: VirtualAddress)
        requires
            index < 7,
        ensures
            r == self.interrupt_stacks()[index as int],
    {
        self.interrupt_stack_table[index]
    }
}

} // verus!
