//! The interrupt descriptor table, its gate descriptors and options, and
//! the frames that the processor pushes on an exception.
use vstd::prelude::*;
use crate::address::VirtualAddress;
use crate::process::RegisterState;
use crate::segmentation::SegmentSelector;

verus! {

/// The number of gates in the table.
pub const IDT_ENTRIES: usize = 256;

/// The size in bytes of a gate descriptor.
pub const GATE_DESCRIPTOR_SIZE: u64 = 16;

/// The vector numbers of the interrupts that the kernel handles.
pub struct InterruptVector;

impl InterruptVector {
    pub const DIVIDE_ERROR: usize = 0x00;
    pub const DEBUG_EXCEPTION: usize = 0x01;
    pub const NMI: usize = 0x02;
    pub const BREAKPOINT: usize = 0x03;
    pub const OVERFLOW: usize = 0x04;
    pub const BOUND_RANGE_EXCEEDED: usize = 0x05;
    pub const INVALID_OPCODE: usize = 0x06;
    pub const DEVICE_NOT_AVAILABLE: usize = 0x07;
    pub const DOUBLE_FAULT: usize = 0x08;
    pub const COPROCESSOR_SEGMENT_OVERRUN: usize = 0x09;
    pub const INVALID_TSS: usize = 0x0A;
    pub const SEGMENT_NOT_PRESENT: usize = 0x0B;
    pub const STACK_SEGMENT_FAULT: usize = 0x0C;
    pub const GENERAL_PROTECTION: usize = 0x0D;
    pub const PAGE_FAULT: usize = 0x0E;
    pub const X87_FLOATING_POINT_ERROR: usize = 0x10;
    pub const ALIGNMENT_CHECK: usize = 0x11;
    pub const MACHINE_CHECK: usize = 0x12;
    pub const SIMD_FLOATING_POINT_EXCEPTION: usize = 0x13;
    pub const VIRTUALIZATION_EXCEPTION: usize = 0x14;
    pub const APIC_TIMER: usize = 0x20;
    pub const APIC_SPURIOUS: usize = 0xFF;
    pub const SYSCALL: usize = 0x80;
}

/// The type, privilege, present and stack bits of a gate.
#[derive(Debug, Clone, Copy, PartialEq, Eq, Structural)]
pub struct GateOptions {
    inner: u16,
}

impl GateOptions {
    pub closed spec fn spec_bits(&self) -> u16 {
        self.inner
    }

    /// The raw option bits.
    pub fn bits(&self) -> (r: u16)
        ensures
            r == self.spec_bits(),
    {
        self.inner
    }

    /// An interrupt gate, not present: the processor masks interrupts while
    /// its handler runs.
    pub fn minimal() -> (r: Self)
        ensures
            r.spec_bits() == 0x0E00,
    {
        GateOptions { inner: 0x0E00 }
    }

    pub fn set_present(self) -> (r: Self)
        ensures
            r.spec_bits() == self.spec_bits() | 0x8000,
    {
        GateOptions { inner: self.inner | 0x8000 }
    }

    /// Clears the privilege bits 13 and 14.
    pub fn dpl_0(self) -> (r: Self)
        ensures
            r.spec_bits() == self.spec_bits() & 0x9FFF,
    {
        GateOptions { inner: self.inner & 0x9FFF }
    }

    /// Sets the privilege bits 13 and 14.
    pub fn dpl_3(self) -> (r: Self)
        ensures
            r.spec_bits() == self.spec_bits() | 0x6000,
    {
        GateOptions { inner: self.inner | 0x6000 }
    }

    /// Sets bit 8: a trap gate rather than an interrupt gate.
    pub fn enable_interrupts(self) -> (r: Self)
        ensures
            r.spec_bits() == self.spec_bits() | 0x0100,
    {
        GateOptions { inner: self.inner | 0x0100 }
    }

    /// A present interrupt gate.
    pub fn exception_gate_options() -> (r: Self)
        ensures
            r.spec_bits() == 0x8E00,
    {
        proof {
            assert(0x0E00u16 | 0x8000u16 == 0x8E00u16) by (bit_vector);
        }
        GateOptions::minimal().set_present()
    }

    /// A present trap gate.
    pub fn trap_gate_options() -> (r: Self)
        ensures
            r.spec_bits() == 0x8F00,
    {
        proof {
            assert((0x0E00u16 | 0x8000u16) | 0x0100u16 == 0x8F00u16) by (bit_vector);
        }
        GateOptions::minimal().set_present().enable_interrupts()
    }

    /// Runs the handler on interrupt stack `stack_index` (0-based) of the
    /// task state segment.
    pub fn set_stack_index(self, stack_index: usize) -> (r: Self)
        requires
            stack_index < 7,
        ensures
            r.spec_bits() == (self.spec_bits() & 0xFFF8) | ((stack_index + 1) as u16),
    {
        GateOptions { inner: (self.inner & 0xFFF8) | ((stack_index + 1) as u16) }
    }
}

/// A 16-byte gate of the table.
#[derive(Debug, Clone, Copy, PartialEq, Eq, Structural)]
pub struct GateDescriptor {
    offset_low: u16,
    segment: SegmentSelector,
    gate_options: GateOptions,
    offset_middle: u16,
    offset_high: u32,
    reserved: u32,
}

impl GateDescriptor {
    /// The handler address held in this descriptor.
    pub closed spec fn handler(&self) -> int {
        self.offset_low + self.offset_middle * 0x1_0000 + self.offset_high * 0x1_0000_0000
    }

    pub closed spec fn options(&self) -> GateOptions {
        self.gate_options
    }

    pub closed spec fn code_segment(&self) -> SegmentSelector {
        self.segment
    }

    /// A gate with `gate_options` and no handler yet.
    pub fn new(gate_options: GateOptions) -> (r: Self)
        ensures
            r.options() == gate_options,
            r.handler() == 0,
            r.code_segment().inner == 0,
    {
        GateDescriptor {
            offset_low: 0,
            segment: SegmentSelector { inner: 0 },
            gate_options,
            offset_middle: 0,
            offset_high: 0,
            reserved: 0,
        }
    }

    /// Points this descriptor at the handler at `handler_address`, to run in the
    /// code segment `code_segment`.
    pub fn set_handler_address(&mut self, handler_address: VirtualAddress, code_segment: SegmentSelector)
        ensures
            final(self).handler() == handler_address.inner,
            final(self).code_segment() == code_segment,
            final(self).options() == old(self).options(),
    {
        let h = handler_address.inner;
        self.offset_low = (h % 0x1_0000) as u16;
        self.offset_middle = ((h / 0x1_0000) % 0x1_0000) as u16;
        self.offset_high = (h / 0x1_0000_0000) as u32;
        self.segment = code_segment;
    }
}

/// What the processor loads the table from: its last byte offset and base.
#[derive(Debug, Clone, Copy, PartialEq, Eq, Structural)]
pub struct IdtPointer {
    pub limit: u16,
    pub base: VirtualAddress,
}

/// The interrupt descriptor table.
#[derive(Debug, Clone)]
pub struct InterruptDescriptorTable {
    pub descriptor_table: [GateDescriptor; 256],
}

impl InterruptDescriptorTable {
    /// Every gate minimal: not present.
    pub fn new() -> (r: Self)
        ensures
            forall|i: int|
                0 <= i < IDT_ENTRIES ==> (#[trigger] r.descriptor_table@[i]).options().spec_bits() == 0x0E00
                    && r.descriptor_table@[i].handler() == 0,
    {
        let gate = GateDescriptor::new(GateOptions::minimal());
        InterruptDescriptorTable { descriptor_table: [gate; 256] }
    }

    /// The pointer to load for this table when it lies at `base`.
    pub fn pointer(&self, base: VirtualAddress) -> (r: IdtPointer)
        ensures
            r.limit == IDT_ENTRIES * GATE_DESCRIPTOR_SIZE - 1,
            r.base == base,
    {
        let limit = (IDT_ENTRIES as u64 * GATE_DESCRIPTOR_SIZE - 1) as u16;
        IdtPointer { limit, base }
    }
}

/// The registers that the processor pushes on an exception.
#[derive(Debug, Clone, Copy, PartialEq, Eq, Structural)]
pub struct ExcRegisterState {
    pub rip: u64,
    pub cs: u64,
    pub rflags: u64,
    pub rsp: u64,
    pub ss: u64,
}

/// The stack of an exception handler: the saved general registers, then
/// what the processor pushed.
#[derive(Debug, Clone, Copy, PartialEq, Eq, Structural)]
pub struct ExceptionStackFrame {
    pub execution_state: RegisterState,
    pub interrupt_registers: ExcRegisterState,
}

/// The same, for an exception that pushes an error code.
#[derive(Debug, Clone, Copy, PartialEq, Eq, Structural)]
pub struct ExceptionStackFrameWithErrorCode {
    pub execution_state: RegisterState,
    pub error_code: u64,
    pub interrupt_registers: ExcRegisterState,
}

} // verus!
