//! The local APIC and the programmable interval timer: where their
//! registers lie and what the kernel writes to them. The reads and writes
//! themselves are memory-mapped or port I/O, done by the caller.
use vstd::prelude::*;
use crate::address::{is_canonical, VirtualAddress, KERNEL_BASE_ADDRESS};
use crate::entry::PHYSICAL_ADDRESS_MASK;
use crate::interrupts::InterruptVector;
use crate::madt::MADT;

verus! {

/// The offsets of the local APIC registers from its base address.
pub struct LAPICRegister;

impl LAPICRegister {
    pub const LAPIC_ID: u32 = 0x020;
    pub const LAPIC_VERSION: u32 = 0x030;
    pub const TASK_PRIORITY: u32 = 0x080;
    pub const END_OF_INTERRUPT: u32 = 0x0B0;
    pub const SPURIOUS_INTERRUPT_VECTOR: u32 = 0x0F0;
    pub const TIMER_LOCAL_VECTOR_TABLE_ENTRY: u32 = 0x320;
    pub const ERROR_LOCAL_VECTOR_TABLE_ENTRY: u32 = 0x370;
    pub const TIMER_INITIAL_COUNT: u32 = 0x380;
    pub const TIMER_CURRENT_COUNT: u32 = 0x390;
    pub const TIMER_DIVIDE_CONFIGURATION: u32 = 0x3E0;
}

/// Set in a local vector table entry, it masks the interrupt.
pub const LAPIC_INTERRUPT_MASK: u32 = 0x1_0000;

/// A value to write to the register at `offset` from the local APIC base.
#[derive(Debug, Clone, Copy, PartialEq, Eq, Structural)]
pub struct RegisterWrite {
    pub offset: u32,
    pub value: u32,
}

/// The local APIC of this core, at its virtual base address.
#[derive(Debug, Clone, Copy, PartialEq, Eq, Structural)]
pub struct LocalAPIC {
    pub virtual_address: VirtualAddress,
}

impl LocalAPIC {
    /// Where the local APIC is: none without an APIC; else the base from the
    /// APIC base MSR when the processor has MSRs, else the MADT's address
    /// override, else the address in the MADT header. The physical base is
    /// reached through the kernel window; one beyond it gives none.
    pub fn try_read_and_init_from_madt(apic_enabled: bool, msr_base: Option<u64>, madt: &MADT) -> (r:
        Option<Self>)
        ensures
            !apic_enabled ==> r.is_none(),
            apic_enabled ==> {
                let physical = match msr_base {
                    Some(v) => (v & PHYSICAL_ADDRESS_MASK) as int,
                    None => match madt.apic_structures.local_apic_address_override {
                        Some(o) => o.local_apic_address_64 as int,
                        None => madt.apic_headers.madt_header.lapic_address as int,
                    },
                };
                &&& physical + KERNEL_BASE_ADDRESS <= u64::MAX ==> r == Some(
                    LocalAPIC { virtual_address: VirtualAddress { inner: (physical + KERNEL_BASE_ADDRESS) as u64 } },
                )
                &&& physical + KERNEL_BASE_ADDRESS > u64::MAX ==> r.is_none()
            },
    {
        if !apic_enabled {
            return None;
        }
        let physical: u64 = match msr_base {
            Some(v) => v & PHYSICAL_ADDRESS_MASK,
            None => match madt.apic_structures.local_apic_address_override {
                Some(o) => o.local_apic_address_64,
                None => madt.apic_headers.madt_header.lapic_address as u64,
            },
        };
        if physical > u64::MAX - KERNEL_BASE_ADDRESS {
            return None;
        }
        Some(LocalAPIC { virtual_address: VirtualAddress::with_kernel_base_offset(physical) })
    }

    /// The address of the register at `register_offset`.
    pub fn register_address(&self, register_offset: u32) -> (r: VirtualAddress)
        requires
            self.virtual_address.inner + register_offset <= u64::MAX,
            is_canonical((self.virtual_address.inner + register_offset) as u64),
        ensures
            r.inner == self.virtual_address.inner + register_offset,
    {
        VirtualAddress::with_offset(self.virtual_address.inner, register_offset as u64)
    }

    /// Accept every interrupt priority.
    pub fn clear_task_priority_register(&self) -> (r: RegisterWrite)
        ensures
            r == (RegisterWrite { offset: LAPICRegister::TASK_PRIORITY, value: 0 }),
    {
        RegisterWrite { offset: LAPICRegister::TASK_PRIORITY, value: 0 }
    }

    /// Enable the APIC (bit 8) with spurious interrupts on their vector.
    pub fn enable_interrupts(&self) -> (r: RegisterWrite)
        ensures
            r == (RegisterWrite {
                offset: LAPICRegister::SPURIOUS_INTERRUPT_VECTOR,
                value: (0x100 | InterruptVector::APIC_SPURIOUS) as u32,
            }),
    {
        RegisterWrite {
            offset: LAPICRegister::SPURIOUS_INTERRUPT_VECTOR,
            value: (0x100 | InterruptVector::APIC_SPURIOUS) as u32,
        }
    }

    pub fn signal_end_of_interrupt(&self) -> (r: RegisterWrite)
        ensures
            r == (RegisterWrite { offset: LAPICRegister::END_OF_INTERRUPT, value: 0 }),
    {
        RegisterWrite { offset: LAPICRegister::END_OF_INTERRUPT, value: 0 }
    }

    /// Zero the initial count, then mask the timer interrupt.
    pub fn stop_timer(&self) -> (r: [RegisterWrite; 2])
        ensures
            r@ == seq![
                RegisterWrite { offset: LAPICRegister::TIMER_INITIAL_COUNT, value: 0 },
                RegisterWrite {
                    offset: LAPICRegister::TIMER_LOCAL_VECTOR_TABLE_ENTRY,
                    value: LAPIC_INTERRUPT_MASK,
                },
            ],
    {
        let r = [
            RegisterWrite { offset: LAPICRegister::TIMER_INITIAL_COUNT, value: 0 },
            RegisterWrite {
                offset: LAPICRegister::TIMER_LOCAL_VECTOR_TABLE_ENTRY,
                value: LAPIC_INTERRUPT_MASK,
            },
        ];
        assert(r@ =~= seq![
            RegisterWrite { offset: LAPICRegister::TIMER_INITIAL_COUNT, value: 0 },
            RegisterWrite {
                offset: LAPICRegister::TIMER_LOCAL_VECTOR_TABLE_ENTRY,
                value: LAPIC_INTERRUPT_MASK,
            },
        ]);
        r
    }
}

/// The timer's input clock, in Hz.
pub const PIT_FREQUENCY: u64 = 1193182;

pub const PIT_CHANNEL_0_PORT_NUMBER: u16 = 0x40;
pub const PIT_CHANNEL_1_PORT_NUMBER: u16 = 0x41;
pub const PIT_CHANNEL_2_PORT_NUMBER: u16 = 0x42;
pub const PIT_COMMAND_PORT_NUMBER: u16 = 0x43;

/// An I/O port, and whether the kernel may write to it.
#[derive(Debug, Clone, Copy, PartialEq, Eq, Structural)]
pub struct Port {
    pub port_number: u16,
    pub writable: bool,
}

impl Port {
    pub fn new(port_number: u16, writable: bool) -> (r: Self)
        ensures
            r.port_number == port_number && r.writable == writable,
    {
        Port { port_number, writable }
    }
}

/// The programmable interval timer's ports.
#[derive(Debug, Clone, Copy, PartialEq, Eq, Structural)]
pub struct PIT {
    pub channel_0: Port,
    pub channel_1: Port,
    pub channel_2: Port,
    pub command: Port,
}

impl PIT {
    pub fn new() -> (r: Self)
        ensures
            r.channel_0 == (Port { port_number: PIT_CHANNEL_0_PORT_NUMBER, writable: true }),
            r.channel_1 == (Port { port_number: PIT_CHANNEL_1_PORT_NUMBER, writable: true }),
            r.channel_2 == (Port { port_number: PIT_CHANNEL_2_PORT_NUMBER, writable: true }),
            r.command == (Port { port_number: PIT_COMMAND_PORT_NUMBER, writable: true }),
    {
        PIT {
            channel_0: Port::new(PIT_CHANNEL_0_PORT_NUMBER, true),
            channel_1: Port::new(PIT_CHANNEL_1_PORT_NUMBER, true),
            channel_2: Port::new(PIT_CHANNEL_2_PORT_NUMBER, true),
            command: Port::new(PIT_COMMAND_PORT_NUMBER, true),
        }
    }

    /// The bytes to write to channel 0 for a reload count: low, then high.
    pub fn set_count(&self, count: u16) -> (r: [u8; 2])
        ensures
            r@ == seq![(count % 0x100) as u8, (count / 0x100) as u8],
    {
        let r = [(count % 0x100) as u8, (count / 0x100) as u8];
        assert(r@ =~= seq![(count % 0x100) as u8, (count / 0x100) as u8]);
        r
    }

    /// The count from the two bytes read back from channel 0, low first,
    /// after the latch command 0 on the command port.
    pub fn read_count(&self, low_byte: u8, high_byte: u8) -> (r: u16)
        ensures
            r == high_byte * 0x100 + low_byte,
    {
        (high_byte as u16) * 0x100 + low_byte as u16
    }
}

} // verus!
