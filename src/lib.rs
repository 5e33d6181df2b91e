//! Memory-management core of a small x86_64 kernel: validated addresses,
//! a four-level page-table walker and mapper, a boot-time frame allocator,
//! and the two heap allocators that sit on top of the mapped heap; beside
//! them, the descriptor tables the processor loads and the ACPI tables the
//! kernel reads at boot, as values built and parsed from plain bytes.
use vstd::prelude::*;

pub mod address;
pub mod bits;
pub mod frame;
pub mod entry;
pub mod table;
pub mod boot;
pub mod linked_list;
pub mod block;
pub mod segmentation;
pub mod interrupts;
pub mod process;
pub mod cpu;
pub mod acpi;
pub mod madt;
pub mod lapic;
