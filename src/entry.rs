//! Page-table entries: a frame address in bits 12..51 and flag bits below it.
use vstd::prelude::*;
use crate::address::{is_physical, PhysicalAddress};
use crate::bits::{is_bit_set, set_bit};
use crate::frame::PhysicalFrame;

verus! {

/// The bits of an entry that hold the frame address.
pub const PHYSICAL_ADDRESS_MASK: u64 = 0x000F_FFFF_FFFF_F000;

/// The bits of an entry that hold the flags below.
pub const ENTRY_FLAGS_MASK: u64 = 0x1FF;

/// The flag bits of a page-table entry.
pub struct PageTableEntryFlags;

impl PageTableEntryFlags {
    pub const PRESENT: u64 = 1;
    pub const WRITE_ACCESS: u64 = 0x2;
    pub const USER_ACCESS: u64 = 0x4;
    pub const WRITE_THROUGH: u64 = 0x8;
    pub const CACHE_DISABLED: u64 = 0x10;
    pub const ACCESSED: u64 = 0x20;
    pub const DIRTY: u64 = 0x40;
    pub const LARGE_PAGE_SIZE: u64 = 0x80;
    pub const GLOBAL: u64 = 0x100;
}

/// The frame address that an entry holds.
pub open spec fn entry_address(raw: u64) -> u64 {
    raw & PHYSICAL_ADDRESS_MASK
}

pub open spec fn entry_present(raw: u64) -> bool {
    raw & 1 == 1
}

/// The entry for the frame at `address` with `flags`.
pub open spec fn table_entry(flags: u64, address: u64) -> PageTableEntry {
    PageTableEntry { inner: (address & PHYSICAL_ADDRESS_MASK) | (flags & ENTRY_FLAGS_MASK) }
}

/// An entry made with the present flag for an aligned physical frame is
/// present and holds that frame.
pub proof fn lemma_table_entry(flags: u64, address: u64)
    requires
        address < 0x0010_0000_0000_0000,
        address % 4096 == 0,
    ensures
        table_entry(flags | 1, address).present(),
        table_entry(flags | 1, address).address() == address,
{
    let e = (address & 0x000F_FFFF_FFFF_F000u64) | ((flags | 1u64) & 0x1FFu64);
    assert(((address & 0x000F_FFFF_FFFF_F000u64) | ((flags | 1u64) & 0x1FFu64)) & 1u64 == 1u64)
        by (bit_vector);
    assert(address < 0x0010_0000_0000_0000u64 && address % 4096 == 0 ==> ((address
        & 0x000F_FFFF_FFFF_F000u64) | ((flags | 1u64) & 0x1FFu64)) & 0x000F_FFFF_FFFF_F000u64
        == address) by (bit_vector);
}

pub proof fn lemma_entry_address(raw: u64)
    ensures
        entry_address(raw) < 0x0010_0000_0000_0000,
        entry_address(raw) % 4096 == 0,
{
    assert((raw & 0x000F_FFFF_FFFF_F000u64) < 0x0010_0000_0000_0000u64) by (bit_vector);
    assert((raw & 0x000F_FFFF_FFFF_F000u64) % 4096 == 0) by (bit_vector);
}

/// One 64-bit slot of a page table. All zero bits is the unused entry.
#[derive(Debug, Clone, Copy, PartialEq, Eq, Structural)]
pub struct PageTableEntry {
    pub inner: u64,
}

impl PageTableEntry {
    pub open spec fn present(self) -> bool {
        entry_present(self.inner)
    }

    pub open spec fn address(self) -> u64 {
        entry_address(self.inner)
    }

    /// An entry for `physical_address` (bits 12..51) with `flags` (bits 0..8).
    pub fn new(flags: u64, physical_address: PhysicalAddress) -> (r: Self)
        ensures
            r == table_entry(flags, physical_address.inner),
            r.inner == (physical_address.inner & PHYSICAL_ADDRESS_MASK) | (flags & ENTRY_FLAGS_MASK),
            r.address() == physical_address.inner & PHYSICAL_ADDRESS_MASK,
            r.inner & ENTRY_FLAGS_MASK == flags & ENTRY_FLAGS_MASK,
            r.present() == (flags & 1 == 1),
    {
        let a = physical_address.inner;
        let raw = (a & PHYSICAL_ADDRESS_MASK) | (flags & ENTRY_FLAGS_MASK);
        proof {
            assert(((a & 0x000F_FFFF_FFFF_F000u64) | (flags & 0x1FFu64)) & 0x000F_FFFF_FFFF_F000u64
                == a & 0x000F_FFFF_FFFF_F000u64) by (bit_vector);
            assert(((a & 0x000F_FFFF_FFFF_F000u64) | (flags & 0x1FFu64)) & 0x1FFu64 == flags
                & 0x1FFu64) by (bit_vector);
            assert((((a & 0x000F_FFFF_FFFF_F000u64) | (flags & 0x1FFu64)) & 1u64 == 1u64) == (flags
                & 1u64 == 1u64)) by (bit_vector);
        }
        PageTableEntry { inner: raw }
    }

    pub fn new_unused() -> (r: Self)
        ensures
            r.inner == 0,
            !r.present(),
    {
        proof {
            assert(0u64 & 1u64 == 0u64) by (bit_vector);
        }
        PageTableEntry { inner: 0 }
    }

    pub fn is_unused(&self) -> (r: bool)
        ensures
            r == (self.inner == 0),
    {
        self.inner == 0
    }

    pub fn set_unused(&mut self)
        ensures
            final(self).inner == 0,
    {
        self.inner = 0;
    }

    /// The flag bits of the entry.
    pub fn flags(&self) -> (r: u64)
        ensures
            r == self.inner & ENTRY_FLAGS_MASK,
    {
        self.inner & ENTRY_FLAGS_MASK
    }

    pub fn is_flag_set(&self, entry_flag: u64) -> (r: bool)
        ensures
            r == (self.inner & entry_flag == entry_flag),
    {
        is_bit_set(self.inner, entry_flag)
    }

    pub fn set_flag(&mut self, entry_flag: u64)
        ensures
            final(self).inner == old(self).inner | entry_flag,
    {
        self.inner = set_bit(self.inner, entry_flag);
    }

    pub fn set_flags(&mut self, entry_flags: u64)
        ensures
            final(self).inner == old(self).inner | entry_flags,
    {
        self.inner = self.inner | entry_flags;
    }

    pub fn set_present(&mut self)
        ensures
            final(self).inner == old(self).inner | PageTableEntryFlags::PRESENT,
            final(self).present(),
    {
        let old_inner = self.inner;
        proof {
            assert((old_inner | 1u64) & 1u64 == 1u64) by (bit_vector);
        }
        self.set_flag(PageTableEntryFlags::PRESENT);
    }

    pub fn set_write_access(&mut self)
        ensures
            final(self).inner == old(self).inner | PageTableEntryFlags::WRITE_ACCESS,
    {
        self.set_flag(PageTableEntryFlags::WRITE_ACCESS);
    }

    /// The frame the entry refers to, when the entry is present.
    pub fn get_frame(&self) -> (r: Option<PhysicalFrame>)
        ensures
            self.present() ==> r == Some(PhysicalFrame { offset: PhysicalAddress { inner: self.address() } }),
            !self.present() ==> r.is_none(),
            r matches Some(f) ==> f.wf(),
    {
        let present = self.is_flag_set(PageTableEntryFlags::PRESENT);
        if present {
            proof {
                lemma_entry_address(self.inner);
            }
            let address = PhysicalAddress { inner: self.inner & PHYSICAL_ADDRESS_MASK };
            Some(PhysicalFrame { offset: address })
        } else {
            None
        }
    }

    /// Points the entry at `physical_frame`, keeping its other bits.
    pub fn set_frame_addr(&mut self, physical_frame: PhysicalFrame)
        requires
            physical_frame.wf(),
        ensures
            final(self).address() == physical_frame.start(),
            final(self).inner & !PHYSICAL_ADDRESS_MASK == old(self).inner & !PHYSICAL_ADDRESS_MASK,
            final(self).present() == old(self).present(),
    {
        let a = physical_frame.offset.inner;
        let e = self.inner;
        proof {
            assert(is_physical(a));
            assert(a < 0x0010_0000_0000_0000u64 && a % 4096 == 0 ==> a & 0x000F_FFFF_FFFF_F000u64
                == a) by (bit_vector);
            assert(((e & !0x000F_FFFF_FFFF_F000u64) | (a & 0x000F_FFFF_FFFF_F000u64))
                & 0x000F_FFFF_FFFF_F000u64 == a & 0x000F_FFFF_FFFF_F000u64) by (bit_vector);
            assert(((e & !0x000F_FFFF_FFFF_F000u64) | (a & 0x000F_FFFF_FFFF_F000u64))
                & !0x000F_FFFF_FFFF_F000u64 == e & !0x000F_FFFF_FFFF_F000u64) by (bit_vector);
            assert(((((e & !0x000F_FFFF_FFFF_F000u64) | (a & 0x000F_FFFF_FFFF_F000u64)) & 1u64)
                == 1u64) == ((e & 1u64) == 1u64)) by (bit_vector);
        }
        self.inner = (e & !PHYSICAL_ADDRESS_MASK) | (a & PHYSICAL_ADDRESS_MASK);
    }
}

} // verus!
