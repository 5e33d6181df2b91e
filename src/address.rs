//! Virtual and physical address values and their alignment arithmetic.
use vstd::prelude::*;

verus! {

/// Every physical address `p` below the installed memory is reachable at
/// the virtual address `p + KERNEL_BASE_ADDRESS`.
pub const KERNEL_BASE_ADDRESS: u64 = 0xFFFF_8880_0000_0000;

/// One past the highest address of the lower canonical half.
pub const CANONICAL_LOW_END: u64 = 0x0000_8000_0000_0000;

/// The lowest address of the upper canonical half.
pub const CANONICAL_HIGH_START: u64 = 0xFFFF_8000_0000_0000;

/// Physical addresses are 52 bits wide.
pub const PHYSICAL_ADDRESS_LIMIT: u64 = 0x0010_0000_0000_0000;

/// Bits 48..63 repeat bit 47.
pub open spec fn is_canonical(raw: u64) -> bool {
    raw < CANONICAL_LOW_END || raw >= CANONICAL_HIGH_START
}

/// Bits 52..63 are clear.
pub open spec fn is_physical(raw: u64) -> bool {
    raw < PHYSICAL_ADDRESS_LIMIT
}

pub open spec fn is_power_of_two(n: int) -> bool
    decreases n,
{
    if n <= 0 {
        false
    } else if n == 1 {
        true
    } else {
        n % 2 == 0 && is_power_of_two(n / 2)
    }
}

/// The largest multiple of `alignment` that is at most `raw`.
pub open spec fn align_down_spec(raw: int, alignment: int) -> int {
    raw - raw % alignment
}

/// The smallest multiple of `alignment` that is at least `raw`.
pub open spec fn align_up_spec(raw: int, alignment: int) -> int {
    align_down_spec(raw + alignment - 1, alignment)
}

/// Size of the region that one entry maps at a page-table level
/// (1 = PT, 2 = PD, 3 = PDPT, 4 = PML4).
pub open spec fn level_size(level: int) -> int {
    if level == 1 {
        0x1000
    } else if level == 2 {
        0x20_0000
    } else if level == 3 {
        0x4000_0000
    } else {
        0x80_0000_0000
    }
}

/// The 9-bit table index that selects an entry at `level`.
pub open spec fn index_at_level(raw: int, level: int) -> int {
    (raw / level_size(level)) % 512
}

pub proof fn lemma_align_down(raw: int, alignment: int)
    requires
        raw >= 0,
        alignment > 0,
    ensures
        align_down_spec(raw, alignment) % alignment == 0,
        align_down_spec(raw, alignment) <= raw,
        raw < align_down_spec(raw, alignment) + alignment,
        align_down_spec(raw, alignment) >= 0,
        align_down_spec(raw, alignment) == (raw / alignment) * alignment,
{
    vstd::arithmetic::div_mod::lemma_fundamental_div_mod(raw, alignment);
    vstd::arithmetic::mul::lemma_mul_is_commutative(alignment, raw / alignment);
    vstd::arithmetic::div_mod::lemma_mod_multiples_basic(raw / alignment, alignment);
    vstd::arithmetic::div_mod::lemma_mod_bound(raw, alignment);
    assert(raw / alignment >= 0) by {
        vstd::arithmetic::div_mod::lemma_div_pos_is_pos(raw, alignment);
    }
    assert((raw / alignment) * alignment >= 0) by (nonlinear_arith)
        requires
            raw / alignment >= 0,
            alignment > 0,
    ;
}

/// Aligning down to the region size of a level keeps every table index
/// at that level: the address stays in the same slot.
pub proof fn lemma_align_down_keeps_index(raw: u64, level: int)
    requires
        1 <= level <= 4,
    ensures
        index_at_level(align_down_spec(raw as int, level_size(level)), level) == index_at_level(
            raw as int,
            level,
        ),
{
    let s = level_size(level);
    lemma_align_down(raw as int, s);
    let q = raw as int / s;
    assert(align_down_spec(raw as int, s) == q * s);
    vstd::arithmetic::div_mod::lemma_div_multiples_vanish(q, s);
}

/// Every power of two up to `b` divides `b` when `b` is a power of two too.
pub proof fn lemma_power_of_two_divides(a: int, b: int)
    requires
        is_power_of_two(a),
        is_power_of_two(b),
        a <= b,
    ensures
        b % a == 0,
    decreases a,
{
    if a == 1 {
    } else {
        assert(b != 1);
        lemma_power_of_two_divides(a / 2, b / 2);
        let k = (b / 2) / (a / 2);
        vstd::arithmetic::div_mod::lemma_fundamental_div_mod(b / 2, a / 2);
        assert(b == k * a) by (nonlinear_arith)
            requires
                b / 2 == (a / 2) * k + (b / 2) % (a / 2),
                (b / 2) % (a / 2) == 0,
                b % 2 == 0,
                a % 2 == 0,
        ;
        vstd::arithmetic::div_mod::lemma_mod_multiples_basic(k, a);
    }
}

pub proof fn lemma_power_of_two_positive(a: int)
    requires
        is_power_of_two(a),
    ensures
        a >= 1,
{
}

/// Aligning a canonical address down by at most 2^47 keeps it canonical.
pub proof fn lemma_align_down_canonical(raw: u64, alignment: int)
    requires
        is_canonical(raw),
        is_power_of_two(alignment),
        alignment <= 0x8000_0000_0000,
    ensures
        is_canonical(align_down_spec(raw as int, alignment) as u64),
        align_down_spec(raw as int, alignment) as u64 == align_down_spec(raw as int, alignment),
{
    lemma_align_down(raw as int, alignment);
    if raw >= CANONICAL_HIGH_START {
        assert(is_power_of_two(0x8000_0000_0000)) by {
            reveal_with_fuel(is_power_of_two, 49);
        }
        lemma_power_of_two_divides(alignment, 0x8000_0000_0000);
        let h = CANONICAL_HIGH_START as int;
        let m = 0x8000_0000_0000int / alignment;
        vstd::arithmetic::div_mod::lemma_fundamental_div_mod(0x8000_0000_0000int, alignment);
        assert(h == alignment * (m * 0x1_FFFF)) by (nonlinear_arith)
            requires
                0x8000_0000_0000int == alignment * m,
                h == 0x8000_0000_0000int * 0x1_FFFF,
        ;
        vstd::arithmetic::div_mod::lemma_div_multiples_vanish(m * 0x1_FFFF, alignment);
        vstd::arithmetic::div_mod::lemma_div_is_ordered(h, raw as int, alignment);
        assert((h / alignment) * alignment <= (raw as int / alignment) * alignment) by (nonlinear_arith)
            requires
                h / alignment <= raw as int / alignment,
                alignment > 0,
        ;
        assert(h / alignment == m * 0x1_FFFF) by {
            assert(h == (m * 0x1_FFFF) * alignment) by (nonlinear_arith)
                requires
                    h == alignment * (m * 0x1_FFFF),
            ;
        }
        assert((h / alignment) * alignment == h) by (nonlinear_arith)
            requires
                h / alignment == m * 0x1_FFFF,
                h == alignment * (m * 0x1_FFFF),
        ;
    }
}

/// A location in the kernel's single virtual address space.
#[derive(Debug, Clone, Copy, PartialEq, Eq, Structural)]
pub struct VirtualAddress {
    pub inner: u64,
}

/// A raw value that is not in canonical form.
#[derive(Debug, Clone, Copy, PartialEq, Eq, Structural)]
pub struct InvalidVirtualAddress {
    pub inner: u64,
}

impl VirtualAddress {
    pub open spec fn wf(self) -> bool {
        is_canonical(self.inner)
    }

    /// What `new` returns for a raw value.
    pub open spec fn spec_new(raw: u64) -> Result<VirtualAddress, InvalidVirtualAddress> {
        if is_canonical(raw) {
            Ok(VirtualAddress { inner: raw })
        } else {
            Err(InvalidVirtualAddress { inner: raw })
        }
    }

    pub fn zero() -> (r: Self)
        ensures
            r.inner == 0,
            r.wf(),
    {
        VirtualAddress { inner: 0 }
    }

    /// Validates a raw value: it fails unless bits 48..63 repeat bit 47.
    pub fn new(address: u64) -> (r: Result<Self, InvalidVirtualAddress>)
        ensures
            r == Self::spec_new(address),
    {
        if address < CANONICAL_LOW_END || address >= CANONICAL_HIGH_START {
            Ok(VirtualAddress { inner: address })
        } else {
            Err(InvalidVirtualAddress { inner: address })
        }
    }

    pub fn raw(&self) -> (r: u64)
        ensures
            r == self.inner,
    {
        self.inner
    }

    /// `address + offset`, which the caller knows to be canonical.
    pub fn with_offset(address: u64, offset: u64) -> (r: Self)
        requires
            address + offset <= u64::MAX,
            is_canonical((address + offset) as u64),
        ensures
            r.inner == address + offset,
            r.wf(),
    {
        VirtualAddress { inner: address + offset }
    }

    /// The address through which the physical address `address` is reached.
    pub fn with_kernel_base_offset(address: u64) -> (r: Self)
        requires
            address + KERNEL_BASE_ADDRESS <= u64::MAX,
        ensures
            r.inner == address + KERNEL_BASE_ADDRESS,
            r.wf(),
    {
        VirtualAddress::with_offset(address, KERNEL_BASE_ADDRESS)
    }

    pub fn kernel_base() -> (r: Self)
        ensures
            r.inner == KERNEL_BASE_ADDRESS,
            r.wf(),
    {
        VirtualAddress { inner: KERNEL_BASE_ADDRESS }
    }

    /// Bits 0..11: the byte within the page.
    pub fn get_page_offset(self) -> (r: usize)
        ensures
            r == self.inner % 4096,
    {
        (self.inner % 4096) as usize
    }

    /// Bits 12..20.
    pub fn get_pt_index(self) -> (r: usize)
        ensures
            r == index_at_level(self.inner as int, 1),
            r < 512,
    {
        ((self.inner / 0x1000) % 512) as usize
    }

    /// Bits 21..29.
    pub fn get_pd_index(self) -> (r: usize)
        ensures
            r == index_at_level(self.inner as int, 2),
            r < 512,
    {
        ((self.inner / 0x20_0000) % 512) as usize
    }

    /// Bits 30..38.
    pub fn get_pdpt_index(self) -> (r: usize)
        ensures
            r == index_at_level(self.inner as int, 3),
            r < 512,
    {
        ((self.inner / 0x4000_0000) % 512) as usize
    }

    /// Bits 39..47.
    pub fn get_pml4_index(self) -> (r: usize)
        ensures
            r == index_at_level(self.inner as int, 4),
            r < 512,
    {
        ((self.inner / 0x80_0000_0000) % 512) as usize
    }

    /// Whether the address starts a 4 KiB page.
    pub fn is_aligned(&self) -> (r: bool)
        ensures
            r == (self.inner % 4096 == 0),
    {
        self.inner % 4096 == 0
    }

    /// `self + rhs`; the sum must neither overflow nor leave canonical form.
    pub fn add_checked(&self, rhs: u64) -> (r: Self)
        requires
            self.inner + rhs <= u64::MAX,
            is_canonical((self.inner + rhs) as u64),
        ensures
            r.inner == self.inner + rhs,
            r.wf(),
    {
        VirtualAddress { inner: self.inner + rhs }
    }

    /// Rounds down to a multiple of the power of two `alignment`.
    pub fn align_down(self, alignment: u64) -> (r: Self)
        requires
            is_power_of_two(alignment as int),
            is_canonical(align_down_spec(self.inner as int, alignment as int) as u64),
        ensures
            r.inner == align_down_spec(self.inner as int, alignment as int),
            r.inner % alignment == 0,
            r.inner <= self.inner < r.inner + alignment,
            r.wf(),
    {
        proof {
            lemma_power_of_two_positive(alignment as int);
            lemma_align_down(self.inner as int, alignment as int);
        }
        if self.inner % alignment == 0 {
            self
        } else {
            VirtualAddress { inner: self.inner - self.inner % alignment }
        }
    }

    /// Rounds up to a multiple of the power of two `alignment`.
    pub fn align_up(self, alignment: u64) -> (r: Self)
        requires
            is_power_of_two(alignment as int),
            self.inner + alignment - 1 <= u64::MAX,
            is_canonical((self.inner + alignment - 1) as u64),
            is_canonical(align_up_spec(self.inner as int, alignment as int) as u64),
        ensures
            r.inner == align_up_spec(self.inner as int, alignment as int),
            r.inner % alignment == 0,
            self.inner <= r.inner < self.inner + alignment,
            r.wf(),
    {
        proof {
            lemma_power_of_two_positive(alignment as int);
            lemma_align_down(self.inner + alignment - 1, alignment as int);
        }
        let bumped = VirtualAddress { inner: self.inner + (alignment - 1) };
        bumped.align_down(alignment)
    }
}

/// A location in physical memory.
#[derive(Debug, Clone, Copy, PartialEq, Eq, Structural)]
pub struct PhysicalAddress {
    pub inner: u64,
}

/// A raw value with some of bits 52..63 set.
#[derive(Debug, Clone, Copy, PartialEq, Eq, Structural)]
pub struct InvalidPhysicalAddress {
    pub inner: u64,
}

impl PhysicalAddress {
    pub open spec fn wf(self) -> bool {
        is_physical(self.inner)
    }

    /// What `new` returns for a raw value.
    pub open spec fn spec_new(raw: u64) -> Result<PhysicalAddress, InvalidPhysicalAddress> {
        if is_physical(raw) {
            Ok(PhysicalAddress { inner: raw })
        } else {
            Err(InvalidPhysicalAddress { inner: raw })
        }
    }

    pub fn zero() -> (r: Self)
        ensures
            r.inner == 0,
            r.wf(),
    {
        PhysicalAddress { inner: 0 }
    }

    /// Validates a raw value: it fails when any of bits 52..63 is set.
    pub fn new(address: u64) -> (r: Result<Self, InvalidPhysicalAddress>)
        ensures
            r == Self::spec_new(address),
    {
        if address < PHYSICAL_ADDRESS_LIMIT {
            Ok(PhysicalAddress { inner: address })
        } else {
            Err(InvalidPhysicalAddress { inner: address })
        }
    }

    pub fn raw(&self) -> (r: u64)
        ensures
            r == self.inner,
    {
        self.inner
    }

    /// Rounds down to a multiple of the power of two `alignment`.
    pub fn align_down(self, alignment: u64) -> (r: Self)
        requires
            is_power_of_two(alignment as int),
            self.wf(),
        ensures
            r.inner == align_down_spec(self.inner as int, alignment as int),
            r.inner % alignment == 0,
            r.inner <= self.inner < r.inner + alignment,
            r.wf(),
    {
        proof {
            lemma_power_of_two_positive(alignment as int);
            lemma_align_down(self.inner as int, alignment as int);
        }
        if self.inner % alignment == 0 {
            self
        } else {
            PhysicalAddress { inner: self.inner - self.inner % alignment }
        }
    }

    /// Rounds up to a multiple of the power of two `alignment`.
    pub fn align_up(self, alignment: u64) -> (r: Self)
        requires
            is_power_of_two(alignment as int),
            self.inner + alignment - 1 < PHYSICAL_ADDRESS_LIMIT,
        ensures
            r.inner == align_up_spec(self.inner as int, alignment as int),
            r.inner % alignment == 0,
            self.inner <= r.inner < self.inner + alignment,
            r.wf(),
    {
        proof {
            lemma_power_of_two_positive(alignment as int);
            lemma_align_down(self.inner + alignment - 1, alignment as int);
        }
        let bumped = PhysicalAddress { inner: self.inner + (alignment - 1) };
        bumped.align_down(alignment)
    }
}

/// Construction of a virtual address succeeds exactly on canonical values
/// and hands the raw value back unchanged.
pub proof fn lemma_virtual_address_round_trip(raw: u64)
    ensures
        is_canonical(raw) ==> VirtualAddress::spec_new(raw) == Ok::<VirtualAddress, InvalidVirtualAddress>(VirtualAddress { inner: raw }),
        !is_canonical(raw) ==> VirtualAddress::spec_new(raw).is_err(),
{
}

/// Construction of a physical address succeeds exactly on values below
/// 2^52 and hands the raw value back unchanged.
pub proof fn lemma_physical_address_round_trip(raw: u64)
    ensures
        is_physical(raw) ==> PhysicalAddress::spec_new(raw) == Ok::<PhysicalAddress, InvalidPhysicalAddress>(PhysicalAddress { inner: raw }),
        !is_physical(raw) ==> PhysicalAddress::spec_new(raw).is_err(),
{
}

} // verus!

verus! {

pub proof fn lemma_power_of_two_4096()
    ensures
        is_power_of_two(4096),
{
    reveal_with_fuel(is_power_of_two, 13);
}

} // verus!
