//! Physical frames and virtual pages of 4 KiB, and ranges over them.
use vstd::prelude::*;
use crate::address::{
    align_down_spec, is_canonical, is_physical, lemma_align_down_canonical,
    PhysicalAddress, VirtualAddress, PHYSICAL_ADDRESS_LIMIT,
};

verus! {

/// The page and frame sizes. Only 4 KiB pages are ever produced; the larger
/// sizes are reserved.
pub struct Size;

impl Size {
    pub const FOUR_KIB: u64 = 0x1000;
    pub const TWO_MB: u64 = 0x20_0000;
    pub const ONE_GB: u64 = 0x4000_0000;
}

/// A 4 KiB-aligned frame of physical memory, named by its first address.
#[derive(Debug, Clone, Copy, PartialEq, Eq, Structural)]
pub struct PhysicalFrame {
    pub offset: PhysicalAddress,
}

impl PhysicalFrame {
    pub open spec fn wf(self) -> bool {
        is_physical(self.offset.inner) && self.offset.inner % 4096 == 0
    }

    pub open spec fn start(self) -> u64 {
        self.offset.inner
    }

    /// The frame that contains the raw physical address.
    pub fn from_raw_address_aligned(raw_physical_address: u64) -> (r: Self)
        requires
            is_physical(raw_physical_address),
        ensures
            r.wf(),
            r.start() == align_down_spec(raw_physical_address as int, 4096),
    {
        let address = PhysicalAddress { inner: raw_physical_address };
        PhysicalFrame::from_address_aligned(address)
    }

    /// The frame that contains the physical address.
    pub fn from_address_aligned(physical_address: PhysicalAddress) -> (r: Self)
        requires
            physical_address.wf(),
        ensures
            r.wf(),
            r.start() == align_down_spec(physical_address.inner as int, 4096),
    {
        proof {
            crate::address::lemma_power_of_two_4096();
        }
        let aligned_address = physical_address.align_down(Size::FOUR_KIB);
        PhysicalFrame { offset: aligned_address }
    }

    pub fn start_address(&self) -> (r: u64)
        ensures
            r == self.start(),
    {
        self.offset.inner
    }

    /// The frame `count` frames further on.
    pub fn advance(self, count: u64) -> (r: Self)
        requires
            self.wf(),
            self.start() + count * 4096 < PHYSICAL_ADDRESS_LIMIT,
        ensures
            r.wf(),
            r.start() == self.start() + count * 4096,
    {
        proof {
            assert((self.start() + count * 4096) % 4096 == 0) by (nonlinear_arith)
                requires
                    self.start() % 4096 == 0,
            ;
        }
        PhysicalFrame { offset: PhysicalAddress { inner: self.offset.inner + count * 4096 } }
    }
}

/// The frames from `start` through `end`, both included, in ascending order.
#[derive(Debug)]
pub struct PhysicalFrameRange {
    current: PhysicalFrame,
    end: PhysicalFrame,
    exhausted: bool,
}

impl PhysicalFrameRange {
    /// The start addresses of the frames still to come.
    pub closed spec fn remaining(&self) -> Seq<u64> {
        if self.exhausted || self.current.start() > self.end.start() {
            Seq::empty()
        } else {
            Seq::new(
                ((self.end.start() - self.current.start()) / 4096 + 1) as nat,
                |i: int| (self.current.start() + i * 4096) as u64,
            )
        }
    }

    pub closed spec fn wf(&self) -> bool {
        self.current.wf() && self.end.wf()
    }

    pub fn range_inclusive(start: PhysicalFrame, end: PhysicalFrame) -> (r: Self)
        requires
            start.wf(),
            end.wf(),
        ensures
            r.wf(),
            r.remaining() == (if start.start() <= end.start() {
                Seq::new(
                    ((end.start() - start.start()) / 4096 + 1) as nat,
                    |i: int| (start.start() + i * 4096) as u64,
                )
            } else {
                Seq::<u64>::empty()
            }),
    {
        PhysicalFrameRange { current: start, end, exhausted: false }
    }

    /// Yields the next frame of the range, if any is left.
    pub fn next(&mut self) -> (r: Option<PhysicalFrame>)
        requires
            old(self).wf(),
        ensures
            final(self).wf(),
            old(self).remaining().len() == 0 ==> r.is_none() && final(self).remaining().len() == 0,
            old(self).remaining().len() > 0 ==> {
                &&& r matches Some(f)
                &&& f.wf()
                &&& f.start() == old(self).remaining()[0]
                &&& final(self).remaining() == old(self).remaining().drop_first()
            },
    {
        if self.exhausted || self.current.offset.inner > self.end.offset.inner {
            return None;
        }
        let frame = self.current;
        if self.current.offset.inner == self.end.offset.inner {
            self.exhausted = true;
            proof {
                assert(old(self).remaining().len() == 1);
                assert(final(self).remaining() =~= old(self).remaining().drop_first());
            }
        } else {
            proof {
                assert((self.end.start() - self.current.start()) % 4096 == 0) by (nonlinear_arith)
                    requires
                        self.end.start() % 4096 == 0,
                        self.current.start() % 4096 == 0,
                        self.end.start() > self.current.start(),
                ;
                assert(self.current.start() + 4096 <= self.end.start());
            }
            self.current = self.current.advance(1);
            proof {
                assert(final(self).remaining() =~= old(self).remaining().drop_first());
            }
        }
        Some(frame)
    }
}

/// A 4 KiB-aligned page of virtual memory, named by its first address.
#[derive(Debug, Clone, Copy, PartialEq, Eq, Structural)]
pub struct VirtualPage {
    pub offset: VirtualAddress,
}

impl VirtualPage {
    pub open spec fn wf(self) -> bool {
        is_canonical(self.offset.inner) && self.offset.inner % 4096 == 0
    }

    pub open spec fn start(self) -> u64 {
        self.offset.inner
    }

    /// The page that contains the virtual address.
    pub fn from_address_aligned(virtual_address: VirtualAddress) -> (r: Self)
        requires
            virtual_address.wf(),
        ensures
            r.wf(),
            r.start() == align_down_spec(virtual_address.inner as int, 4096),
    {
        proof {
            crate::address::lemma_power_of_two_4096();
            lemma_align_down_canonical(virtual_address.inner, 4096);
        }
        let aligned_address = virtual_address.align_down(Size::FOUR_KIB);
        VirtualPage { offset: aligned_address }
    }

    pub fn start_address(&self) -> (r: u64)
        ensures
            r == self.start(),
    {
        self.offset.inner
    }

    /// The page `count` pages further on.
    pub fn advance(self, count: u64) -> (r: Self)
        requires
            self.wf(),
            self.start() + count * 4096 <= u64::MAX,
            is_canonical((self.start() + count * 4096) as u64),
        ensures
            r.wf(),
            r.start() == self.start() + count * 4096,
    {
        proof {
            assert((self.start() + count * 4096) % 4096 == 0) by (nonlinear_arith)
                requires
                    self.start() % 4096 == 0,
            ;
        }
        VirtualPage { offset: VirtualAddress { inner: self.offset.inner + count * 4096 } }
    }
}

/// The pages from `start` through `end`, both included, in ascending order.
pub struct VirtualPageRange {
    current: VirtualPage,
    end: VirtualPage,
    exhausted: bool,
}

impl VirtualPageRange {
    /// The start addresses of the pages still to come.
    pub closed spec fn remaining(&self) -> Seq<u64> {
        if self.exhausted || self.current.start() > self.end.start() {
            Seq::empty()
        } else {
            Seq::new(
                ((self.end.start() - self.current.start()) / 4096 + 1) as nat,
                |i: int| (self.current.start() + i * 4096) as u64,
            )
        }
    }

    pub closed spec fn wf(&self) -> bool {
        self.current.wf() && self.end.wf() && (self.current.start() <= self.end.start() ==> (
        self.current.start() >= crate::address::CANONICAL_HIGH_START || self.end.start()
            < crate::address::CANONICAL_LOW_END))
    }

    pub fn range_inclusive(start: VirtualPage, end: VirtualPage) -> (r: Self)
        requires
            start.wf(),
            end.wf(),
            start.start() <= end.start() ==> (start.start() >= crate::address::CANONICAL_HIGH_START
                || end.start() < crate::address::CANONICAL_LOW_END),
        ensures
            r.wf(),
            r.remaining() == (if start.start() <= end.start() {
                Seq::new(
                    ((end.start() - start.start()) / 4096 + 1) as nat,
                    |i: int| (start.start() + i * 4096) as u64,
                )
            } else {
                Seq::<u64>::empty()
            }),
    {
        VirtualPageRange { current: start, end, exhausted: false }
    }

    /// Yields the next page of the range, if any is left.
    pub fn next(&mut self) -> (r: Option<VirtualPage>)
        requires
            old(self).wf(),
        ensures
            final(self).wf(),
            old(self).remaining().len() == 0 ==> r.is_none() && final(self).remaining().len() == 0,
            old(self).remaining().len() > 0 ==> {
                &&& r matches Some(p)
                &&& p.wf()
                &&& p.start() == old(self).remaining()[0]
                &&& final(self).remaining() == old(self).remaining().drop_first()
            },
    {
        if self.exhausted || self.current.offset.inner > self.end.offset.inner {
            return None;
        }
        let page = self.current;
        if self.current.offset.inner == self.end.offset.inner {
            self.exhausted = true;
            proof {
                assert(old(self).remaining().len() == 1);
                assert(final(self).remaining() =~= old(self).remaining().drop_first());
            }
        } else {
            proof {
                assert((self.end.start() - self.current.start()) % 4096 == 0) by (nonlinear_arith)
                    requires
                        self.end.start() % 4096 == 0,
                        self.current.start() % 4096 == 0,
                        self.end.start() > self.current.start(),
                ;
                assert(self.current.start() + 4096 <= self.end.start());
            }
            self.current = self.current.advance(1);
            proof {
                assert(final(self).remaining() =~= old(self).remaining().drop_first());
            }
        }
        Some(page)
    }
}

} // verus!
