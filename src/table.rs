//! The four-level page table: translation and on-demand mapping.
//!
//! The tables below the root live in physical frames. They are held here by
//! the physical address of their frame; a frame that holds no table reads as
//! all-zero memory, that is as a table of unused entries.
use vstd::prelude::*;
use std::collections::HashMap;
use crate::address::{index_at_level, PhysicalAddress, VirtualAddress};
use crate::entry::{
    lemma_entry_address, lemma_table_entry, table_entry, PageTableEntry, PageTableEntryFlags,
    PHYSICAL_ADDRESS_MASK,
};
use crate::frame::{PhysicalFrame, VirtualPage};

verus! {

broadcast use vstd::std_specs::hash::group_hash_axioms;

/// One level of the hierarchy: 512 entries.
#[derive(Debug, Clone, Copy)]
pub struct PageTable {
    pub inner: [PageTableEntry; 512],
}

/// A table whose entries are all unused.
pub open spec fn unused_table() -> Seq<PageTableEntry> {
    Seq::new(512, |i: int| PageTableEntry { inner: 0 })
}

/// The table held in the frame at `key`.
pub open spec fn table_at(tables: Map<u64, PageTable>, key: u64) -> Seq<PageTableEntry> {
    if tables.contains_key(key) {
        tables[key].inner@
    } else {
        unused_table()
    }
}

/// The entry at `index` of the root table (`parent` is `None`) or of the
/// table held in the frame `parent`.
pub open spec fn slot_of(
    root: Seq<PageTableEntry>,
    tables: Map<u64, PageTable>,
    parent: Option<u64>,
    index: int,
) -> PageTableEntry {
    match parent {
        None => root[index],
        Some(key) => table_at(tables, key)[index],
    }
}

/// The physical address that `va` translates to, walking PML4, PDPT, PD and PT.
pub open spec fn walk(root: Seq<PageTableEntry>, tables: Map<u64, PageTable>, va: u64) -> Option<u64> {
    let e4 = slot_of(root, tables, None, index_at_level(va as int, 4));
    if !e4.present() {
        None
    } else {
        let e3 = slot_of(root, tables, Some(e4.address()), index_at_level(va as int, 3));
        if !e3.present() {
            None
        } else {
            let e2 = slot_of(root, tables, Some(e3.address()), index_at_level(va as int, 2));
            if !e2.present() {
                None
            } else {
                let e1 = slot_of(root, tables, Some(e2.address()), index_at_level(va as int, 1));
                if !e1.present() {
                    None
                } else {
                    Some((e1.address() + va % 4096) as u64)
                }
            }
        }
    }
}

/// Every present entry of the first state is unchanged in the second.
pub open spec fn keeps_present(
    root0: Seq<PageTableEntry>,
    tables0: Map<u64, PageTable>,
    root1: Seq<PageTableEntry>,
    tables1: Map<u64, PageTable>,
) -> bool {
    forall|p: Option<u64>, j: int|
        0 <= j < 512 && (#[trigger] slot_of(root0, tables0, p, j)).present() ==> slot_of(
            root1,
            tables1,
            p,
            j,
        ) == slot_of(root0, tables0, p, j)
}

/// Changing no present entry keeps every existing translation.
pub proof fn lemma_keeps_present_keeps_translations(
    root0: Seq<PageTableEntry>,
    tables0: Map<u64, PageTable>,
    root1: Seq<PageTableEntry>,
    tables1: Map<u64, PageTable>,
    va: u64,
)
    requires
        keeps_present(root0, tables0, root1, tables1),
        walk(root0, tables0, va).is_some(),
    ensures
        walk(root1, tables1, va) == walk(root0, tables0, va),
{
    let i4 = index_at_level(va as int, 4);
    let i3 = index_at_level(va as int, 3);
    let i2 = index_at_level(va as int, 2);
    let i1 = index_at_level(va as int, 1);
    let e4 = slot_of(root0, tables0, None, i4);
    assert(slot_of(root1, tables1, None, i4) == e4);
    let e3 = slot_of(root0, tables0, Some(e4.address()), i3);
    assert(slot_of(root1, tables1, Some(e4.address()), i3) == e3);
    let e2 = slot_of(root0, tables0, Some(e3.address()), i2);
    assert(slot_of(root1, tables1, Some(e3.address()), i2) == e2);
    let e1 = slot_of(root0, tables0, Some(e2.address()), i1);
    assert(slot_of(root1, tables1, Some(e2.address()), i1) == e1);
}

/// The byte offset within a page does not change the table indices.
pub proof fn lemma_offset_keeps_indices(p: u64, off: u64)
    requires
        p % 4096 == 0,
        off < 4096,
    ensures
        p + off <= u64::MAX,
        forall|level: int|
            1 <= level <= 4 ==> #[trigger] index_at_level((p + off) as int, level) == index_at_level(
                p as int,
                level,
            ),
        ((p + off) as u64) % 4096 == off,
{
    assert(p % 4096 == 0 && off < 4096 ==> p + off <= 0xFFFF_FFFF_FFFF_FFFFu64) by (bit_vector);
    let q = (p + off) as u64;
    assert(p % 4096 == 0 && off < 4096 && q == p + off ==> (q / 0x1000) % 512 == (p / 0x1000) % 512)
        by (bit_vector);
    assert(p % 4096 == 0 && off < 4096 && q == p + off ==> (q / 0x20_0000) % 512 == (p / 0x20_0000)
        % 512) by (bit_vector);
    assert(p % 4096 == 0 && off < 4096 && q == p + off ==> (q / 0x4000_0000) % 512 == (p
        / 0x4000_0000) % 512) by (bit_vector);
    assert(p % 4096 == 0 && off < 4096 && q == p + off ==> (q / 0x80_0000_0000) % 512 == (p
        / 0x80_0000_0000) % 512) by (bit_vector);
    assert(p % 4096 == 0 && off < 4096 && q == p + off ==> q % 4096 == off) by (bit_vector);
}

/// A page that `map_to` has mapped cannot be handed to `map_to` again:
/// mapping the same page twice never returns normally.
pub proof fn lemma_mapped_page_cannot_be_mapped_again(
    page_table: &MappedPageTable,
    page: VirtualPage,
    frame: PhysicalFrame,
)
    requires
        page.wf(),
        page_table.maps(page, frame),
    ensures
        !page_table.can_map(page),
{
    assert(page_table.translation((page.start() + 0u64) as u64) == Some((frame.start() + 0u64) as u64));
}

/// The unused entry is not present.
pub proof fn lemma_unused_not_present()
    ensures
        !(PageTableEntry { inner: 0 }).present(),
{
    assert(0u64 & 1u64 == 0u64) by (bit_vector);
}

impl PageTable {
    pub open spec fn view(&self) -> Seq<PageTableEntry> {
        self.inner@
    }

    /// A table of unused entries.
    pub fn empty() -> (r: Self)
        ensures
            r.inner@ == unused_table(),
    {
        let r = PageTable { inner: [PageTableEntry { inner: 0 }; 512] };
        assert(r.inner@ =~= unused_table());
        r
    }

    /// Sets every entry to unused.
    pub fn set_empty(&mut self)
        ensures
            final(self).inner@ == unused_table(),
    {
        let mut i: usize = 0;
        while i < 512
            invariant
                0 <= i <= 512,
                forall|j: int| 0 <= j < i ==> self.inner@[j] == (PageTableEntry { inner: 0 }),
            decreases 512 - i,
        {
            self.inner[i] = PageTableEntry::new_unused();
            i = i + 1;
        }
        assert(self.inner@ =~= unused_table());
    }
}

/// Why a mapping could not be made.
#[derive(Debug, Clone, Copy, PartialEq, Eq, Structural)]
pub enum MapToError {
    /// The frame allocator had no frame left for a new table.
    FrameAllocationFailed,
    /// The frame allocator handed out this frame, which already holds a table.
    FrameAlreadyInUse(u64),
    /// The page is mapped already.
    PageAlreadyMapped,
}

/// A source of physical frames.
pub trait FrameAllocator {
    /// What the allocator keeps true between calls.
    spec fn inv(&self) -> bool;

    /// The start addresses of the frames it will hand out, in order.
    spec fn upcoming(&self) -> Seq<u64>;

    /// The next upcoming frame, or `None` when there is none.
    fn allocate_frame(&mut self) -> (r: Option<PhysicalFrame>)
        requires
            old(self).inv(),
        ensures
            final(self).inv(),
            old(self).upcoming().len() == 0 ==> r.is_none() && final(self).upcoming() == old(
                self,
            ).upcoming(),
            old(self).upcoming().len() > 0 ==> r == Some(
                PhysicalFrame { offset: PhysicalAddress { inner: old(self).upcoming()[0] } },
            ) && final(self).upcoming() == old(self).upcoming().drop_first(),
            r matches Some(f) ==> f.wf(),
    ;
}

/// The root table with every table reachable from it, and the virtual
/// offset at which physical memory is mapped.
#[derive(Debug)]
pub struct MappedPageTable {
    page_table: PageTable,
    offset: VirtualAddress,
    tables: HashMap<u64, PageTable>,
}

impl MappedPageTable {
    /// The physical address that `va` translates to, if it is mapped.
    pub closed spec fn translation(&self, va: u64) -> Option<u64> {
        walk(self.page_table.inner@, self.tables@, va)
    }

    /// The entry at `index` of the root (`None`) or of the table in frame `parent`.
    pub closed spec fn slot(&self, parent: Option<u64>, index: int) -> PageTableEntry {
        slot_of(self.page_table.inner@, self.tables@, parent, index)
    }

    /// The table held in the frame `key`.
    pub closed spec fn table(&self, key: u64) -> Seq<PageTableEntry> {
        table_at(self.tables@, key)
    }

    /// No present entry of `self` differs in `other`.
    pub closed spec fn keeps_present_in(&self, other: &Self) -> bool {
        keeps_present(self.page_table.inner@, self.tables@, other.page_table.inner@, other.tables@)
            && other.offset == self.offset
    }

    pub closed spec fn spec_offset(&self) -> VirtualAddress {
        self.offset
    }

    /// Whether the frame `key` holds a table.
    pub closed spec fn has_table(&self, key: u64) -> bool {
        self.tables@.contains_key(key)
    }

    /// The table (`None` for the root) whose entry `va` uses at `level`.
    pub open spec fn walk_parent(&self, va: u64, level: int) -> Option<u64> {
        let p3 = Some(self.slot(None, index_at_level(va as int, 4)).address());
        let p2 = Some(self.slot(p3, index_at_level(va as int, 3)).address());
        let p1 = Some(self.slot(p2, index_at_level(va as int, 2)).address());
        if level == 4 {
            None
        } else if level == 3 {
            p3
        } else if level == 2 {
            p2
        } else {
            p1
        }
    }

    /// The entry that the walk of `va` reads at `level` (4 = PML4 ... 1 = PT).
    pub open spec fn walk_entry(&self, va: u64, level: int) -> PageTableEntry {
        self.slot(self.walk_parent(va, level), index_at_level(va as int, level))
    }

    /// How many tables the walk of `va` lacks above its last level.
    pub open spec fn missing_tables(&self, va: u64) -> int {
        if !self.walk_entry(va, 4).present() {
            3
        } else if !self.walk_entry(va, 3).present() {
            2
        } else if !self.walk_entry(va, 2).present() {
            1
        } else {
            0
        }
    }

    /// The first `missing_tables(va)` of `frames` are distinct, hold no
    /// table, and are not the table whose entry is the first one missing.
    pub open spec fn frames_fresh(&self, va: u64, frames: Seq<u64>) -> bool {
        let n = self.missing_tables(va);
        &&& frames.len() >= n
        &&& forall|i: int|
            0 <= i < n ==> !self.has_table(#[trigger] frames[i]) && Some(frames[i])
                != self.walk_parent(va, n + 1)
        &&& forall|i: int, j: int| 0 <= i < j < n ==> frames[i] != frames[j]
    }

    /// What a translation is, entry by entry.
    pub proof fn lemma_translation(&self, va: u64)
        ensures
            self.translation(va) == if self.walk_entry(va, 4).present() && self.walk_entry(
                va,
                3,
            ).present() && self.walk_entry(va, 2).present() && self.walk_entry(va, 1).present() {
                Some((self.walk_entry(va, 1).address() + va % 4096) as u64)
            } else {
                None
            },
    {
    }

    /// Whether `map_to` may map `page`: it is not mapped yet.
    pub open spec fn can_map(&self, page: VirtualPage) -> bool {
        self.translation(page.start()).is_none()
    }

    /// Every byte of `page` translates to the same byte of `frame`.
    pub open spec fn maps(&self, page: VirtualPage, frame: PhysicalFrame) -> bool {
        forall|off: u64|
            off < 4096 ==> #[trigger] self.translation((page.start() + off) as u64) == Some(
                (frame.start() + off) as u64,
            )
    }

    /// A root table whose lower tables are all-zero memory.
    pub fn new(offset: VirtualAddress, page_table: PageTable) -> (r: Self)
        ensures
            r.spec_offset() == offset,
            forall|j: int| 0 <= j < 512 ==> r.slot(None, j) == page_table.inner@[j],
            forall|key: u64| r.table(key) == unused_table(),
    {
        MappedPageTable { page_table, offset, tables: HashMap::new() }
    }

    /// Records that the frame `frame` holds `table`, as read from memory.
    pub fn load_table(&mut self, frame: PhysicalFrame, table: PageTable)
        ensures
            final(self).table(frame.start()) == table.inner@,
            final(self).has_table(frame.start()),
            forall|k: u64| k != frame.start() ==> #[trigger] final(self).table(k) == old(self).table(k),
            forall|k: u64| k != frame.start() ==> #[trigger] final(self).has_table(k) == old(self).has_table(k),
            forall|j: int| 0 <= j < 512 ==> #[trigger] final(self).slot(None, j) == old(self).slot(None, j),
            final(self).spec_offset() == old(self).spec_offset(),
    {
        self.tables.insert(frame.start_address(), table);
    }

    /// Whether the frame `key` holds a table.
    pub fn holds_table(&self, key: u64) -> (r: bool)
        ensures
            r == self.has_table(key),
    {
        self.tables.contains_key(&key)
    }

    /// The table held in the frame `key`; all unused when it holds none.
    pub fn table_at_frame(&self, key: u64) -> (r: PageTable)
        ensures
            r.inner@ == self.table(key),
    {
        self.table_copy(key)
    }

    /// The root table.
    pub fn root_table(&self) -> (r: PageTable)
        ensures
            forall|j: int| 0 <= j < 512 ==> #[trigger] r.inner@[j] == self.slot(None, j),
    {
        self.page_table
    }

    /// The offset at which physical memory is mapped.
    pub fn offset(&self) -> (r: VirtualAddress)
        ensures
            r == self.spec_offset(),
    {
        self.offset
    }

    /// A copy of the table held in the frame `key`.
    fn table_copy(&self, key: u64) -> (r: PageTable)
        ensures
            r.inner@ == self.table(key),
    {
        match self.tables.get(&key) {
            Some(t) => *t,
            None => PageTable::empty(),
        }
    }

    fn slot_entry(&self, parent: Option<u64>, index: usize) -> (r: PageTableEntry)
        requires
            index < 512,
        ensures
            r == self.slot(parent, index as int),
    {
        match parent {
            None => self.page_table.inner[index],
            Some(key) => {
                let t = self.table_copy(key);
                t.inner[index]
            },
        }
    }

    fn set_slot(&mut self, parent: Option<u64>, index: usize, entry: PageTableEntry)
        requires
            index < 512,
        ensures
            final(self).offset == old(self).offset,
            forall|k: u64| Some(k) != parent ==> #[trigger] final(self).table(k) == old(self).table(k),
            forall|k: u64| #[trigger] final(self).has_table(k) == (old(self).has_table(k) || Some(k) == parent),
            forall|p: Option<u64>, j: int|
                0 <= j < 512 ==> #[trigger] final(self).slot(p, j) == if p == parent && j
                    == index {
                    entry
                } else {
                    old(self).slot(p, j)
                },
    {
        match parent {
            None => {
                self.page_table.inner[index] = entry;
            },
            Some(key) => {
                let mut t = self.table_copy(key);
                t.inner[index] = entry;
                self.tables.insert(key, t);
            },
        }
    }

    /// Translates `virtual_address` by walking the four levels; `None` when
    /// an entry on the way is not present.
    pub fn translate_virtual_address(&self, virtual_address: VirtualAddress) -> (r: Option<
        PhysicalAddress,
    >)
        ensures
            match r {
                Some(p) => self.translation(virtual_address.inner) == Some(p.inner) && p.wf(),
                None => self.translation(virtual_address.inner).is_none(),
            },
    {
        let pml4_entry = self.slot_entry(None, virtual_address.get_pml4_index());
        let pdpt_frame = match pml4_entry.get_frame() {
            Some(f) => f,
            None => return None,
        };
        let pdpt_entry = self.slot_entry(
            Some(pdpt_frame.start_address()),
            virtual_address.get_pdpt_index(),
        );
        let pd_frame = match pdpt_entry.get_frame() {
            Some(f) => f,
            None => return None,
        };
        let pd_entry = self.slot_entry(Some(pd_frame.start_address()), virtual_address.get_pd_index());
        let pt_frame = match pd_entry.get_frame() {
            Some(f) => f,
            None => return None,
        };
        let pt_entry = self.slot_entry(Some(pt_frame.start_address()), virtual_address.get_pt_index());
        match pt_entry.get_frame() {
            Some(physical_frame) => {
                let page_offset = virtual_address.get_page_offset() as u64;
                Some(PhysicalAddress { inner: physical_frame.start_address() + page_offset })
            },
            None => None,
        }
    }

    /// The table below the entry at `index` of `parent`. When that entry is
    /// present, its frame; else the next frame of `frame_allocator` gets an
    /// empty table and the entry points at it with `flags` and present set.
    /// A frame that already holds a table, or is the parent itself, is
    /// refused. The result is the table's frame address and whether it was
    /// created. No other entry changes.
    pub fn get_next_page_table<A: FrameAllocator>(
        &mut self,
        parent: Option<u64>,
        index: usize,
        flags: u64,
        frame_allocator: &mut A,
    ) -> (r: Result<(u64, bool), MapToError>)
        requires
            index < 512,
            old(frame_allocator).inv(),
        ensures
            final(frame_allocator).inv(),
            old(self).keeps_present_in(final(self)),
            final(self).spec_offset() == old(self).spec_offset(),
            ({
                let e = old(self).slot(parent, index as int);
                let up = old(frame_allocator).upcoming();
                &&& e.present() ==> r == Ok::<(u64, bool), MapToError>((e.address(), false))
                    && *final(self) == *old(self) && *final(frame_allocator) == *old(frame_allocator)
                &&& !e.present() && up.len() == 0 ==> r == Err::<(u64, bool), MapToError>(
                    MapToError::FrameAllocationFailed,
                ) && final(frame_allocator).upcoming() == up
                &&& !e.present() && up.len() > 0 ==> final(frame_allocator).upcoming()
                    == up.drop_first() && if old(self).has_table(up[0]) || parent == Some(up[0]) {
                    r == Err::<(u64, bool), MapToError>(MapToError::FrameAlreadyInUse(up[0]))
                } else {
                    &&& r == Ok::<(u64, bool), MapToError>((up[0], true))
                    &&& final(self).slot(parent, index as int).present()
                    &&& final(self).slot(parent, index as int).address() == up[0]
                    &&& final(self).slot(parent, index as int) == table_entry(
                        flags | PageTableEntryFlags::PRESENT,
                        up[0],
                    )
                    &&& final(self).table(up[0]) == unused_table()
                }
                &&& forall|k: u64| #[trigger]
                    final(self).has_table(k) ==> old(self).has_table(k) || Some(k) == parent || (
                    !e.present() && up.len() > 0 && k == up[0])
            }),
            forall|p: Option<u64>, j: int|
                0 <= j < 512 && !(p == parent && j == index) ==> #[trigger] final(self).slot(p, j)
                    == old(self).slot(p, j),
            forall|k: u64| old(self).has_table(k) ==> #[trigger] final(self).has_table(k),
            r matches Err(MapToError::FrameAlreadyInUse(k)) ==> final(self).has_table(k),
    {
        let entry = self.slot_entry(parent, index);
        if entry.is_flag_set(PageTableEntryFlags::PRESENT) {
            proof {
                lemma_entry_address(entry.inner);
            }
            return Ok((entry.inner & PHYSICAL_ADDRESS_MASK, false));
        }
        let ghost s0 = *self;
        let ghost up = frame_allocator.upcoming();
        // Give the parent table a slot of its own before a frame is taken,
        // so that the new frame cannot be the parent itself.
        if let Some(key) = parent {
            let t = self.table_copy(key);
            self.tables.insert(key, t);
        }
        let ghost s1 = *self;
        assert forall|key: u64| #[trigger] s1.table(key) == s0.table(key) by {}
        assert forall|k: u64| #[trigger] s1.has_table(k) == (s0.has_table(k) || Some(k) == parent) by {}
        let frame = match frame_allocator.allocate_frame() {
            Some(f) => f,
            None => {
                proof {
                    self.lemma_same_tables(&s0);
                }
                return Err(MapToError::FrameAllocationFailed);
            },
        };
        let key = frame.start_address();
        if self.tables.contains_key(&key) {
            proof {
                self.lemma_same_tables(&s0);
            }
            return Err(MapToError::FrameAlreadyInUse(key));
        }
        self.tables.insert(key, PageTable::empty());
        let ghost s2 = *self;
        assert forall|k: u64| #[trigger] s2.table(k) == s0.table(k) by {}
        assert forall|k: u64| #[trigger] s2.has_table(k) == (s1.has_table(k) || k == key) by {}
        proof {
            s2.lemma_same_tables(&s0);
        }
        let new_entry = PageTableEntry::new(flags | PageTableEntryFlags::PRESENT, frame.offset);
        proof {
            lemma_table_entry(flags, key);
            assert(s2.slot(parent, index as int) == s0.slot(parent, index as int));
        }
        self.set_slot(parent, index, new_entry);
        proof {
            assert(parent != Some(key));
            assert(self.table(key) == unused_table());
            let r2 = s2.page_table.inner@;
            let t2 = s2.tables@;
            let r3 = self.page_table.inner@;
            let t3 = self.tables@;
            assert forall|p: Option<u64>, j: int|
                0 <= j < 512 && (#[trigger] slot_of(r2, t2, p, j)).present() implies slot_of(
                    r3,
                    t3,
                    p,
                    j,
                ) == slot_of(r2, t2, p, j) by {
                assert(!(p == parent && j == index));
                assert(self.slot(p, j) == s2.slot(p, j));
            }
            assert(keeps_present(r2, t2, r3, t3));
            assert(s2.keeps_present_in(self));
            s0.lemma_keeps_present_trans(&s2, self);
        }
        Ok((key, true))
    }

    /// Two states whose tables read the same have the same entries.
    proof fn lemma_same_tables(&self, other: &Self)
        requires
            forall|key: u64| #[trigger] self.table(key) == other.table(key),
            self.page_table == other.page_table,
            self.offset == other.offset,
        ensures
            forall|p: Option<u64>, j: int| #[trigger] self.slot(p, j) == other.slot(p, j),
            other.keeps_present_in(self),
    {
        assert forall|p: Option<u64>, j: int| #[trigger] self.slot(p, j) == other.slot(p, j) by {
            if p.is_some() {
                assert(self.table(p->0) == other.table(p->0));
            }
        }
        let r0 = other.page_table.inner@;
        let t0 = other.tables@;
        assert forall|p: Option<u64>, j: int|
            0 <= j < 512 && (#[trigger] slot_of(r0, t0, p, j)).present() implies slot_of(
                self.page_table.inner@,
                self.tables@,
                p,
                j,
            ) == slot_of(r0, t0, p, j) by {
            assert(self.slot(p, j) == other.slot(p, j));
        }
    }

    /// Maps `page` to `frame`: the tables missing on its walk are created in
    /// the next frames of `frame_allocator`, with `table_flags`, and the
    /// last-level entry is written with `entry_flags`; present is set on every
    /// entry written, and nothing else changes. The page must not be mapped
    /// yet: mapping a page twice is a caller bug. Translations that existed
    /// before are kept, whatever the outcome. It succeeds whenever the
    /// allocator's next frames are fresh (see `frames_fresh`), in particular
    /// when no table is missing, and then takes exactly the missing tables'
    /// frames. The caller flushes the page from the translation cache.
    #[verifier::rlimit(100)]
    #[verifier::spinoff_prover]
    pub fn map_to<A: FrameAllocator>(
        &mut self,
        page: VirtualPage,
        frame: PhysicalFrame,
        entry_flags: u64,
        table_flags: u64,
        frame_allocator: &mut A,
    ) -> (r: Result<(), MapToError>)
        requires
            page.wf(),
            frame.wf(),
            old(self).can_map(page),
            old(frame_allocator).inv(),
        ensures
            final(frame_allocator).inv(),
            forall|va: u64|
                old(self).translation(va).is_some() ==> #[trigger] final(self).translation(va)
                    == old(self).translation(va),
            final(self).spec_offset() == old(self).spec_offset(),
            r is Ok ==> final(self).maps(page, frame),
            !(r matches Err(MapToError::PageAlreadyMapped)),
            ({
                let va = page.start();
                let n = old(self).missing_tables(va);
                let up = old(frame_allocator).upcoming();
                &&& old(self).frames_fresh(va, up) ==> r is Ok
                &&& n == 0 ==> r is Ok && *final(frame_allocator) == *old(frame_allocator)
                &&& r is Ok ==> up.len() >= n && final(frame_allocator).upcoming() == up.skip(n)
                &&& final(frame_allocator).upcoming().len() <= up.len()
                &&& up.len() - final(frame_allocator).upcoming().len() <= n
                &&& final(frame_allocator).upcoming() == up.skip(
                    up.len() - final(frame_allocator).upcoming().len(),
                )
                &&& r is Ok ==> forall|p: Option<u64>, j: int|
                    0 <= j < 512 && !(p == final(self).walk_parent(va, 4) && j == index_at_level(va as int, 4))
                        && !(p == final(self).walk_parent(va, 3) && j == index_at_level(va as int, 3))
                        && !(p == final(self).walk_parent(va, 2) && j == index_at_level(va as int, 2))
                        && !(p == final(self).walk_parent(va, 1) && j == index_at_level(va as int, 1))
                        ==> #[trigger] final(self).slot(p, j) == old(self).slot(p, j)
                &&& r is Ok ==> final(self).walk_entry(va, 1) == table_entry(
                    entry_flags | PageTableEntryFlags::PRESENT,
                    frame.start(),
                )
                &&& r is Ok ==> forall|level: int|
                    2 <= level <= 4 ==> #[trigger] final(self).walk_entry(va, level) == if level
                        > n + 1 {
                        old(self).walk_entry(va, level)
                    } else {
                        table_entry(table_flags | PageTableEntryFlags::PRESENT, up[n + 1 - level])
                    }
                &&& r matches Err(MapToError::FrameAllocationFailed)
                    ==> final(frame_allocator).upcoming().len() == 0 && up.len() < n
                &&& r matches Err(MapToError::FrameAlreadyInUse(k)) ==> final(self).has_table(k)
                    && exists|j: int|
                    0 <= j < n && j < up.len() && up[j] == k && final(frame_allocator).upcoming()
                        == up.skip(j + 1)
            }),
    {
        let ghost s0 = *self;
        let ghost va = page.start();
        let ghost up = frame_allocator.upcoming();
        let ghost n = s0.missing_tables(va);
        let virtual_address = page.offset;
        let i4 = virtual_address.get_pml4_index();
        let i3 = virtual_address.get_pdpt_index();
        let i2 = virtual_address.get_pd_index();
        let i1 = virtual_address.get_pt_index();
        proof {
            lemma_unused_not_present();
        }
        // PML4
        let r4 = self.get_next_page_table(None, i4, table_flags, frame_allocator);
        let ghost s1 = *self;
        let ghost u1 = frame_allocator.upcoming();
        proof {
            self.lemma_keeps_translations(&s0);
        }
        let (pdpt, c4) = match r4 {
            Ok(v) => v,
            Err(e) => {
                proof {
                    assert(!s0.walk_entry(va, 4).present());
                    assert(n == 3);
                    match e {
                        MapToError::FrameAlreadyInUse(k) => {
                            assert(up.skip(1) =~= up.drop_first());
                            assert(self.has_table(k));
                        },
                        _ => {},
                    }
                    let fu = frame_allocator.upcoming();
                    assert(fu =~= up.skip(up.len() - fu.len()));
                }
                return Err(e);
            },
        };
        proof {
            assert(s1.walk_parent(va, 3) == Some(pdpt));
            if c4 {
                assert(n == 3);
                assert(u1 == up.drop_first());
            } else {
                assert(s1 == s0);
                assert(u1 == up);
            }
        }
        // PDPT
        let r3 = self.get_next_page_table(Some(pdpt), i3, table_flags, frame_allocator);
        let ghost s2 = *self;
        let ghost u2 = frame_allocator.upcoming();
        proof {
            s0.lemma_keeps_present_trans(&s1, &s2);
            self.lemma_keeps_translations(&s0);
        }
        let (pd, c3) = match r3 {
            Ok(v) => v,
            Err(e) => {
                proof {
                    assert(!s1.slot(Some(pdpt), i3 as int).present());
                    if c4 {
                        assert(s1.slot(Some(pdpt), i3 as int) == unused_table()[i3 as int]);
                        assert(n == 3);
                        match e {
                            MapToError::FrameAlreadyInUse(k) => {
                                assert(up.skip(2) =~= u1.drop_first());
                                assert(self.has_table(k));
                                assert(up[1] == k);
                            },
                            _ => {},
                        }
                        if s0.frames_fresh(va, up) {
                            assert(!s0.has_table(up[1]));
                            assert(up[0] != up[1]);
                            assert(Some(up[1]) != s0.walk_parent(va, 4));
                        }
                    } else {
                        assert(s0.walk_entry(va, 4).present());
                        assert(s0.walk_parent(va, 3) == Some(pdpt));
                        assert(!s0.walk_entry(va, 3).present());
                        assert(n == 2);
                        match e {
                            MapToError::FrameAlreadyInUse(k) => {
                                assert(up.skip(1) =~= up.drop_first());
                                assert(self.has_table(k));
                            },
                            _ => {},
                        }
                    }
                    let fu = frame_allocator.upcoming();
                    assert(fu =~= up.skip(up.len() - fu.len()));
                }
                return Err(e);
            },
        };
        proof {
            assert(s2.slot(None, i4 as int) == s1.slot(None, i4 as int));
            assert(s2.walk_parent(va, 2) == Some(pd));
            if c3 {
                assert(u2 == u1.drop_first());
            } else {
                assert(s2 == s1);
                assert(u2 == u1);
                assert(!c4) by {
                    if c4 {
                        assert(s1.slot(Some(pdpt), i3 as int) == unused_table()[i3 as int]);
                    }
                }
            }
        }
        // PD
        let r2 = self.get_next_page_table(Some(pd), i2, table_flags, frame_allocator);
        let ghost s3 = *self;
        let ghost u3 = frame_allocator.upcoming();
        proof {
            s0.lemma_keeps_present_trans(&s2, &s3);
            self.lemma_keeps_translations(&s0);
        }
        let (pt, c2) = match r2 {
            Ok(v) => v,
            Err(e) => {
                proof {
                    assert(!s2.slot(Some(pd), i2 as int).present());
                    if c3 {
                        assert(s2.slot(Some(pd), i2 as int) == unused_table()[i2 as int]);
                        if c4 {
                            assert(n == 3);
                            match e {
                                MapToError::FrameAlreadyInUse(k) => {
                                    assert(up.skip(3) =~= u2.drop_first());
                                    assert(self.has_table(k));
                                    assert(up[2] == k);
                                },
                                _ => {},
                            }
                            if s0.frames_fresh(va, up) {
                                assert(!s0.has_table(up[2]));
                                assert(up[0] != up[2] && up[1] != up[2]);
                            }
                        } else {
                            assert(s0.walk_entry(va, 4).present());
                            assert(!s0.walk_entry(va, 3).present());
                            assert(n == 2);
                            match e {
                                MapToError::FrameAlreadyInUse(k) => {
                                    assert(up.skip(2) =~= u2.drop_first());
                                    assert(self.has_table(k));
                                    assert(up[1] == k);
                                },
                                _ => {},
                            }
                            if s0.frames_fresh(va, up) {
                                assert(!s0.has_table(up[1]));
                                assert(up[0] != up[1]);
                                assert(Some(up[1]) != s0.walk_parent(va, 3));
                            }
                        }
                    } else {
                        assert(s0.walk_entry(va, 4).present());
                        assert(s0.walk_entry(va, 3).present());
                        assert(s0.walk_parent(va, 2) == Some(pd));
                        assert(!s0.walk_entry(va, 2).present());
                        assert(n == 1);
                        match e {
                            MapToError::FrameAlreadyInUse(k) => {
                                assert(up.skip(1) =~= up.drop_first());
                                assert(self.has_table(k));
                            },
                            _ => {},
                        }
                    }
                    let fu = frame_allocator.upcoming();
                    assert(fu =~= up.skip(up.len() - fu.len()));
                }
                return Err(e);
            },
        };
        proof {
            assert(s3.slot(None, i4 as int) == s1.slot(None, i4 as int));
            assert(s3.slot(Some(pdpt), i3 as int) == s2.slot(Some(pdpt), i3 as int));
            assert(s3.walk_parent(va, 1) == Some(pt));
            if c2 {
                assert(u3 == u2.drop_first());
            } else {
                assert(s3 == s2);
                assert(u3 == u2);
                assert(!c3) by {
                    if c3 {
                        assert(s2.slot(Some(pd), i2 as int) == unused_table()[i2 as int]);
                    }
                }
            }
        }
        let leaf = self.slot_entry(Some(pt), i1);
        proof {
            if !c2 {
                assert(s0.slot(None, i4 as int).present());
                assert(s0.slot(Some(pdpt), i3 as int).present());
                assert(s0.slot(Some(pd), i2 as int).present());
                assert(walk(s0.page_table.inner@, s0.tables@, page.start()).is_none());
            } else {
                assert(leaf == unused_table()[i1 as int]);
            }
            assert(!leaf.present());
        }
        let new_entry = PageTableEntry::new(entry_flags | PageTableEntryFlags::PRESENT, frame.offset);
        proof {
            lemma_table_entry(entry_flags, frame.start());
        }
        self.set_slot(Some(pt), i1, new_entry);
        let ghost s4 = *self;
        proof {
            let r3v = s3.page_table.inner@;
            let t3v = s3.tables@;
            assert forall|p: Option<u64>, j: int|
                0 <= j < 512 && (#[trigger] slot_of(r3v, t3v, p, j)).present() implies slot_of(
                    self.page_table.inner@,
                    self.tables@,
                    p,
                    j,
                ) == slot_of(r3v, t3v, p, j) by {
                assert(!(p == Some(pt) && j == i1));
                assert(self.slot(p, j) == s3.slot(p, j));
            }
            assert(s3.keeps_present_in(self));
            s0.lemma_keeps_present_trans(&s3, &s4);
            self.lemma_keeps_translations(&s0);
            assert(s4.slot(None, i4 as int) == s1.slot(None, i4 as int));
            assert(s4.slot(Some(pdpt), i3 as int) == s2.slot(Some(pdpt), i3 as int));
            assert(s4.slot(Some(pd), i2 as int) == s3.slot(Some(pd), i2 as int));
            assert(s4.walk_parent(va, 3) == Some(pdpt));
            assert(s4.walk_parent(va, 2) == Some(pd));
            assert(s4.walk_parent(va, 1) == Some(pt));
            assert(s4.walk_entry(va, 1) == new_entry);
            assert forall|off: u64| off < 4096 implies #[trigger] self.translation(
                (page.start() + off) as u64,
            ) == Some((frame.start() + off) as u64) by {
                lemma_offset_keeps_indices(page.start(), off);
                let v = (page.start() + off) as u64;
                assert(index_at_level(v as int, 4) == i4);
                assert(index_at_level(v as int, 3) == i3);
                assert(index_at_level(v as int, 2) == i2);
                assert(index_at_level(v as int, 1) == i1);
                assert(self.slot(None, i4 as int).address() == pdpt);
                assert(self.slot(Some(pdpt), i3 as int).address() == pd);
                assert(self.slot(Some(pd), i2 as int).address() == pt);
                assert(self.slot(Some(pt), i1 as int) == new_entry);
                assert(v % 4096 == off);
            }
            assert forall|p: Option<u64>, j: int|
                0 <= j < 512 && !(p == s4.walk_parent(va, 4) && j == index_at_level(va as int, 4))
                    && !(p == s4.walk_parent(va, 3) && j == index_at_level(va as int, 3))
                    && !(p == s4.walk_parent(va, 2) && j == index_at_level(va as int, 2))
                    && !(p == s4.walk_parent(va, 1) && j == index_at_level(va as int, 1))
                    implies #[trigger] s4.slot(p, j) == s0.slot(p, j) by {
                assert(s1.slot(p, j) == s0.slot(p, j));
                assert(s2.slot(p, j) == s1.slot(p, j));
                assert(s3.slot(p, j) == s2.slot(p, j));
                assert(s4.slot(p, j) == s3.slot(p, j));
            }
            // which tables were created, and with which frames
            if c4 {
                assert(c3 && c2);
                assert(n == 3);
                assert(up.skip(3) =~= u3);
            } else if c3 {
                assert(c2);
                assert(s0.walk_entry(va, 4).present());
                assert(!s0.walk_entry(va, 3).present());
                assert(n == 2);
                assert(up.skip(2) =~= u3);
            } else if c2 {
                assert(s0.walk_entry(va, 4).present());
                assert(s0.walk_entry(va, 3).present());
                assert(!s0.walk_entry(va, 2).present());
                assert(n == 1);
                assert(up.skip(1) =~= u3);
            } else {
                assert(n == 0);
                assert(up.skip(0) =~= up);
            }
            assert(frame_allocator.upcoming() =~= up.skip(up.len() - frame_allocator.upcoming().len()));
            assert(s4.walk_entry(va, 4) == s1.slot(None, i4 as int));
            assert(s4.walk_entry(va, 3) == s2.slot(Some(pdpt), i3 as int));
            assert(s4.walk_entry(va, 2) == s3.slot(Some(pd), i2 as int));
            assert forall|level: int| 2 <= level <= 4 implies #[trigger] s4.walk_entry(va, level)
                == if level > n + 1 {
                s0.walk_entry(va, level)
            } else {
                table_entry(table_flags | PageTableEntryFlags::PRESENT, up[n + 1 - level])
            } by {
                if level == 4 {
                    if !c4 {
                        assert(s0.walk_entry(va, 4) == s0.slot(None, i4 as int));
                    }
                } else if level == 3 {
                    if !c3 {
                        assert(s1 == s0);
                        assert(s0.walk_entry(va, 3) == s0.slot(Some(pdpt), i3 as int));
                    } else if c4 {
                        assert(u1[0] == up[1]);
                    }
                } else {
                    if !c2 {
                        assert(s2 == s0);
                        assert(s0.walk_entry(va, 2) == s0.slot(Some(pd), i2 as int));
                    } else if c4 {
                        assert(u2[0] == up[2]);
                    } else if c3 {
                        assert(u2[0] == up[1]);
                    }
                }
            }
        }
        Ok(())
    }

    proof fn lemma_keeps_present_trans(&self, mid: &Self, last: &Self)
        requires
            self.keeps_present_in(mid),
            mid.keeps_present_in(last),
        ensures
            self.keeps_present_in(last),
    {
        assert forall|p: Option<u64>, j: int|
            0 <= j < 512 && (#[trigger] self.slot(p, j)).present() implies last.slot(p, j)
                == self.slot(p, j) by {
            assert(mid.slot(p, j) == self.slot(p, j));
        }
        let r0 = self.page_table.inner@;
        let t0 = self.tables@;
        assert forall|p: Option<u64>, j: int|
            0 <= j < 512 && (#[trigger] slot_of(r0, t0, p, j)).present() implies slot_of(
                last.page_table.inner@,
                last.tables@,
                p,
                j,
            ) == slot_of(r0, t0, p, j) by {
            assert(last.slot(p, j) == self.slot(p, j));
        }
    }

    proof fn lemma_keeps_translations(&self, before: &Self)
        requires
            before.keeps_present_in(self),
        ensures
            forall|va: u64|
                before.translation(va).is_some() ==> #[trigger] self.translation(va)
                    == before.translation(va),
    {
        assert forall|va: u64| before.translation(va).is_some() implies #[trigger] self.translation(
            va,
        ) == before.translation(va) by {
            lemma_keeps_present_keeps_translations(
                before.page_table.inner@,
                before.tables@,
                self.page_table.inner@,
                self.tables@,
                va,
            );
        }
    }
}

} // verus!
