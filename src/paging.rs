use vstd::prelude::*;

verus! {

/// Entries per page table.
pub const ENTRY_COUNT: usize = 512;

/// Entry flag: the entry points somewhere.
pub const PRESENT: u64 = 0x1;

/// Entry flag, at levels 3 and 2: the entry maps a huge page itself.
pub const HUGE_PAGE: u64 = 0x80;

/// The bits of an entry that hold the physical address it points to.
pub const ADDR_MASK: u64 = 0x000f_ffff_ffff_f000;

/// The largest offset at which the window still holds every physical
/// address that an entry can name.
pub const MAX_PHYS_OFFSET: u64 = 0xfff0_0000_0000_0000;

/// A translation that cannot be completed by this walker.
#[derive(Debug, Clone, Copy, PartialEq, Eq, Structural)]
pub enum TranslateError {
    /// A level 3 or level 2 entry maps a huge page.
    HugePage,
}

/// Why a physical-memory window was refused.
#[derive(Debug, Clone, Copy, PartialEq, Eq, Structural)]
pub enum MapperError {
    /// The offset is not frame-aligned or leaves physical addresses outside
    /// the address space.
    InvalidOffset,
    /// The root table address is not a frame address.
    InvalidRoot,
    /// The physical address plus the offset runs past the address space.
    OutsideWindow,
}

pub open spec fn present(e: u64) -> bool {
    e & PRESENT != 0
}

pub open spec fn huge(e: u64) -> bool {
    e & HUGE_PAGE != 0
}

/// The physical frame an entry points to.
pub open spec fn frame_of(e: u64) -> u64 {
    e & ADDR_MASK
}

/// An address that names a frame: aligned and within the entry's address bits.
pub open spec fn is_frame_address(a: u64) -> bool {
    a & ADDR_MASK == a
}

pub open spec fn p4_index(a: u64) -> u64 {
    (a >> 39u64) & 0x1ffu64
}

pub open spec fn p3_index(a: u64) -> u64 {
    (a >> 30u64) & 0x1ffu64
}

pub open spec fn p2_index(a: u64) -> u64 {
    (a >> 21u64) & 0x1ffu64
}

pub open spec fn p1_index(a: u64) -> u64 {
    (a >> 12u64) & 0x1ffu64
}

pub open spec fn page_offset(a: u64) -> u64 {
    a & 0xfffu64
}

pub open spec fn zero_table() -> Seq<u64> {
    Seq::new(ENTRY_COUNT as nat, |i: int| 0u64)
}

/// One page table: 512 raw 64-bit entries.
pub struct PageTable {
    entries: Vec<u64>,
}

impl View for PageTable {
    type V = Seq<u64>;

    closed spec fn view(&self) -> Seq<u64> {
        self.entries@
    }
}

impl PageTable {
    pub open spec fn wf(&self) -> bool {
        self@.len() == ENTRY_COUNT
    }

    /// A table whose entries are all unused.
    pub fn new() -> (r: PageTable)
        ensures
            r.wf(),
            r@ == zero_table(),
    {
        let mut entries: Vec<u64> = Vec::new();
        let mut i: usize = 0;
        while i < ENTRY_COUNT
            invariant
                i <= ENTRY_COUNT,
                entries@ == Seq::new(i as nat, |k: int| 0u64),
            decreases ENTRY_COUNT - i,
        {
            entries.push(0);
            i = i + 1;
            assert(entries@ =~= Seq::new(i as nat, |k: int| 0u64));
        }
        PageTable { entries }
    }

    pub fn entry(&self, index: usize) -> (r: u64)
        requires
            self.wf(),
            index < ENTRY_COUNT,
        ensures
            r == self@[index as int],
    {
        self.entries[index]
    }

    pub fn set_entry(&mut self, index: usize, entry: u64)
        requires
            old(self).wf(),
            index < ENTRY_COUNT,
        ensures
            final(self).wf(),
            final(self)@ == old(self)@.update(index as int, entry),
    {
        self.entries.set(index, entry);
    }
}

/// A page table as it sits in the window, at virtual address `virt`.
struct WindowPage {
    virt: u64,
    table: PageTable,
}

/// The table stored last at `virt` among `pages`, if any.
spec fn find_table(pages: Seq<WindowPage>, virt: u64) -> Option<Seq<u64>>
    decreases pages.len(),
{
    if pages.len() == 0 {
        None
    } else if pages.last().virt == virt {
        Some(pages.last().table@)
    } else {
        find_table(pages.drop_last(), virt)
    }
}

/// Read access to the page tables through the kernel's physical-memory
/// window: physical address `p` is read at virtual address `p + offset`.
/// Memory that holds no table reads as an all-unused table.
pub struct OffsetPageTable {
    offset: u64,
    level_4_frame: u64,
    pages: Vec<WindowPage>,
}

impl OffsetPageTable {
    /// The offset of the physical-memory window.
    pub closed spec fn offset(&self) -> u64 {
        self.offset
    }

    /// The physical frame of the level 4 table.
    pub closed spec fn level_4_frame(&self) -> u64 {
        self.level_4_frame
    }

    /// The table found at window address `virt`.
    pub closed spec fn table_at(&self, virt: u64) -> Seq<u64> {
        match find_table(self.pages@, virt) {
            Some(t) => t,
            None => zero_table(),
        }
    }

    pub closed spec fn inv(&self) -> bool {
        &&& self.offset <= MAX_PHYS_OFFSET
        &&& self.offset % 4096 == 0
        &&& is_frame_address(self.level_4_frame)
        &&& forall|i: int| 0 <= i < self.pages@.len() ==> (#[trigger] self.pages@[i]).table.wf()
    }

    /// Entry `index` of the table in physical frame `frame`, read through the
    /// window.
    pub open spec fn entry_at(&self, frame: u64, index: u64) -> u64 {
        self.table_at((frame + self.offset()) as u64)[index as int]
    }

    /// The four-level walk for `addr`.
    pub open spec fn translate_spec(&self, addr: u64) -> Result<Option<u64>, TranslateError> {
        let e4 = self.entry_at(self.level_4_frame(), p4_index(addr));
        if !present(e4) {
            Ok(None)
        } else {
            let e3 = self.entry_at(frame_of(e4), p3_index(addr));
            if !present(e3) {
                Ok(None)
            } else if huge(e3) {
                Err(TranslateError::HugePage)
            } else {
                let e2 = self.entry_at(frame_of(e3), p2_index(addr));
                if !present(e2) {
                    Ok(None)
                } else if huge(e2) {
                    Err(TranslateError::HugePage)
                } else {
                    let e1 = self.entry_at(frame_of(e2), p1_index(addr));
                    if !present(e1) {
                        Ok(None)
                    } else {
                        Ok(Some((frame_of(e1) + page_offset(addr)) as u64))
                    }
                }
            }
        }
    }

    /// A window at `offset` over physical memory that holds no tables yet,
    /// rooted at `level_4_frame` (the value of the page-table-root register).
    pub fn new(offset: u64, level_4_frame: u64) -> (r: Result<OffsetPageTable, MapperError>)
        ensures
            offset > MAX_PHYS_OFFSET || offset % 4096 != 0 ==> r == Err::<
                OffsetPageTable,
                MapperError,
            >(MapperError::InvalidOffset),
            offset <= MAX_PHYS_OFFSET && offset % 4096 == 0 && !is_frame_address(level_4_frame)
                ==> r == Err::<OffsetPageTable, MapperError>(MapperError::InvalidRoot),
            r is Ok <==> offset <= MAX_PHYS_OFFSET && offset % 4096 == 0 && is_frame_address(
                level_4_frame,
            ),
            r matches Ok(m) ==> {
                &&& m.inv()
                &&& m.offset() == offset
                &&& m.level_4_frame() == level_4_frame
                &&& forall|v: u64| #[trigger] m.table_at(v) == zero_table()
            },
    {
        if offset > MAX_PHYS_OFFSET || offset % 4096 != 0 {
            return Err(MapperError::InvalidOffset);
        }
        if level_4_frame & ADDR_MASK != level_4_frame {
            return Err(MapperError::InvalidRoot);
        }
        Ok(OffsetPageTable { offset, level_4_frame, pages: Vec::new() })
    }

    /// Places `table` in physical frame `phys`, so that the window shows it
    /// at `phys + offset`; refused where that address does not exist.
    pub fn add_table(&mut self, phys: u64, table: PageTable) -> (r: Result<(), MapperError>)
        requires
            old(self).inv(),
            table.wf(),
        ensures
            final(self).inv(),
            final(self).offset() == old(self).offset(),
            final(self).level_4_frame() == old(self).level_4_frame(),
            r is Ok <==> phys + old(self).offset() <= u64::MAX,
            r is Err ==> r == Err::<(), MapperError>(MapperError::OutsideWindow),
            r is Err ==> forall|v: u64| #[trigger] final(self).table_at(v) == old(self).table_at(v),
            r is Ok ==> forall|v: u64| #[trigger]
                final(self).table_at(v) == if v == phys + old(self).offset() {
                    table@
                } else {
                    old(self).table_at(v)
                },
    {
        if phys > u64::MAX - self.offset {
            return Err(MapperError::OutsideWindow);
        }
        let virt = phys + self.offset;
        let ghost t = table@;
        let ghost before = self.pages@;
        self.pages.push(WindowPage { virt, table });
        proof {
            assert(self.pages@.drop_last() =~= before);
            assert forall|v: u64| #[trigger]
                self.table_at(v) == if v == virt {
                    t
                } else {
                    old(self).table_at(v)
                } by {
                assert(find_table(self.pages@, v) == if v == virt {
                    Some(t)
                } else {
                    find_table(before, v)
                });
            }
        }
        Ok(())
    }

    /// Entry `index` of the table in physical frame `frame`.
    fn read_entry(&self, frame: u64, index: u64) -> (r: u64)
        requires
            self.inv(),
            is_frame_address(frame),
            index < 512,
        ensures
            r == self.entry_at(frame, index),
    {
        proof {
            lemma_frame_in_window(frame, self.offset);
        }
        let virt = frame + self.offset;
        let mut i: usize = self.pages.len();
        proof {
            assert(self.pages@.take(i as int) =~= self.pages@);
        }
        while i > 0
            invariant
                self.inv(),
                index < 512,
                virt == frame + self.offset,
                i <= self.pages@.len(),
                find_table(self.pages@, virt) == find_table(self.pages@.take(i as int), virt),
            decreases i,
        {
            let page = &self.pages[i - 1];
            proof {
                assert(self.pages@.take(i as int).drop_last() =~= self.pages@.take(i - 1));
                assert(self.pages@.take(i as int).last() == self.pages@[i - 1]);
            }
            if page.virt == virt {
                proof {
                    assert(page.table.wf());
                }
                return page.table.entry(index as usize);
            }
            i = i - 1;
        }
        0
    }

    /// The physical address that `addr` maps to, `None` where it is not
    /// mapped, or an error where the walk meets a huge page. The tables are
    /// only read.
    pub fn translate(&self, addr: u64) -> (r: Result<Option<u64>, TranslateError>)
        requires
            self.inv(),
        ensures
            r == self.translate_spec(addr),
    {
        proof {
            lemma_index_bounds(addr);
        }
        let e4 = self.read_entry(self.level_4_frame, (addr >> 39u64) & 0x1ffu64);
        if e4 & PRESENT == 0 {
            return Ok(None);
        }
        proof {
            lemma_frame_of_is_frame(e4);
        }
        let e3 = self.read_entry(e4 & ADDR_MASK, (addr >> 30u64) & 0x1ffu64);
        if e3 & PRESENT == 0 {
            return Ok(None);
        }
        if e3 & HUGE_PAGE != 0 {
            return Err(TranslateError::HugePage);
        }
        proof {
            lemma_frame_of_is_frame(e3);
        }
        let e2 = self.read_entry(e3 & ADDR_MASK, (addr >> 21u64) & 0x1ffu64);
        if e2 & PRESENT == 0 {
            return Ok(None);
        }
        if e2 & HUGE_PAGE != 0 {
            return Err(TranslateError::HugePage);
        }
        proof {
            lemma_frame_of_is_frame(e2);
        }
        let e1 = self.read_entry(e2 & ADDR_MASK, (addr >> 12u64) & 0x1ffu64);
        if e1 & PRESENT == 0 {
            return Ok(None);
        }
        proof {
            lemma_frame_plus_offset(e1, addr);
        }
        Ok(Some((e1 & ADDR_MASK) + (addr & 0xfffu64)))
    }
}

/// An address that no table in the window maps (no table holds a present
/// entry at its level 1 index, nor a present huge-page entry at its level 3 or
/// level 2 index) is reported unmapped.
pub proof fn lemma_never_mapped_is_unmapped(m: OffsetPageTable, addr: u64)
    requires
        forall|v: u64| !present(#[trigger] m.table_at(v)[p1_index(addr) as int]),
        forall|v: u64|
            !(present(#[trigger] m.table_at(v)[p3_index(addr) as int]) && huge(
                m.table_at(v)[p3_index(addr) as int],
            )),
        forall|v: u64|
            !(present(#[trigger] m.table_at(v)[p2_index(addr) as int]) && huge(
                m.table_at(v)[p2_index(addr) as int],
            )),
    ensures
        m.translate_spec(addr) == Ok::<Option<u64>, TranslateError>(None),
{
}

/// In a window that holds no tables, every address is unmapped.
pub proof fn lemma_empty_window_unmapped(m: OffsetPageTable, addr: u64)
    requires
        forall|v: u64| #[trigger] m.table_at(v) == zero_table(),
    ensures
        m.translate_spec(addr) == Ok::<Option<u64>, TranslateError>(None),
{
    assert(0u64 & 1u64 == 0) by (bit_vector);
    lemma_index_bounds(addr);
    assert(m.table_at((m.level_4_frame() + m.offset()) as u64) == zero_table());
}

proof fn lemma_index_bounds(a: u64)
    ensures
        p4_index(a) < 512,
        p3_index(a) < 512,
        p2_index(a) < 512,
        p1_index(a) < 512,
{
    assert((a >> 39u64) & 0x1ffu64 < 512) by (bit_vector);
    assert((a >> 30u64) & 0x1ffu64 < 512) by (bit_vector);
    assert((a >> 21u64) & 0x1ffu64 < 512) by (bit_vector);
    assert((a >> 12u64) & 0x1ffu64 < 512) by (bit_vector);
}

proof fn lemma_frame_of_is_frame(e: u64)
    ensures
        is_frame_address(frame_of(e)),
{
    assert((e & 0x000f_ffff_ffff_f000u64) & 0x000f_ffff_ffff_f000u64 == e & 0x000f_ffff_ffff_f000u64)
        by (bit_vector);
}

proof fn lemma_frame_in_window(frame: u64, offset: u64)
    requires
        is_frame_address(frame),
        offset <= MAX_PHYS_OFFSET,
    ensures
        frame + offset <= u64::MAX,
{
    assert(frame & 0x000f_ffff_ffff_f000u64 == frame ==> frame <= 0x000f_ffff_ffff_f000u64)
        by (bit_vector);
}

proof fn lemma_frame_plus_offset(e: u64, a: u64)
    ensures
        frame_of(e) + page_offset(a) <= u64::MAX,
{
    assert(e & 0x000f_ffff_ffff_f000u64 <= 0x000f_ffff_ffff_f000u64) by (bit_vector);
    assert(a & 0xfffu64 <= 0xfffu64) by (bit_vector);
}

} // verus!
