//! Sv39 paging arithmetic: page sizes, page-table entries and the physical
//! and virtual address formats. Only the bit-level encoding lives here; the
//! tables themselves are raw physical memory, walked outside the crate.
use vstd::prelude::*;

verus! {

/// The page sizes the translation scheme knows, one per table level (and
/// two beyond it).
#[derive(Debug, Clone, Copy, PartialEq, Eq, Hash, Structural)]
pub enum PageSize {
    Normal,
    Mega,
    Giga,
    Tera,
    Peta,
}

impl PageSize {
    /// Bits needed to represent an address into the page.
    pub open spec fn spec_bits(self) -> usize {
        match self {
            PageSize::Normal => 12,
            PageSize::Mega => 21,
            PageSize::Giga => 30,
            PageSize::Tera => 39,
            PageSize::Peta => 48,
        }
    }

    /// Bits needed to represent an address into the page.
    pub fn bits(&self) -> (b: usize)
        ensures
            b == self.spec_bits(),
    {
        match self {
            PageSize::Normal => 12,
            PageSize::Mega => 21,
            PageSize::Giga => 30,
            PageSize::Tera => 39,
            PageSize::Peta => 48,
        }
    }

    /// Size of the page in bytes: two to the power of `bits`.
    pub open spec fn spec_size(self) -> u64 {
        match self {
            PageSize::Normal => 0x1000,
            PageSize::Mega => 0x20_0000,
            PageSize::Giga => 0x4000_0000,
            PageSize::Tera => 0x80_0000_0000,
            PageSize::Peta => 0x1_0000_0000_0000,
        }
    }

    /// Size of the page in bytes: two to the power of `bits`.
    pub fn size(&self) -> (s: u64)
        ensures
            s == self.spec_size(),
    {
        match self {
            PageSize::Normal => 0x1000,
            PageSize::Mega => 0x20_0000,
            PageSize::Giga => 0x4000_0000,
            PageSize::Tera => 0x80_0000_0000,
            PageSize::Peta => 0x1_0000_0000_0000,
        }
    }

    /// The largest page size that fits `size` bytes, bottoming out at a
    /// normal page.
    pub fn round_down(size: u64) -> (p: Self)
        ensures
            size >= PageSize::Peta.spec_size() ==> p == PageSize::Peta,
            PageSize::Tera.spec_size() <= size < PageSize::Peta.spec_size() ==> p
                == PageSize::Tera,
            PageSize::Giga.spec_size() <= size < PageSize::Tera.spec_size() ==> p
                == PageSize::Giga,
            PageSize::Mega.spec_size() <= size < PageSize::Giga.spec_size() ==> p
                == PageSize::Mega,
            size < PageSize::Mega.spec_size() ==> p == PageSize::Normal,
    {
        if size >= 0x1_0000_0000_0000 {
            PageSize::Peta
        } else if size >= 0x80_0000_0000 {
            PageSize::Tera
        } else if size >= 0x4000_0000 {
            PageSize::Giga
        } else if size >= 0x20_0000 {
            PageSize::Mega
        } else {
            PageSize::Normal
        }
    }
}

/// One entry of an Sv39 page table: a valid bit, permission bits, and the
/// physical page number of a mapping or of the next table level.
#[derive(Debug, Clone, Copy, PartialEq, Eq, Structural)]
pub struct PageTableEntry(pub u64);

impl PageTableEntry {
    /// The entry's valid bit (bit 0).
    pub open spec fn spec_valid(self) -> bool {
        self.0 & 0x1 == 0x1
    }

    /// The entry's read permission bit (bit 1).
    pub open spec fn spec_r(self) -> bool {
        self.0 & 0x2 == 0x2
    }

    /// The entry's write permission bit (bit 2).
    pub open spec fn spec_w(self) -> bool {
        self.0 & 0x4 == 0x4
    }

    /// The entry's execute permission bit (bit 3).
    pub open spec fn spec_x(self) -> bool {
        self.0 & 0x8 == 0x8
    }

    /// The low part of the physical page number: bits 10 to 18.
    pub open spec fn spec_ppn_0(self) -> u64 {
        (self.0 >> 10) & 0x1ff
    }

    /// The middle part of the physical page number: bits 19 to 27.
    pub open spec fn spec_ppn_1(self) -> u64 {
        (self.0 >> 19) & 0x1ff
    }

    /// The high part of the physical page number: bits 28 to 53.
    pub open spec fn spec_ppn_2(self) -> u64 {
        (self.0 >> 28) & 0x3ff_ffff
    }

    /// All parts of the entry other than the valid and permission bits, for
    /// saying that a permission change touches nothing else.
    pub open spec fn spec_rest(self) -> u64 {
        self.0 & 0xffff_ffff_ffff_fff0
    }

    /// The entry's valid bit.
    pub fn valid(&self) -> (r: bool)
        ensures
            r == self.spec_valid(),
    {
        self.0 & 0x1 == 0x1
    }

    /// Set the entry's valid bit, leaving every other bit alone.
    pub fn set_valid(&mut self, valid: bool)
        ensures
            final(self).spec_valid() == valid,
            final(self).spec_r() == old(self).spec_r(),
            final(self).spec_w() == old(self).spec_w(),
            final(self).spec_x() == old(self).spec_x(),
            final(self).spec_rest() == old(self).spec_rest(),
            final(self).spec_ppn_0() == old(self).spec_ppn_0(),
            final(self).spec_ppn_1() == old(self).spec_ppn_1(),
            final(self).spec_ppn_2() == old(self).spec_ppn_2(),
    {
        proof {
            lemma_set_low_bit(self.0, 0x1);
        }
        if valid {
            self.0 = self.0 | 0x1;
        } else {
            self.0 = self.0 & !0x1u64;
        }
    }

    /// Set the entry's read permission bit, leaving every other bit alone.
    pub fn set_r(&mut self, r: bool)
        ensures
            final(self).spec_r() == r,
            final(self).spec_valid() == old(self).spec_valid(),
            final(self).spec_w() == old(self).spec_w(),
            final(self).spec_x() == old(self).spec_x(),
            final(self).spec_rest() == old(self).spec_rest(),
            final(self).spec_ppn_0() == old(self).spec_ppn_0(),
            final(self).spec_ppn_1() == old(self).spec_ppn_1(),
            final(self).spec_ppn_2() == old(self).spec_ppn_2(),
    {
        proof {
            lemma_set_low_bit(self.0, 0x2);
        }
        if r {
            self.0 = self.0 | 0x2;
        } else {
            self.0 = self.0 & !0x2u64;
        }
    }

    /// Set the entry's write permission bit, leaving every other bit alone.
    pub fn set_w(&mut self, w: bool)
        ensures
            final(self).spec_w() == w,
            final(self).spec_valid() == old(self).spec_valid(),
            final(self).spec_r() == old(self).spec_r(),
            final(self).spec_x() == old(self).spec_x(),
            final(self).spec_rest() == old(self).spec_rest(),
            final(self).spec_ppn_0() == old(self).spec_ppn_0(),
            final(self).spec_ppn_1() == old(self).spec_ppn_1(),
            final(self).spec_ppn_2() == old(self).spec_ppn_2(),
    {
        proof {
            lemma_set_low_bit(self.0, 0x4);
        }
        if w {
            self.0 = self.0 | 0x4;
        } else {
            self.0 = self.0 & !0x4u64;
        }
    }

    /// Set the entry's execute permission bit, leaving every other bit
    /// alone.
    pub fn set_x(&mut self, x: bool)
        ensures
            final(self).spec_x() == x,
            final(self).spec_valid() == old(self).spec_valid(),
            final(self).spec_r() == old(self).spec_r(),
            final(self).spec_w() == old(self).spec_w(),
            final(self).spec_rest() == old(self).spec_rest(),
            final(self).spec_ppn_0() == old(self).spec_ppn_0(),
            final(self).spec_ppn_1() == old(self).spec_ppn_1(),
            final(self).spec_ppn_2() == old(self).spec_ppn_2(),
    {
        proof {
            lemma_set_low_bit(self.0, 0x8);
        }
        if x {
            self.0 = self.0 | 0x8;
        } else {
            self.0 = self.0 & !0x8u64;
        }
    }

    /// Set the low part of the physical page number, leaving the other
    /// parts and the valid and permission bits alone.
    pub fn set_ppn_0(&mut self, ppn: u64)
        requires
            ppn <= 0x1ff,
        ensures
            final(self).spec_ppn_0() == ppn,
            final(self).spec_ppn_1() == old(self).spec_ppn_1(),
            final(self).spec_ppn_2() == old(self).spec_ppn_2(),
            final(self).spec_valid() == old(self).spec_valid(),
            final(self).spec_r() == old(self).spec_r(),
            final(self).spec_w() == old(self).spec_w(),
            final(self).spec_x() == old(self).spec_x(),
    {
        let v = self.0;
        proof {
            assert(ppn <= 0x1ff ==> {
                let w = (v & !(0x1ffu64 << 10)) | (ppn << 10);
                &&& (w >> 10) & 0x1ff == ppn
                &&& (w >> 19) & 0x1ff == (v >> 19) & 0x1ff
                &&& (w >> 28) & 0x3ff_ffff == (v >> 28) & 0x3ff_ffff
                &&& (w & 0x1 == 0x1) == (v & 0x1 == 0x1)
                &&& (w & 0x2 == 0x2) == (v & 0x2 == 0x2)
                &&& (w & 0x4 == 0x4) == (v & 0x4 == 0x4)
                &&& (w & 0x8 == 0x8) == (v & 0x8 == 0x8)
            }) by (bit_vector);
        }
        self.0 = (v & !(0x1ffu64 << 10)) | (ppn << 10);
    }

    /// Set the middle part of the physical page number, leaving the other
    /// parts and the valid and permission bits alone.
    pub fn set_ppn_1(&mut self, ppn: u64)
        requires
            ppn <= 0x1ff,
        ensures
            final(self).spec_ppn_1() == ppn,
            final(self).spec_ppn_0() == old(self).spec_ppn_0(),
            final(self).spec_ppn_2() == old(self).spec_ppn_2(),
            final(self).spec_valid() == old(self).spec_valid(),
            final(self).spec_r() == old(self).spec_r(),
            final(self).spec_w() == old(self).spec_w(),
            final(self).spec_x() == old(self).spec_x(),
    {
        let v = self.0;
        proof {
            assert(ppn <= 0x1ff ==> {
                let w = (v & !(0x1ffu64 << 19)) | (ppn << 19);
                &&& (w >> 19) & 0x1ff == ppn
                &&& (w >> 10) & 0x1ff == (v >> 10) & 0x1ff
                &&& (w >> 28) & 0x3ff_ffff == (v >> 28) & 0x3ff_ffff
                &&& (w & 0x1 == 0x1) == (v & 0x1 == 0x1)
                &&& (w & 0x2 == 0x2) == (v & 0x2 == 0x2)
                &&& (w & 0x4 == 0x4) == (v & 0x4 == 0x4)
                &&& (w & 0x8 == 0x8) == (v & 0x8 == 0x8)
            }) by (bit_vector);
        }
        self.0 = (v & !(0x1ffu64 << 19)) | (ppn << 19);
    }

    /// Set the high part of the physical page number, leaving the other
    /// parts and the valid and permission bits alone.
    pub fn set_ppn_2(&mut self, ppn: u64)
        requires
            ppn <= 0x3ff_ffff,
        ensures
            final(self).spec_ppn_2() == ppn,
            final(self).spec_ppn_0() == old(self).spec_ppn_0(),
            final(self).spec_ppn_1() == old(self).spec_ppn_1(),
            final(self).spec_valid() == old(self).spec_valid(),
            final(self).spec_r() == old(self).spec_r(),
            final(self).spec_w() == old(self).spec_w(),
            final(self).spec_x() == old(self).spec_x(),
    {
        let v = self.0;
        proof {
            assert(ppn <= 0x3ff_ffff ==> {
                let w = (v & !(0x3ff_ffffu64 << 28)) | (ppn << 28);
                &&& (w >> 28) & 0x3ff_ffff == ppn
                &&& (w >> 10) & 0x1ff == (v >> 10) & 0x1ff
                &&& (w >> 19) & 0x1ff == (v >> 19) & 0x1ff
                &&& (w & 0x1 == 0x1) == (v & 0x1 == 0x1)
                &&& (w & 0x2 == 0x2) == (v & 0x2 == 0x2)
                &&& (w & 0x4 == 0x4) == (v & 0x4 == 0x4)
                &&& (w & 0x8 == 0x8) == (v & 0x8 == 0x8)
            }) by (bit_vector);
        }
        self.0 = (v & !(0x3ff_ffffu64 << 28)) | (ppn << 28);
    }

    /// Mark the entry as pointing to a next-level table: an entry whose
    /// read, write and execute permissions are all clear.
    pub fn set_next_level(&mut self)
        ensures
            !final(self).spec_r(),
            !final(self).spec_w(),
            !final(self).spec_x(),
            final(self).spec_valid() == old(self).spec_valid(),
            final(self).spec_rest() == old(self).spec_rest(),
            final(self).spec_ppn_0() == old(self).spec_ppn_0(),
            final(self).spec_ppn_1() == old(self).spec_ppn_1(),
            final(self).spec_ppn_2() == old(self).spec_ppn_2(),
    {
        self.set_r(false);
        self.set_w(false);
        self.set_x(false);
    }

    /// Whether the entry points to a next-level table rather than mapping a
    /// page: no read, write or execute permission.
    pub fn next_level(&self) -> (r: bool)
        ensures
            r == (!self.spec_r() && !self.spec_w() && !self.spec_x()),
    {
        self.0 & 0x2 != 0x2 && self.0 & 0x4 != 0x4 && self.0 & 0x8 != 0x8
    }

    /// The physical address the entry points to, if it is valid: its
    /// physical page number moved into the address's page-number fields,
    /// with a zero page offset.
    pub fn as_physical_addr(&self) -> (r: Option<Sv39Physical>)
        ensures
            match r {
                Some(addr) => self.spec_valid() && addr.spec_ppn_0() == self.spec_ppn_0()
                    && addr.spec_ppn_1() == self.spec_ppn_1() && addr.spec_ppn_2()
                    == self.spec_ppn_2() && addr.spec_page_offset() == 0,
                None => !self.spec_valid(),
            },
    {
        if !self.valid() {
            return None;
        }

        let v = self.0;
        let addr = ((v >> 10) & 0x1ff) << 12 | ((v >> 19) & 0x1ff) << 21 | ((v >> 28) & 0x3ff_ffff)
            << 30;
        proof {
            assert(((((v >> 10) & 0x1ff) << 12 | ((v >> 19) & 0x1ff) << 21 | ((v >> 28)
                & 0x3ff_ffff) << 30) >> 12) & 0x1ff == (v >> 10) & 0x1ff) by (bit_vector);
            assert(((((v >> 10) & 0x1ff) << 12 | ((v >> 19) & 0x1ff) << 21 | ((v >> 28)
                & 0x3ff_ffff) << 30) >> 21) & 0x1ff == (v >> 19) & 0x1ff) by (bit_vector);
            assert(((((v >> 10) & 0x1ff) << 12 | ((v >> 19) & 0x1ff) << 21 | ((v >> 28)
                & 0x3ff_ffff) << 30) >> 30) & 0x3ff_ffff == (v >> 28) & 0x3ff_ffff)
                by (bit_vector);
            assert((((v >> 10) & 0x1ff) << 12 | ((v >> 19) & 0x1ff) << 21 | ((v >> 28)
                & 0x3ff_ffff) << 30) & 0xfff == 0) by (bit_vector);
        }
        Some(Sv39Physical(addr))
    }
}

/// Setting or clearing one of the low four bits of `v` changes exactly that
/// bit.
proof fn lemma_set_low_bit(v: u64, m: u64)
    requires
        m == 0x1 || m == 0x2 || m == 0x4 || m == 0x8,
    ensures
        (v | m) & m == m,
        (v & !m) & m != m,
        forall|o: u64|
            (o == 0x1 || o == 0x2 || o == 0x4 || o == 0x8) && o != m ==> ((#[trigger] ((v | m)
                & o)) == v & o && (v & !m) & o == v & o),
        (v | m) & 0xffff_ffff_ffff_fff0 == v & 0xffff_ffff_ffff_fff0,
        (v & !m) & 0xffff_ffff_ffff_fff0 == v & 0xffff_ffff_ffff_fff0,
        ((v | m) >> 10) & 0x1ff == (v >> 10) & 0x1ff,
        ((v & !m) >> 10) & 0x1ff == (v >> 10) & 0x1ff,
        ((v | m) >> 19) & 0x1ff == (v >> 19) & 0x1ff,
        ((v & !m) >> 19) & 0x1ff == (v >> 19) & 0x1ff,
        ((v | m) >> 28) & 0x3ff_ffff == (v >> 28) & 0x3ff_ffff,
        ((v & !m) >> 28) & 0x3ff_ffff == (v >> 28) & 0x3ff_ffff,
{
    assert((m == 0x1 || m == 0x2 || m == 0x4 || m == 0x8) ==> (v | m) & m == m && (v & !m) & m != m
        && (v | m) & 0xffff_ffff_ffff_fff0 == v & 0xffff_ffff_ffff_fff0 && (v & !m)
        & 0xffff_ffff_ffff_fff0 == v & 0xffff_ffff_ffff_fff0 && ((v | m) >> 10) & 0x1ff == (v
        >> 10) & 0x1ff && ((v & !m) >> 10) & 0x1ff == (v >> 10) & 0x1ff && ((v | m) >> 19) & 0x1ff
        == (v >> 19) & 0x1ff && ((v & !m) >> 19) & 0x1ff == (v >> 19) & 0x1ff && ((v | m) >> 28)
        & 0x3ff_ffff == (v >> 28) & 0x3ff_ffff && ((v & !m) >> 28) & 0x3ff_ffff == (v >> 28)
        & 0x3ff_ffff) by (bit_vector);
    assert forall|o: u64|
        (o == 0x1 || o == 0x2 || o == 0x4 || o == 0x8) && o != m implies ((#[trigger] ((v | m)
        & o)) == v & o && (v & !m) & o == v & o) by {
        assert((m == 0x1 || m == 0x2 || m == 0x4 || m == 0x8) && (o == 0x1 || o == 0x2 || o == 0x4
            || o == 0x8) && o != m ==> (v | m) & o == v & o && (v & !m) & o == v & o)
            by (bit_vector);
    }
}

/// An Sv39 virtual address: a page offset and three nine-bit parts of the
/// virtual page number, one index per table level.
#[derive(Debug, Clone, Copy, PartialEq, Eq, Structural)]
pub struct Sv39Virtual(pub u64);

impl Sv39Virtual {
    /// Part `i` of the virtual page number: nine bits from position
    /// `12 + 9 * i`.
    pub open spec fn spec_vpn(self, i: u64) -> u64 {
        (self.0 >> ((12 + 9 * i) as u64)) & 0x1ff
    }

    /// The offset into the page: the low twelve bits.
    pub open spec fn spec_page_offset(self) -> u64 {
        self.0 & 0xfff
    }

    /// Part `i` of the virtual page number.
    pub fn vpn(&self, i: u64) -> (r: u64)
        requires
            i < 3,
        ensures
            r == self.spec_vpn(i),
    {
        (self.0 >> (12 + 9 * i)) & 0x1ff
    }

    /// The offset into the page.
    pub fn page_offset(&self) -> (r: u64)
        ensures
            r == self.spec_page_offset(),
    {
        self.0 & 0xfff
    }
}

/// An Sv39 physical address: a page offset and three parts of the physical
/// page number.
#[derive(Debug, Clone, Copy, PartialEq, Eq, Structural)]
pub struct Sv39Physical(pub u64);

impl Sv39Physical {
    /// The low part of the physical page number: bits 12 to 20.
    pub open spec fn spec_ppn_0(self) -> u64 {
        (self.0 >> 12) & 0x1ff
    }

    /// The middle part of the physical page number: bits 21 to 29.
    pub open spec fn spec_ppn_1(self) -> u64 {
        (self.0 >> 21) & 0x1ff
    }

    /// The high part of the physical page number: bits 30 to 55.
    pub open spec fn spec_ppn_2(self) -> u64 {
        (self.0 >> 30) & 0x3ff_ffff
    }

    /// The offset into the page: the low twelve bits.
    pub open spec fn spec_page_offset(self) -> u64 {
        self.0 & 0xfff
    }

    /// The low part of the physical page number.
    pub fn ppn_0(&self) -> (r: u64)
        ensures
            r == self.spec_ppn_0(),
    {
        (self.0 >> 12) & 0x1ff
    }

    /// The middle part of the physical page number.
    pub fn ppn_1(&self) -> (r: u64)
        ensures
            r == self.spec_ppn_1(),
    {
        (self.0 >> 21) & 0x1ff
    }

    /// The high part of the physical page number.
    pub fn ppn_2(&self) -> (r: u64)
        ensures
            r == self.spec_ppn_2(),
    {
        (self.0 >> 30) & 0x3ff_ffff
    }

    /// The raw address value.
    pub fn as_u64(&self) -> (r: u64)
        ensures
            r == self.0,
    {
        self.0
    }
}

/// Entries in one Sv39 page table.
pub const TABLE_ENTRIES: usize = 512;

/// An Sv39 page-table entry maps the giga page at index `index` of the
/// identity map: it points at physical address `index << 30`, readable,
/// writable and executable.
pub open spec fn maps_identity_giga(e: PageTableEntry, index: int) -> bool {
    &&& e.spec_valid()
    &&& e.spec_r()
    &&& e.spec_w()
    &&& e.spec_x()
    &&& e.spec_ppn_2() == index
    &&& e.spec_ppn_1() == 0
    &&& e.spec_ppn_0() == 0
}

/// One level of the Sv39 translation tree: 512 entries. The table's own
/// placement in page-aligned physical memory, and the walk through child
/// tables, are the kernel's business; here live the entries themselves.
pub struct PageTable {
    pub entries: Vec<PageTableEntry>,
}

impl PageTable {
    /// A table has exactly 512 entries.
    pub open spec fn wf(self) -> bool {
        self.entries@.len() == TABLE_ENTRIES
    }

    /// An empty table: every entry zeroed, so nothing is mapped.
    pub fn new() -> (t: PageTable)
        ensures
            t.wf(),
            forall|j: int| 0 <= j < TABLE_ENTRIES ==> (#[trigger] t.entries@[j]).0 == 0,
    {
        let mut entries: Vec<PageTableEntry> = Vec::new();
        let mut i: usize = 0;
        while i < TABLE_ENTRIES
            invariant
                i <= TABLE_ENTRIES,
                entries@.len() == i,
                forall|j: int| 0 <= j < i ==> (#[trigger] entries@[j]).0 == 0,
            decreases TABLE_ENTRIES - i,
        {
            entries.push(PageTableEntry(0));
            i = i + 1;
        }
        PageTable { entries }
    }

    /// The physical page number of the page-aligned address a table lives
    /// at.
    pub fn ppn(table_address: usize) -> (r: usize)
        ensures
            r == table_address >> 12,
    {
        table_address >> 12
    }

    /// Identity-map the first four gibibytes of physical memory with giga
    /// pages: entry `i` maps the giga page starting at `i << 30`, readable,
    /// writable and executable. Only sensible on the root table.
    pub fn setup_identity_map(&mut self)
        requires
            old(self).wf(),
        ensures
            final(self).wf(),
            forall|j: int| 0 <= j < 4 ==> maps_identity_giga(#[trigger] final(self).entries@[j], j),
            forall|j: int|
                4 <= j < TABLE_ENTRIES ==> (#[trigger] final(self).entries@[j]) == old(
                    self,
                ).entries@[j],
    {
        let max_map_addr: u64 = 0x1_0000_0000;
        let page_size = PageSize::Giga;

        let mut current_base: u64 = 0;
        let mut i: usize = 0;
        while i < TABLE_ENTRIES && current_base < max_map_addr
            invariant
                i <= 4,
                current_base == i * 0x4000_0000,
                max_map_addr == 0x1_0000_0000,
                page_size == PageSize::Giga,
                self.entries@.len() == TABLE_ENTRIES,
                forall|j: int| 0 <= j < i ==> maps_identity_giga(#[trigger] self.entries@[j], j),
                forall|j: int|
                    i <= j < TABLE_ENTRIES ==> (#[trigger] self.entries@[j]) == old(
                        self,
                    ).entries@[j],
            decreases TABLE_ENTRIES - i,
        {
            let phys_addr = Sv39Physical(current_base);
            proof {
                let b = current_base;
                assert(b == i * 0x4000_0000 && i < 4 ==> (b >> 30) & 0x3ff_ffff == i && (b >> 21)
                    & 0x1ff == 0 && (b >> 12) & 0x1ff == 0) by (bit_vector);
            }

            let mut entry = self.entries[i];
            entry.set_r(true);
            entry.set_w(true);
            entry.set_x(true);
            entry.set_ppn_2(phys_addr.ppn_2());
            entry.set_ppn_1(phys_addr.ppn_1());
            entry.set_ppn_0(phys_addr.ppn_0());
            entry.set_valid(true);
            self.entries[i] = entry;

            current_base = current_base + page_size.size();
            i = i + 1;
        }
    }
}

} // verus!
