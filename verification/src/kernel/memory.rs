//! Memory management: page-table entries, virtual-address decomposition and
//! a bump allocator for the kernel heap.

use vstd::prelude::*;

verus! {

/// Page size (4 KiB).
pub const PAGE_SIZE: usize = 0x1000;

/// Address bits a page-table entry keeps.
pub const ENTRY_ADDRESS_MASK: u64 = 0xFFFF_F000;

/// Kernel heap: base and size (256 MiB).
pub const HEAP_START: u64 = 0xFFFF_0000_0000_0000;
pub const HEAP_SIZE: u64 = 256 * 1024 * 1024;

/// Flags every mapping gets: valid and page descriptor.
pub const PAGE_DESCRIPTOR: u64 = 0x03;

/// A page-table entry.
#[derive(Clone, Copy, Debug)]
pub struct PageTableEntry {
    descriptor: u64,
}

impl PageTableEntry {
    /// The raw descriptor.
    pub closed spec fn descriptor(&self) -> u64 {
        self.descriptor
    }

    /// An entry for the page at `phys_addr` with `flags`.
    pub fn new(phys_addr: u64, flags: u64) -> (r: Self)
        ensures
            r.descriptor() == (phys_addr & ENTRY_ADDRESS_MASK) | flags,
    {
        PageTableEntry { descriptor: (phys_addr & 0xFFFF_F000) | flags }
    }

    /// Whether the valid bit is set.
    pub fn is_valid(&self) -> (r: bool)
        ensures
            r == (self.descriptor() & 1 != 0),
    {
        (self.descriptor & 0x01) != 0
    }

    /// The physical page address of the entry.
    pub fn get_address(&self) -> (r: u64)
        ensures
            r == self.descriptor() & ENTRY_ADDRESS_MASK,
    {
        self.descriptor & 0xFFFF_F000
    }
}

/// An entry built from an address and flags without address bits keeps the
/// address bits of the address and the valid bit of the flags.
pub proof fn law_entry_fields(phys_addr: u64, flags: u64)
    requires
        flags & ENTRY_ADDRESS_MASK == 0,
    ensures
        ((phys_addr & ENTRY_ADDRESS_MASK) | flags) & ENTRY_ADDRESS_MASK == phys_addr & ENTRY_ADDRESS_MASK,
        (((phys_addr & ENTRY_ADDRESS_MASK) | flags) & 1 != 0) == (flags & 1 != 0),
{
    assert(((phys_addr & 0xFFFF_F000) | flags) & 0xFFFF_F000 == phys_addr & 0xFFFF_F000) by (bit_vector)
        requires
            flags & 0xFFFF_F000 == 0,
    ;
    assert((((phys_addr & 0xFFFF_F000) | flags) & 1 != 0) == (flags & 1 != 0)) by (bit_vector);
}

/// A translation table of 512 entries.
pub struct PageTable {
    entries: [PageTableEntry; 512],
}

impl PageTable {
    /// The entries of the table.
    pub closed spec fn entries(&self) -> Seq<PageTableEntry> {
        self.entries@
    }

    /// A table of invalid (zero) entries.
    pub fn new() -> (r: Self)
        ensures
            r.entries().len() == 512,
            forall|i: int| 0 <= i < 512 ==> (#[trigger] r.entries()[i]).descriptor() == 0,
    {
        PageTable { entries: [PageTableEntry { descriptor: 0 }; 512] }
    }

    /// Entry `index`.
    pub fn get_entry(&self, index: usize) -> (r: PageTableEntry)
        requires
            index < 512,
        ensures
            r == self.entries()[index as int],
    {
        self.entries[index]
    }

    /// Replace entry `index`.
    pub fn set_entry(&mut self, index: usize, entry: PageTableEntry)
        requires
            index < 512,
        ensures
            final(self).entries() == old(self).entries().update(index as int, entry),
    {
        self.entries[index] = entry;
    }
}

/// An ARM64 virtual address with a 4 KiB granule.
#[derive(Clone, Copy, Debug)]
pub struct VirtAddr {
    addr: u64,
}

impl VirtAddr {
    pub closed spec fn addr(&self) -> u64 {
        self.addr
    }

    pub fn new(addr: u64) -> (r: Self)
        ensures
            r.addr() == addr,
    {
        VirtAddr { addr }
    }

    /// Level-0 table index: bits 39..47.
    pub fn l0_index(&self) -> (r: usize)
        ensures
            r == (self.addr() >> 39) & 0x1FF,
            r < 512,
    {
        let a = self.addr;
        let r = (a >> 39) & 0x1FF;
        assert(r < 512) by (bit_vector)
            requires
                r == (a >> 39) & 0x1FF,
        ;
        r as usize
    }

    /// Level-1 table index: bits 30..38.
    pub fn l1_index(&self) -> (r: usize)
        ensures
            r == (self.addr() >> 30) & 0x1FF,
            r < 512,
    {
        let a = self.addr;
        let r = (a >> 30) & 0x1FF;
        assert(r < 512) by (bit_vector)
            requires
                r == (a >> 30) & 0x1FF,
        ;
        r as usize
    }

    /// Level-2 table index: bits 21..29.
    pub fn l2_index(&self) -> (r: usize)
        ensures
            r == (self.addr() >> 21) & 0x1FF,
            r < 512,
    {
        let a = self.addr;
        let r = (a >> 21) & 0x1FF;
        assert(r < 512) by (bit_vector)
            requires
                r == (a >> 21) & 0x1FF,
        ;
        r as usize
    }

    /// Level-3 table index: bits 12..20.
    pub fn l3_index(&self) -> (r: usize)
        ensures
            r == (self.addr() >> 12) & 0x1FF,
            r < 512,
    {
        let a = self.addr;
        let r = (a >> 12) & 0x1FF;
        assert(r < 512) by (bit_vector)
            requires
                r == (a >> 12) & 0x1FF,
        ;
        r as usize
    }

    /// Offset in the page: bits 0..11.
    pub fn page_offset(&self) -> (r: usize)
        ensures
            r == self.addr() & 0xFFF,
            r < PAGE_SIZE,
    {
        let a = self.addr;
        let r = a & 0xFFF;
        assert(r < 0x1000) by (bit_vector)
            requires
                r == a & 0xFFF,
        ;
        r as usize
    }
}

/// The four table indices and the page offset put back together give the
/// low 48 bits of the address.
pub proof fn law_virt_addr_decomposition(addr: u64)
    ensures
        (((addr >> 39) & 0x1FF) << 39) | (((addr >> 30) & 0x1FF) << 30) | (((addr >> 21) & 0x1FF) << 21) | (((addr
            >> 12) & 0x1FF) << 12) | (addr & 0xFFF) == addr & 0xFFFF_FFFF_FFFF,
{
    assert((((addr >> 39) & 0x1FF) << 39) | (((addr >> 30) & 0x1FF) << 30) | (((addr >> 21) & 0x1FF) << 21) | (((
    addr >> 12) & 0x1FF) << 12) | (addr & 0xFFF) == addr & 0xFFFF_FFFF_FFFF) by (bit_vector);
}

/// `size` rounded up to a multiple of 16.
pub open spec fn align16(size: usize) -> int {
    ((size + 15) as usize & !15usize) as int
}

proof fn lemma_align16(size: usize)
    requires
        size + 15 <= usize::MAX,
    ensures
        align16(size) % 16 == 0,
        size <= align16(size) < size + 16,
{
    let s15 = (size + 15) as usize;
    let a = s15 & !15usize;
    assert(a & 15 == 0 && size <= a && a <= size + 15) by (bit_vector)
        requires
            s15 == size + 15,
            a == s15 & !15usize,
    ;
    assert(a % 16 == 0) by (bit_vector)
        requires
            a & 15 == 0,
    ;
}

/// A bump allocator over `[start, end)`: memory is handed out in order and
/// never taken back.
pub struct BumpAllocator {
    start: u64,
    current: u64,
    end: u64,
}

impl BumpAllocator {
    pub closed spec fn start(&self) -> u64 {
        self.start
    }

    /// The next address to hand out.
    pub closed spec fn current(&self) -> u64 {
        self.current
    }

    pub closed spec fn end(&self) -> u64 {
        self.end
    }

    /// Handed-out memory lies between `start` and `end`.
    pub open spec fn wf(&self) -> bool {
        self.start() <= self.current() <= self.end()
    }

    /// An allocator for the `size` bytes from `start`.
    pub fn new(start: u64, size: u64) -> (r: Self)
        requires
            start + size <= u64::MAX,
        ensures
            r.wf(),
            r.start() == start,
            r.current() == start,
            r.end() == start + size,
    {
        BumpAllocator { start, current: start, end: start + size }
    }

    /// Hand out `size` bytes rounded up to 16, if they fit.
    pub fn allocate(&mut self, size: usize) -> (r: Option<u64>)
        requires
            old(self).wf(),
            size + 15 <= usize::MAX,
            old(self).current() + align16(size) <= u64::MAX,
        ensures
            final(self).wf(),
            final(self).start() == old(self).start(),
            final(self).end() == old(self).end(),
            align16(size) % 16 == 0,
            size <= align16(size) < size + 16,
            old(self).current() + align16(size) <= old(self).end() ==> r == Some(old(self).current())
                && final(self).current() == old(self).current() + align16(size),
            old(self).current() + align16(size) > old(self).end() ==> r is None && final(self).current()
                == old(self).current(),
    {
        proof {
            lemma_align16(size);
        }
        let aligned_size = (size + 0xF) & !0xF;
        if self.current + aligned_size as u64 <= self.end {
            let ptr = self.current;
            self.current += aligned_size as u64;
            Some(ptr)
        } else {
            None
        }
    }

    /// Bump allocators never take memory back.
    pub fn free(&mut self, _ptr: u64, _size: usize)
        ensures
            *final(self) == *old(self),
    {
    }
}

/// Two successive successful allocations do not overlap, and both lie in
/// the allocator's range.
pub proof fn law_allocations_disjoint(
    a0: BumpAllocator,
    a1: BumpAllocator,
    a2: BumpAllocator,
    s1: usize,
    s2: usize,
    p1: u64,
    p2: u64,
)
    requires
        a0.wf(),
        p1 == a0.current() && a1.current() == a0.current() + align16(s1) && a1.end() == a0.end(),
        a1.current() <= a1.end(),
        p2 == a1.current() && a2.current() == a1.current() + align16(s2) && a2.end() == a1.end(),
        a2.current() <= a2.end(),
        s1 <= align16(s1),
        s2 <= align16(s2),
    ensures
        a0.start() <= p1,
        p1 + s1 <= p2,
        p2 + s2 <= a0.end(),
{
}

/// Set up the kernel heap: 256 MiB at `HEAP_START`.
pub fn init(heap: &mut BumpAllocator)
    ensures
        final(heap).wf(),
        final(heap).start() == HEAP_START,
        final(heap).current() == HEAP_START,
        final(heap).end() == HEAP_START + HEAP_SIZE,
{
    *heap = BumpAllocator::new(HEAP_START, HEAP_SIZE);
}

/// Allocate kernel memory.
pub fn allocate(heap: &mut BumpAllocator, size: usize) -> (r: Option<u64>)
    requires
        old(heap).wf(),
        size + 15 <= usize::MAX,
        old(heap).current() + align16(size) <= u64::MAX,
    ensures
        final(heap).wf(),
        final(heap).start() == old(heap).start(),
        final(heap).end() == old(heap).end(),
        old(heap).current() + align16(size) <= old(heap).end() ==> r == Some(old(heap).current())
            && final(heap).current() == old(heap).current() + align16(size),
        old(heap).current() + align16(size) > old(heap).end() ==> r is None && final(heap).current()
            == old(heap).current(),
{
    heap.allocate(size)
}

/// Map the page of `virt` to `phys` with `flags` in the level-0 table.
pub fn map_page(l0_table: &mut PageTable, virt: u64, phys: u64, flags: u64)
    ensures
        final(l0_table).entries() == old(l0_table).entries().update(
            l0_of(virt),
            final(l0_table).entries()[l0_of(virt)],
        ),
        final(l0_table).entries()[l0_of(virt)].descriptor() == (phys & ENTRY_ADDRESS_MASK) | (flags
            | PAGE_DESCRIPTOR),
{
    let vaddr = VirtAddr::new(virt);
    let l0_idx = vaddr.l0_index();
    let entry = PageTableEntry::new(phys, flags | 0x03);
    l0_table.set_entry(l0_idx, entry);
}

/// Clear the level-0 entry of `virt`.
pub fn unmap_page(l0_table: &mut PageTable, virt: u64)
    ensures
        final(l0_table).entries() == old(l0_table).entries().update(
            l0_of(virt),
            final(l0_table).entries()[l0_of(virt)],
        ),
        final(l0_table).entries()[l0_of(virt)].descriptor() == 0,
{
    let vaddr = VirtAddr::new(virt);
    let l0_idx = vaddr.l0_index();
    let entry = PageTableEntry { descriptor: 0 };
    l0_table.set_entry(l0_idx, entry);
}

/// Level-0 index of `virt`.
pub open spec fn l0_of(virt: u64) -> int {
    ((virt >> 39) & 0x1FF) as int
}

/// Where `virt` translates to through level-0 table entries `t`.
pub open spec fn translate(t: Seq<PageTableEntry>, virt: u64) -> Option<u64> {
    let d = t[l0_of(virt)].descriptor();
    if d & 1 != 0 {
        Some(((d & ENTRY_ADDRESS_MASK) + (virt & 0xFFF)) as u64)
    } else {
        None
    }
}

/// The physical address of `virt` through the level-0 table.
pub fn virt_to_phys(l0_table: &PageTable, virt: u64) -> (r: Option<u64>)
    requires
        l0_table.entries().len() == 512,
    ensures
        r == translate(l0_table.entries(), virt),
{
    let vaddr = VirtAddr::new(virt);
    let l0_idx = vaddr.l0_index();
    let entry = l0_table.get_entry(l0_idx);
    if entry.is_valid() {
        let offset = vaddr.page_offset();
        let base = entry.get_address();
        let ghost d = entry.descriptor();
        assert(base <= 0xFFFF_F000) by (bit_vector)
            requires
                base == d & 0xFFFF_F000,
        ;
        Some(base + offset as u64)
    } else {
        None
    }
}

/// After `map_page(virt, phys, flags)` (flags without address bits), `virt`
/// translates to the page of `phys` plus the offset of `virt` in its page.
pub proof fn law_map_then_translate(t: Seq<PageTableEntry>, virt: u64, phys: u64, flags: u64)
    requires
        flags & ENTRY_ADDRESS_MASK == 0,
        t.len() == 512,
        t[l0_of(virt)].descriptor() == (phys & ENTRY_ADDRESS_MASK) | (flags | PAGE_DESCRIPTOR),
    ensures
        translate(t, virt) == Some(((phys & ENTRY_ADDRESS_MASK) + (virt & 0xFFF)) as u64),
{
    assert(((phys & 0xFFFF_F000) | (flags | 3)) & 1 != 0) by (bit_vector);
    assert(((phys & 0xFFFF_F000) | (flags | 3)) & 0xFFFF_F000 == phys & 0xFFFF_F000) by (bit_vector)
        requires
            flags & 0xFFFF_F000 == 0,
    ;
}

/// After `unmap_page(virt)`, `virt` does not translate.
pub proof fn law_unmap_then_translate(t: Seq<PageTableEntry>, virt: u64)
    requires
        t.len() == 512,
        t[l0_of(virt)].descriptor() == 0,
    ensures
        translate(t, virt) is None,
{
    assert((0u64 & 1) == 0) by (bit_vector);
}

} // verus!
