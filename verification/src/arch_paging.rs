//! Four-level paging of the x86-64 kernel: the root table is held by the
//! manager, the lower tables lie in physical memory; missing tables take
//! frames from the kernel's page frame allocator.
use vstd::prelude::*;
use crate::bits::{zeros_in, first_clear_from, lemma_first_clear, lemma_zeros_take, lemma_first_clear_exists};
use crate::boot::PHYSICAL_LIMIT;
use crate::frame_alloc::{self, PageFrameAllocator, PAGE_SIZE};
use crate::table_memory::{TableMemory, present, writable, frame, entry_at, put, lemma_put, FRAME_MASK};
use crate::virtual_memory::{with_flag, with_addr, linked, lemma_linked, level_index, take_first, lemma_take_first_step};

verus! {

/// The flags of a directory entry that the kernel uses, by bit.
#[derive(Clone, Copy, PartialEq, Eq, Structural, Debug)]
pub enum PageDirectoryFlag {
    Present,
    ReadWrite,
}

/// The bit a flag occupies.
pub open spec fn flag_bit(flag: PageDirectoryFlag) -> u64 {
    match flag {
        PageDirectoryFlag::Present => 0,
        PageDirectoryFlag::ReadWrite => 1,
    }
}

/// A page directory entry: a frame address in bits 12 to 51 and flag bits around it.
#[derive(Clone, Copy, PartialEq, Eq, Structural, Debug)]
pub struct PageDirectoryEntry(pub u64);

impl PageDirectoryEntry {
    /// An entry with every bit clear.
    pub fn new() -> (e: Self)
        ensures
            e.0 == 0,
    {
        PageDirectoryEntry(0)
    }

    /// Whether `flag` is set.
    pub fn get_flag(&self, flag: PageDirectoryFlag) -> (set: bool)
        ensures
            set == (self.0 & (1u64 << flag_bit(flag)) != 0u64),
            flag == PageDirectoryFlag::Present ==> set == present(self.0),
    {
        let raw = self.0;
        assert((raw & (1u64 << 0u64)) == (raw & 1u64)) by (bit_vector);
        let bit: u64 = match flag {
            PageDirectoryFlag::Present => 0,
            PageDirectoryFlag::ReadWrite => 1,
        };
        self.0 & (1u64 << bit) != 0
    }

    /// Sets `flag` to `value`, leaving every other bit.
    pub fn set_flag(&mut self, flag: PageDirectoryFlag, value: bool)
        ensures
            final(self).0 == with_flag(old(self).0, flag_bit(flag), value),
    {
        let bit: u64 = match flag {
            PageDirectoryFlag::Present => 0,
            PageDirectoryFlag::ReadWrite => 1,
        };
        let value_mask: u64 = 1u64 << bit;
        let raw = self.0;
        if value {
            self.0 = self.0 | value_mask;
            assert(raw | value_mask == (raw & !(1u64 << bit)) | (1u64 << bit)) by (bit_vector)
                requires
                    value_mask == 1u64 << bit,
                    bit < 2,
            ;
        } else {
            self.0 = self.0 & !value_mask;
        }
    }

    /// The address of the frame the entry names.
    pub fn get_addr(&self) -> (addr: u64)
        ensures
            addr == frame(self.0),
    {
        self.0 & 0x000f_ffff_ffff_f000u64
    }

    /// Names the frame with page number `addr` (its low 40 bits), leaving the flag bits.
    pub fn set_addr(&mut self, addr: u64)
        ensures
            final(self).0 == with_addr(old(self).0, addr),
    {
        let virt_add: u64 = addr & 0x0000_00ff_ffff_ffffu64;
        self.0 = self.0 & 0xfff0_0000_0000_0fffu64;
        self.0 = self.0 | (virt_add << 12u64);
    }
}

/// A table of 512 directory entries, one page frame in size.
pub struct PageTable(pub [PageDirectoryEntry; 512]);

impl PageTable {
    /// A table of clear entries.
    pub fn new() -> (t: Self)
        ensures
            forall|i: int| 0 <= i < 512 ==> (#[trigger] t.0@[i]).0 == 0,
    {
        PageTable([PageDirectoryEntry::new(); 512])
    }

    /// The entry at `index`.
    pub fn index(&self, index: u16) -> (e: PageDirectoryEntry)
        requires
            index < 512,
        ensures
            e == self.0@[index as int],
    {
        self.0[index as usize]
    }

    /// Replaces the entry at `index`.
    pub fn index_mut(&mut self, index: u16, e: PageDirectoryEntry)
        requires
            index < 512,
        ensures
            final(self).0@ == old(self).0@.update(index as int, e),
    {
        self.0[index as usize] = e;
    }
}

/// The indices into the four levels of tables that a virtual address selects.
pub struct PageTableIndexer {
    pub offset: u16,
    pub page: u16,
    pub page_table: u16,
    pub page_dir: u16,
}

impl PageTableIndexer {
    /// Splits a virtual address into its four table indices.
    pub fn new(virt_addr: u64) -> (indexer: Self)
        ensures
            indexer.offset == level_index(virt_addr, 12),
            indexer.page == level_index(virt_addr, 21),
            indexer.page_table == level_index(virt_addr, 30),
            indexer.page_dir == level_index(virt_addr, 39),
            indexer.offset < 512 && indexer.page < 512 && indexer.page_table < 512 && indexer.page_dir < 512,
    {
        assert(forall|x: u64| #[trigger] (x & 0x1ffu64) < 512) by (bit_vector);
        PageTableIndexer {
            offset: ((virt_addr >> 12u64) & 0x1ffu64) as u16,
            page: ((virt_addr >> 21u64) & 0x1ffu64) as u16,
            page_table: ((virt_addr >> 30u64) & 0x1ffu64) as u16,
            page_dir: ((virt_addr >> 39u64) & 0x1ffu64) as u16,
        }
    }
}

/// The allocator can hand out `k` frames for new tables.
pub open spec fn can_give(alloc: &PageFrameAllocator, k: int) -> bool {
    &&& alloc.inv()
    &&& alloc.pages * PAGE_SIZE <= PHYSICAL_LIMIT
    &&& zeros_in(alloc.bitmap@, 0, alloc.pages as int) >= k
}

/// `post` is `pre` after handing out its first `k` clear frames.
pub open spec fn took(pre: &PageFrameAllocator, post: &PageFrameAllocator, k: int) -> bool {
    &&& post.bitmap.capacity == pre.bitmap.capacity
    &&& post.bitmap.addr == pre.bitmap.addr
    &&& post.pages == pre.pages
    &&& post.bitmap@ == take_first(pre.bitmap@, pre.bitmap.capacity as int, k)
    &&& post.reserved_pages == pre.reserved_pages
    &&& post.used_pages == pre.used_pages + k
    &&& post.free_pages == pre.free_pages - k
}

/// Handing out no frame leaves the allocator able to give what it could.
pub proof fn lemma_took_none(a0: &PageFrameAllocator, a1: &PageFrameAllocator, k: int)
    requires
        took(a0, a1, 0),
    ensures
        can_give(a0, k) ==> can_give(a1, k),
        a1.bitmap@ == a0.bitmap@,
{
    assert(take_first(a0.bitmap@, a0.bitmap.capacity as int, 0) == a0.bitmap@);
}

/// Handing out one frame leaves the allocator able to give one fewer.
pub proof fn lemma_took_one(a0: &PageFrameAllocator, a1: &PageFrameAllocator, k: int)
    requires
        can_give(a0, k + 1),
        0 <= k,
        took(a0, a1, 1),
        a1.inv(),
    ensures
        can_give(a1, k),
{
    let v = a0.bitmap@;
    let n = a0.bitmap.capacity as int;
    assert(take_first(v, n, 0) == v);
    lemma_first_clear_exists(v, 0, n);
    lemma_zeros_take(v, first_clear_from(v, 0, n), n);
}

/// Handing out `k` frames and then `j` more is handing out `k + j`.
pub proof fn lemma_took_then(a0: &PageFrameAllocator, a1: &PageFrameAllocator, a2: &PageFrameAllocator, k: int, j: int)
    requires
        took(a0, a1, k),
        took(a1, a2, j),
        0 <= k,
        0 <= j <= 1,
    ensures
        took(a0, a2, k + j),
{
    if j == 1 {
        lemma_take_first_step(a0.bitmap@, a0.bitmap.capacity as int, k);
    } else {
        assert(take_first(a1.bitmap@, a1.bitmap.capacity as int, 0) == a1.bitmap@);
    }
}

/// The frame the allocator hands out once `k` more frames are taken: its
/// first clear frame at that point.
pub open spec fn fresh_frame(alloc: &PageFrameAllocator, k: int) -> u64 {
    let n = alloc.bitmap.capacity as int;
    (first_clear_from(take_first(alloc.bitmap@, n, k), 0, n) * PAGE_SIZE) as u64
}

/// After `k` frames are handed out, the next one is the `k`-th fresh frame.
pub proof fn lemma_fresh_after(a0: &PageFrameAllocator, a1: &PageFrameAllocator, k: int)
    requires
        took(a0, a1, k),
    ensures
        fresh_frame(a1, 0) == fresh_frame(a0, k),
{
    assert(take_first(a1.bitmap@, a1.bitmap.capacity as int, 0) == a1.bitmap@);
}

/// One level of mapping, `taken` frames into it: a present entry `raw` is
/// followed as it stands, a missing one is linked to the next fresh frame.
/// Gives the entry left at the level, the table it leads to, and the count
/// of frames taken after the level.
pub open spec fn level_step(raw: u64, alloc: &PageFrameAllocator, taken: int) -> (u64, u64, int) {
    if present(raw) {
        (raw, frame(raw), taken)
    } else {
        let f = fresh_frame(alloc, taken);
        (linked(raw, f), f, taken + 1)
    }
}

/// The entry a level leaves is present and leads to the level's table; a
/// link it makes is writable.
pub proof fn lemma_level_step(raw: u64, alloc: &PageFrameAllocator, taken: int)
    requires
        !present(raw) ==> fresh_frame(alloc, taken) % 4096 == 0 && fresh_frame(alloc, taken) < PHYSICAL_LIMIT,
    ensures
        present(level_step(raw, alloc, taken).0),
        frame(level_step(raw, alloc, taken).0) == level_step(raw, alloc, taken).1,
        present(raw) ==> level_step(raw, alloc, taken).0 == raw && level_step(raw, alloc, taken).2 == taken,
        !present(raw) ==> writable(level_step(raw, alloc, taken).0) && level_step(raw, alloc, taken).2 == taken + 1,
{
    if !present(raw) {
        lemma_linked(raw, fresh_frame(alloc, taken));
    }
}

/// A last-level entry written for the frame of `phys` is present, writable
/// and names that frame.
pub proof fn lemma_leaf(raw: u64, phys: u64)
    ensures
        present(linked(raw, phys)),
        writable(linked(raw, phys)),
        frame(linked(raw, phys)) == phys & FRAME_MASK,
{
    assert(present(linked(raw, phys)) && writable(linked(raw, phys)) && frame(linked(raw, phys)) == phys
        & FRAME_MASK) by (bit_vector);
}

/// Follows a present entry to its table, or links a missing one to a fresh
/// frame from the allocator. The frame is not cleared: the new table holds
/// whatever the frame held.
fn link_or_follow(entry: &mut PageDirectoryEntry, alloc: &mut PageFrameAllocator) -> (next: u64)
    requires
        usize::BITS == 64,
        !present(old(entry).0) ==> can_give(old(alloc), 1),
    ensures
        present(old(entry).0) ==> {
            &&& next == frame(old(entry).0)
            &&& *final(entry) == *old(entry)
            &&& took(old(alloc), final(alloc), 0)
        },
        !present(old(entry).0) ==> {
            &&& next == fresh_frame(old(alloc), 0)
            &&& next % 4096 == 0
            &&& next < PHYSICAL_LIMIT
            &&& final(entry).0 == linked(old(entry).0, next)
            &&& took(old(alloc), final(alloc), 1)
            &&& final(alloc).inv()
        },
{
    if entry.get_flag(PageDirectoryFlag::Present) {
        proof {
            assert(take_first(alloc.bitmap@, alloc.bitmap.capacity as int, 0) == alloc.bitmap@);
        }
        return entry.get_addr();
    }
    let ghost n = alloc.bitmap.capacity as int;
    let ghost v = alloc.bitmap@;
    proof {
        lemma_first_clear_exists(v, 0, n);
        crate::bits::lemma_zeros_in_bound(v, 0, n);
        crate::bits::lemma_ones_zeros(v, n);
        crate::bits::lemma_ones_clear_tail(v, n, v.len() as int);
    }
    let page = alloc.get_free_page();
    let next = page.unwrap() as u64;
    let ghost i = first_clear_from(v, 0, n);
    proof {
        lemma_first_clear(v, 0, n, next as int / PAGE_SIZE as int);
        assert(next as int == i * PAGE_SIZE);
        crate::bits::lemma_zeros_take(v, i, n);
        assert(frame_alloc::flip(v, i, i + 1, true) =~= v.update(i, true));
        assert(take_first(v, n, 0) == v);
    }
    entry.set_addr(next >> 12u64);
    entry.set_flag(PageDirectoryFlag::Present, true);
    entry.set_flag(PageDirectoryFlag::ReadWrite, true);
    next
}

/// The first level of mapping `v`: the entry of the root table.
pub open spec fn step0(root: Seq<PageDirectoryEntry>, alloc: &PageFrameAllocator, v: u64) -> (u64, u64, int) {
    level_step(root[level_index(v, 39)].0, alloc, 0)
}

/// Memory after a level that found `raw` at `index` of `table` and left
/// `left` there: a link it made is written back.
pub open spec fn leave(mem: Map<u64, [u64; 512]>, table: u64, index: int, raw: u64, left: u64) -> Map<u64, [u64; 512]> {
    if present(raw) {
        mem
    } else {
        put(mem, table, index, left)
    }
}

/// The entry mapping `v` finds at the second level.
pub open spec fn found1(root: Seq<PageDirectoryEntry>, mem: Map<u64, [u64; 512]>, alloc: &PageFrameAllocator, v: u64) -> u64 {
    entry_at(mem, step0(root, alloc, v).1, level_index(v, 30))
}

/// The second level of mapping `v`.
pub open spec fn step1(root: Seq<PageDirectoryEntry>, mem: Map<u64, [u64; 512]>, alloc: &PageFrameAllocator, v: u64) -> (u64, u64, int) {
    level_step(found1(root, mem, alloc, v), alloc, step0(root, alloc, v).2)
}

/// Memory after the second level of mapping `v`.
pub open spec fn mem1(root: Seq<PageDirectoryEntry>, mem: Map<u64, [u64; 512]>, alloc: &PageFrameAllocator, v: u64) -> Map<u64, [u64; 512]> {
    leave(mem, step0(root, alloc, v).1, level_index(v, 30), found1(root, mem, alloc, v), step1(root, mem, alloc, v).0)
}

/// The entry mapping `v` finds at the third level.
pub open spec fn found2(root: Seq<PageDirectoryEntry>, mem: Map<u64, [u64; 512]>, alloc: &PageFrameAllocator, v: u64) -> u64 {
    entry_at(mem1(root, mem, alloc, v), step1(root, mem, alloc, v).1, level_index(v, 21))
}

/// The third level of mapping `v`.
pub open spec fn step2(root: Seq<PageDirectoryEntry>, mem: Map<u64, [u64; 512]>, alloc: &PageFrameAllocator, v: u64) -> (u64, u64, int) {
    level_step(found2(root, mem, alloc, v), alloc, step1(root, mem, alloc, v).2)
}

/// Memory after the third level of mapping `v`.
pub open spec fn mem2(root: Seq<PageDirectoryEntry>, mem: Map<u64, [u64; 512]>, alloc: &PageFrameAllocator, v: u64) -> Map<u64, [u64; 512]> {
    leave(
        mem1(root, mem, alloc, v),
        step1(root, mem, alloc, v).1,
        level_index(v, 21),
        found2(root, mem, alloc, v),
        step2(root, mem, alloc, v).0,
    )
}

/// The last-level entry mapping `v` finds.
pub open spec fn found3(root: Seq<PageDirectoryEntry>, mem: Map<u64, [u64; 512]>, alloc: &PageFrameAllocator, v: u64) -> u64 {
    entry_at(mem2(root, mem, alloc, v), step2(root, mem, alloc, v).1, level_index(v, 12))
}

/// The root table after mapping `v`.
pub open spec fn mapped_root(root: Seq<PageDirectoryEntry>, alloc: &PageFrameAllocator, v: u64) -> Seq<PageDirectoryEntry> {
    root.update(level_index(v, 39), PageDirectoryEntry(step0(root, alloc, v).0))
}

/// Memory after mapping `v` to the frame of `phys`: the last-level entry
/// gets that frame and is present and writable.
pub open spec fn mapped_mem(root: Seq<PageDirectoryEntry>, mem: Map<u64, [u64; 512]>, alloc: &PageFrameAllocator, phys: u64, v: u64) -> Map<u64, [u64; 512]> {
    put(
        mem2(root, mem, alloc, v),
        step2(root, mem, alloc, v).1,
        level_index(v, 12),
        linked(found3(root, mem, alloc, v), phys),
    )
}

/// How many frames mapping `v` takes for new tables.
pub open spec fn mapped_taken(root: Seq<PageDirectoryEntry>, mem: Map<u64, [u64; 512]>, alloc: &PageFrameAllocator, v: u64) -> int {
    step2(root, mem, alloc, v).2
}

/// The tables the walk for `v` reads below the root lie in `mem`.
pub open spec fn walk_in_memory(root: Seq<PageDirectoryEntry>, mem: Map<u64, [u64; 512]>, alloc: &PageFrameAllocator, v: u64) -> bool {
    &&& mem.contains_key(step0(root, alloc, v).1)
    &&& mem.contains_key(step1(root, mem, alloc, v).1)
    &&& mem.contains_key(step2(root, mem, alloc, v).1)
}

/// The last-level entry that mapping `v` writes is none of the entries its
/// walk goes through above it.
pub open spec fn leaf_apart(root: Seq<PageDirectoryEntry>, mem: Map<u64, [u64; 512]>, alloc: &PageFrameAllocator, v: u64) -> bool {
    let leaf = (step2(root, mem, alloc, v).1, level_index(v, 12));
    &&& leaf != (step0(root, alloc, v).1, level_index(v, 30))
    &&& leaf != (step1(root, mem, alloc, v).1, level_index(v, 21))
}

/// The entries the walk for `v` reads, level by level: the first from the
/// root table, the others from memory.
pub open spec fn walk_entry(root: Seq<PageDirectoryEntry>, mem: Map<u64, [u64; 512]>, v: u64, level: int) -> u64
    decreases level,
{
    if level <= 0 {
        root[level_index(v, 39)].0
    } else {
        let table = frame(walk_entry(root, mem, v, level - 1));
        let shift: u64 = if level == 1 {
            30
        } else if level == 2 {
            21
        } else {
            12
        };
        entry_at(mem, table, level_index(v, shift))
    }
}

/// The frame that `v` translates to, if every entry on its walk is present.
pub open spec fn translate(root: Seq<PageDirectoryEntry>, mem: Map<u64, [u64; 512]>, v: u64) -> Option<u64> {
    if present(walk_entry(root, mem, v, 0)) && present(walk_entry(root, mem, v, 1)) && present(
        walk_entry(root, mem, v, 2),
    ) && present(walk_entry(root, mem, v, 3)) {
        Some(frame(walk_entry(root, mem, v, 3)))
    } else {
        None
    }
}

/// `after` is `before` where that was present, else present and writable.
pub open spec fn kept_or_linked(before: u64, after: u64) -> bool {
    if present(before) {
        after == before
    } else {
        present(after) && writable(after)
    }
}

/// After `v` is mapped from `r0`, `m0` and `a0` to `r1` and `m1`: each entry
/// of its walk above the last level is the one found there where that was
/// present, and a present, writable link where it was missing; the
/// last-level entry is present and writable.
pub open spec fn walk_written(
    r0: Seq<PageDirectoryEntry>,
    m0: Map<u64, [u64; 512]>,
    a0: &PageFrameAllocator,
    r1: Seq<PageDirectoryEntry>,
    m1: Map<u64, [u64; 512]>,
    v: u64,
) -> bool {
    &&& kept_or_linked(r0[level_index(v, 39)].0, walk_entry(r1, m1, v, 0))
    &&& kept_or_linked(found1(r0, m0, a0, v), walk_entry(r1, m1, v, 1))
    &&& kept_or_linked(found2(r0, m0, a0, v), walk_entry(r1, m1, v, 2))
    &&& present(walk_entry(r1, m1, v, 3))
    &&& writable(walk_entry(r1, m1, v, 3))
}

/// The manager of the page tables, holding the root table.
pub struct PageTableManager {
    pub pml4: PageTable,
}

impl PageTableManager {
    /// A manager with a root table of clear entries.
    pub fn new() -> (m: Self)
        ensures
            forall|i: int| 0 <= i < 512 ==> (#[trigger] m.pml4.0@[i]).0 == 0,
    {
        PageTableManager { pml4: PageTable::new() }
    }

    /// Maps the page at `virtual_addr` to the frame at `physical_addr`:
    /// walks the four levels from the root table, following each present
    /// entry and linking each missing one to a fresh frame from the allocator
    /// (present and writable), and writes the last-level entry, present and
    /// writable. A fresh frame is not cleared: the walk reads on in whatever
    /// it holds.
    #[verifier::rlimit(80)]
    pub fn map_page(
        &mut self,
        mem: &mut TableMemory,
        alloc: &mut PageFrameAllocator,
        physical_addr: u64,
        virtual_addr: u64,
    )
        requires
            usize::BITS == 64,
            walk_in_memory(old(self).pml4.0@, old(mem)@, old(alloc), virtual_addr),
            mapped_taken(old(self).pml4.0@, old(mem)@, old(alloc), virtual_addr) > 0 ==> can_give(
                old(alloc),
                mapped_taken(old(self).pml4.0@, old(mem)@, old(alloc), virtual_addr),
            ),
        ensures
            final(self).pml4.0@ == mapped_root(old(self).pml4.0@, old(alloc), virtual_addr),
            final(mem)@ == mapped_mem(old(self).pml4.0@, old(mem)@, old(alloc), physical_addr, virtual_addr),
            took(old(alloc), final(alloc), mapped_taken(old(self).pml4.0@, old(mem)@, old(alloc), virtual_addr)),
            leaf_apart(old(self).pml4.0@, old(mem)@, old(alloc), virtual_addr) ==> translate(
                final(self).pml4.0@,
                final(mem)@,
                virtual_addr,
            ) == Some(physical_addr & FRAME_MASK),
            leaf_apart(old(self).pml4.0@, old(mem)@, old(alloc), virtual_addr) ==> walk_written(
                old(self).pml4.0@,
                old(mem)@,
                old(alloc),
                final(self).pml4.0@,
                final(mem)@,
                virtual_addr,
            ),
    {
        let ghost r0 = self.pml4.0@;
        let ghost m0 = mem@;
        let ghost a0 = *alloc;
        let ghost v = virtual_addr;
        let ghost total = mapped_taken(r0, m0, &a0, v);
        let ghost s0 = step0(r0, &a0, v);
        let ghost s1 = step1(r0, m0, &a0, v);
        let ghost s2 = step2(r0, m0, &a0, v);
        let ghost m1 = mem1(r0, m0, &a0, v);
        let ghost m2 = mem2(r0, m0, &a0, v);
        let indexer = PageTableIndexer::new(virtual_addr);
        let ghost i0 = indexer.page_dir as int;
        let ghost i1 = indexer.page_table as int;
        let ghost i2 = indexer.page as int;
        let ghost i3 = indexer.offset as int;
        assert(s0.2 <= s1.2 <= s2.2);
        // the root level
        let mut e = self.pml4.index(indexer.page_dir);
        let pde = link_or_follow(&mut e, alloc);
        self.pml4.index_mut(indexer.page_dir, e);
        let ghost a1 = *alloc;
        proof {
            lemma_level_step(r0[i0].0, &a0, 0);
            if present(r0[i0].0) {
                lemma_took_none(&a0, &a1, total);
            } else {
                lemma_took_one(&a0, &a1, total - 1);
            }
            assert(e.0 == s0.0 && pde == s0.1);
            assert(took(&a0, &a1, s0.2));
            assert(total - s0.2 > 0 ==> can_give(&a1, total - s0.2));
        }
        // the second level
        let raw1 = mem.entry(pde, indexer.page_table as usize);
        let mut e = PageDirectoryEntry(raw1);
        let linked1 = !e.get_flag(PageDirectoryFlag::Present);
        proof {
            lemma_fresh_after(&a0, &a1, s0.2);
        }
        let pte = link_or_follow(&mut e, alloc);
        if linked1 {
            mem.set_entry(pde, indexer.page_table as usize, e.0);
        }
        let ghost a2 = *alloc;
        proof {
            assert(raw1 == found1(r0, m0, &a0, v));
            lemma_level_step(raw1, &a0, s0.2);
            if linked1 {
                lemma_took_one(&a1, &a2, total - s0.2 - 1);
                lemma_took_then(&a0, &a1, &a2, s0.2, 1);
            } else {
                lemma_took_none(&a1, &a2, total - s0.2);
                lemma_took_then(&a0, &a1, &a2, s0.2, 0);
            }
            assert(e.0 == s1.0 && pte == s1.1);
            assert(mem@ == m1);
            lemma_put(m0, s0.1, i1, s1.0, s1.1, i2);
            assert(m1.dom() == m0.dom());
        }
        // the third level
        let raw2 = mem.entry(pte, indexer.page as usize);
        let mut e = PageDirectoryEntry(raw2);
        let linked2 = !e.get_flag(PageDirectoryFlag::Present);
        proof {
            lemma_fresh_after(&a0, &a2, s1.2);
        }
        let pe = link_or_follow(&mut e, alloc);
        if linked2 {
            mem.set_entry(pte, indexer.page as usize, e.0);
        }
        let ghost a3 = *alloc;
        proof {
            assert(raw2 == found2(r0, m0, &a0, v));
            lemma_level_step(raw2, &a0, s1.2);
            if linked2 {
                lemma_took_one(&a2, &a3, total - s1.2 - 1);
                lemma_took_then(&a0, &a2, &a3, s1.2, 1);
            } else {
                lemma_took_none(&a2, &a3, total - s1.2);
                lemma_took_then(&a0, &a2, &a3, s1.2, 0);
            }
            assert(e.0 == s2.0 && pe == s2.1);
            assert(mem@ == m2);
            lemma_put(m1, s1.1, i2, s2.0, s2.1, i3);
            assert(m2.dom() == m0.dom());
        }
        // the last level
        let raw3 = mem.entry(pe, indexer.offset as usize);
        let mut e = PageDirectoryEntry(raw3);
        e.set_addr(physical_addr >> 12u64);
        e.set_flag(PageDirectoryFlag::Present, true);
        e.set_flag(PageDirectoryFlag::ReadWrite, true);
        mem.set_entry(pe, indexer.offset as usize, e.0);
        proof {
            let r = self.pml4.0@;
            let m3 = mem@;
            let leaf = linked(raw3, physical_addr);
            assert(raw3 == found3(r0, m0, &a0, v));
            assert(e.0 == leaf);
            lemma_leaf(raw3, physical_addr);
            assert(r[i0] == PageDirectoryEntry(s0.0));
            assert(walk_entry(r, m3, v, 0) == s0.0);
            if leaf_apart(r0, m0, &a0, v) {
                lemma_put(m0, s0.1, i1, s1.0, s0.1, i1);
                lemma_put(m1, s1.1, i2, s2.0, s0.1, i1);
                lemma_put(m1, s1.1, i2, s2.0, s1.1, i2);
                lemma_put(m2, s2.1, i3, leaf, s0.1, i1);
                lemma_put(m2, s2.1, i3, leaf, s1.1, i2);
                lemma_put(m2, s2.1, i3, leaf, s2.1, i3);
                assert(entry_at(m1, s0.1, i1) == s1.0);
                assert(entry_at(m2, s0.1, i1) == s1.0);
                assert(entry_at(m2, s1.1, i2) == s2.0);
                assert(walk_entry(r, m3, v, 1) == s1.0);
                assert(walk_entry(r, m3, v, 2) == s2.0);
                assert(walk_entry(r, m3, v, 3) == leaf);
            }
        }
    }
}

} // verus!
