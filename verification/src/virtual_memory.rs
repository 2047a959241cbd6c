//! Four-level x86-64 paging as the memory driver does it: directory entries,
//! the split of a virtual address into table indices, and mapping a page.
use vstd::prelude::*;
use crate::bits::{zeros_in, first_clear_from, lemma_first_clear, lemma_zeros_take, lemma_first_clear_exists};
use crate::boot::PHYSICAL_LIMIT;
use crate::pfa::{self, PAGE_SIZE};
use crate::table_memory::{TableMemory, present, writable, frame, entry_at, FRAME_MASK};
use crate::boot::{BootInfo, pages_sum};
use crate::memory::GetPages;
use crate::page_tree::{
    regions, extend, same_page, tree_ok, lemma_regions, lemma_regions_grow, lemma_regions_prefix, lemma_tree_start,
    lemma_tree_step, lemma_tree_translates, lemma_tree_walk,
};

verus! {

/// A page directory entry: a physical frame address in bits 12 to 51 and flag bits around it.
#[derive(Clone, Copy, PartialEq, Eq, Structural, Debug)]
pub struct PageDiractoryEntry(pub u64);

/// The flags of a directory entry that the kernel uses.
#[derive(Clone, Copy, PartialEq, Eq, Structural, Debug)]
pub enum Flags {
    Present,
    ReadWrite,
}

/// The bit a flag occupies.
pub open spec fn flag_bit(flag: Flags) -> u64 {
    match flag {
        Flags::Present => 0,
        Flags::ReadWrite => 1,
    }
}

/// `raw` with bit `bit` set to `value`.
pub open spec fn with_flag(raw: u64, bit: u64, value: bool) -> u64 {
    if value {
        (raw & !(1u64 << bit)) | (1u64 << bit)
    } else {
        raw & !(1u64 << bit)
    }
}

/// `raw` with its frame field replaced by the low 40 bits of the page number `addr`.
pub open spec fn with_addr(raw: u64, addr: u64) -> u64 {
    (raw & 0xfff0_0000_0000_0fffu64) | ((addr & 0xff_ffff_ffffu64) << 12u64)
}

/// The entry that links to the table at `table`: its frame set to it, present and writable.
pub open spec fn linked(raw: u64, table: u64) -> u64 {
    with_flag(with_flag(with_addr(raw, table >> 12u64), 0, true), 1, true)
}

impl Flags {
    /// The bit this flag occupies.
    pub fn bit(&self) -> (b: u64)
        ensures
            b == flag_bit(*self),
    {
        match self {
            Flags::Present => 0,
            Flags::ReadWrite => 1,
        }
    }
}

impl PageDiractoryEntry {
    /// Whether `flag` is set.
    pub fn get_flag(&self, flag: Flags) -> (set: bool)
        ensures
            set == (self.0 & (1u64 << flag_bit(flag)) != 0u64),
    {
        (self.0 & (1u64 << flag.bit())) != 0
    }

    /// Sets `flag` to `value`, leaving every other bit.
    pub fn set_flag(&mut self, flag: Flags, value: bool)
        ensures
            final(self).0 == with_flag(old(self).0, flag_bit(flag), value),
    {
        let flag = flag.bit();
        self.0 = self.0 & !(1u64 << flag);
        if value {
            self.0 = self.0 | (1u64 << flag);
        }
    }

    /// The page number of the frame the entry names.
    pub fn get_addr(&self) -> (addr: u64)
        ensures
            addr == (self.0 & FRAME_MASK) >> 12u64,
    {
        (self.0 & 0x000ffffffffff000u64) >> 12u64
    }

    /// Names the frame with page number `addr` (its low 40 bits), leaving the flag bits.
    pub fn set_addr(&mut self, addr: u64)
        ensures
            final(self).0 == with_addr(old(self).0, addr),
    {
        self.0 = self.0 & 0xfff0000000000fffu64;
        self.0 = self.0 | ((addr & 0xffffffffffu64) << 12u64);
    }
}

/// A flag reads back as it was set, setting it leaves the other bits, and
/// neither flag touches the frame field.
pub proof fn lemma_flag_roundtrip(raw: u64, bit: u64, other: u64, value: bool)
    requires
        bit == 0 || bit == 1,
        other < 64,
        other != bit,
    ensures
        (with_flag(raw, bit, value) & (1u64 << bit) != 0u64) == value,
        (with_flag(raw, bit, value) & (1u64 << other)) == (raw & (1u64 << other)),
        with_flag(raw, bit, value) & FRAME_MASK == raw & FRAME_MASK,
{
    if bit == 0 {
        assert((with_flag(raw, 0, value) & (1u64 << 0u64) != 0u64) == value) by (bit_vector);
        assert((with_flag(raw, 0, value) & (1u64 << other)) == (raw & (1u64 << other))) by (bit_vector)
            requires
                other < 64,
                other != 0,
        ;
        assert(with_flag(raw, 0, value) & 0x000f_ffff_ffff_f000u64 == raw & 0x000f_ffff_ffff_f000u64)
            by (bit_vector);
    } else {
        assert((with_flag(raw, 1, value) & (1u64 << 1u64) != 0u64) == value) by (bit_vector);
        assert((with_flag(raw, 1, value) & (1u64 << other)) == (raw & (1u64 << other))) by (bit_vector)
            requires
                other < 64,
                other != 1,
        ;
        assert(with_flag(raw, 1, value) & 0x000f_ffff_ffff_f000u64 == raw & 0x000f_ffff_ffff_f000u64)
            by (bit_vector);
    }
}

/// The page number reads back as its low 40 bits, and writing it leaves the flag bits.
pub proof fn lemma_addr_roundtrip(raw: u64, addr: u64)
    ensures
        (with_addr(raw, addr) & FRAME_MASK) >> 12u64 == addr & 0xff_ffff_ffffu64,
        with_addr(raw, addr) & 0xfff0_0000_0000_0fffu64 == raw & 0xfff0_0000_0000_0fffu64,
{
    assert((with_addr(raw, addr) & 0x000f_ffff_ffff_f000u64) >> 12u64 == addr & 0xff_ffff_ffffu64)
        by (bit_vector);
    assert(with_addr(raw, addr) & 0xfff0_0000_0000_0fffu64 == raw & 0xfff0_0000_0000_0fffu64)
        by (bit_vector);
}

/// Linking an entry to an aligned table below the physical limit makes it
/// present, writable and naming that table.
pub proof fn lemma_linked(raw: u64, table: u64)
    requires
        table % 4096 == 0,
        table < PHYSICAL_LIMIT,
    ensures
        present(linked(raw, table)),
        writable(linked(raw, table)),
        frame(linked(raw, table)) == table,
{
    assert(present(linked(raw, table)) && writable(linked(raw, table))) by (bit_vector);
    assert(frame(linked(raw, table)) == table) by (bit_vector)
        requires
            table % 4096 == 0,
            table < 0x10_0000_0000_0000u64,
    ;
}

/// The index into the table at one level: nine bits of the virtual address from `shift` on.
pub open spec fn level_index(virtual_addr: u64, shift: u64) -> int {
    ((virtual_addr >> shift) & 0x1ffu64) as int
}

/// A table of 512 directory entries, one page frame in size.
pub struct PageTable(pub [PageDiractoryEntry; 512]);

/// The indices into the four levels of tables that a virtual address selects.
pub struct PageMapIndexer {
    pub pdp_i: usize,
    pub pd_i: usize,
    pub pt_i: usize,
    pub p_i: usize,
}

impl PageMapIndexer {
    /// Splits a virtual address into its four table indices.
    pub fn new(virtual_addr: u64) -> (indexer: Self)
        ensures
            indexer.pdp_i == level_index(virtual_addr, 39),
            indexer.pd_i == level_index(virtual_addr, 30),
            indexer.pt_i == level_index(virtual_addr, 21),
            indexer.p_i == level_index(virtual_addr, 12),
            indexer.pdp_i < 512 && indexer.pd_i < 512 && indexer.pt_i < 512 && indexer.p_i < 512,
    {
        let mut vr: u64 = virtual_addr;
        vr = vr >> 12u64;
        let p_i: usize = (vr & 0x1ffu64) as usize;
        vr = vr >> 9u64;
        let pt_i: usize = (vr & 0x1ffu64) as usize;
        vr = vr >> 9u64;
        let pd_i: usize = (vr & 0x1ffu64) as usize;
        vr = vr >> 9u64;
        let pdp_i: usize = (vr & 0x1ffu64) as usize;
        assert(((virtual_addr >> 12u64) >> 9u64) == virtual_addr >> 21u64) by (bit_vector);
        assert((((virtual_addr >> 12u64) >> 9u64) >> 9u64) == virtual_addr >> 30u64) by (bit_vector);
        assert(((((virtual_addr >> 12u64) >> 9u64) >> 9u64) >> 9u64) == virtual_addr >> 39u64)
            by (bit_vector);
        assert(forall|x: u64| #[trigger] (x & 0x1ffu64) < 512) by (bit_vector);
        PageMapIndexer { pdp_i, pd_i, pt_i, p_i }
    }
}

/// The four indices put back together give the virtual address's page bits.
pub proof fn lemma_indices_rebuild(v: u64)
    ensures
        v & 0x0000_ffff_ffff_f000u64 == (((v >> 39u64) & 0x1ffu64) << 39u64) | (((v >> 30u64)
            & 0x1ffu64) << 30u64) | (((v >> 21u64) & 0x1ffu64) << 21u64) | (((v >> 12u64)
            & 0x1ffu64) << 12u64),
{
    assert(v & 0x0000_ffff_ffff_f000u64 == (((v >> 39u64) & 0x1ffu64) << 39u64) | (((v >> 30u64)
        & 0x1ffu64) << 30u64) | (((v >> 21u64) & 0x1ffu64) << 21u64) | (((v >> 12u64) & 0x1ffu64)
        << 12u64)) by (bit_vector);
}

/// The tables that lie below the allocator's bitmap sit in frames it has taken.
pub open spec fn tables_taken(mem: Map<u64, [u64; 512]>, alloc: &pfa::PageFrameAllocator) -> bool {
    forall|a: u64|
        #[trigger] mem.contains_key(a) && (a as int / PAGE_SIZE as int) < alloc.page_bitmap.size
            ==> alloc.page_bitmap@[a as int / PAGE_SIZE as int]
}

/// The allocator can hand out `k` frames for new tables.
pub open spec fn can_give(alloc: &pfa::PageFrameAllocator, k: int) -> bool {
    &&& alloc.inv()
    &&& alloc.bounded()
    &&& alloc.page_bitmap.size * PAGE_SIZE <= PHYSICAL_LIMIT
    &&& zeros_in(alloc.page_bitmap@, 0, alloc.page_bitmap.size as int) >= k
}

/// `v` after its first `k` cleared entries below `n` have been set.
pub open spec fn take_first(v: Seq<bool>, n: int, k: int) -> Seq<bool>
    decreases k,
{
    if k <= 0 {
        v
    } else {
        let w = take_first(v, n, k - 1);
        w.update(first_clear_from(w, 0, n), true)
    }
}

/// `post` is `pre` after handing out its first `k` clear frames.
pub open spec fn took(pre: &pfa::PageFrameAllocator, post: &pfa::PageFrameAllocator, k: int) -> bool {
    &&& post.page_bitmap.size == pre.page_bitmap.size
    &&& post.page_bitmap.addr == pre.page_bitmap.addr
    &&& post.page_bitmap@ == take_first(pre.page_bitmap@, pre.page_bitmap.size as int, k)
    &&& post.total_mem == pre.total_mem
    &&& post.first_free_page_index == pre.first_free_page_index
    &&& post.reserved_mem == pre.reserved_mem
    &&& post.used_mem == pre.used_mem + PAGE_SIZE * k
    &&& post.free_mem == pre.free_mem - PAGE_SIZE * k
}

/// The entries the walk for `v` reads, level by level.
pub open spec fn walk_entry(mem: Map<u64, [u64; 512]>, root: u64, v: u64, level: int) -> u64
    decreases level,
{
    if level <= 0 {
        entry_at(mem, root, level_index(v, 39))
    } else {
        let table = frame(walk_entry(mem, root, v, level - 1));
        let shift: u64 = if level == 1 {
            30
        } else if level == 2 {
            21
        } else {
            12
        };
        entry_at(mem, table, level_index(v, shift))
    }
}

/// The bit at which the index into a table of level `k` starts (the root is level 0).
pub open spec fn level_shift(k: int) -> u64 {
    if k <= 0 {
        39
    } else if k == 1 {
        30
    } else if k == 2 {
        21
    } else {
        12
    }
}

/// After `v` is mapped from `pre` to `post`: every entry of its walk is
/// present and leads to a table that is there; the tables of the levels
/// that were there are kept, the others are new, different from each other,
/// and clear but for the entry the walk follows; the entries of the walk
/// that were there are kept, and those written (from the first missing
/// level down to the last-level entry) are writable.
pub open spec fn new_walk(pre: Map<u64, [u64; 512]>, post: Map<u64, [u64; 512]>, root: u64, v: u64) -> bool {
    let m = missing(pre, root, v);
    &&& forall|k: int| 0 <= k < 3 - m ==> #[trigger] walk_entry(post, root, v, k) == walk_entry(pre, root, v, k)
    &&& forall|k: int| 3 - m <= k <= 3 ==> writable(#[trigger] walk_entry(post, root, v, k))
    &&& forall|k: int|
        1 <= k <= 3 ==> present(#[trigger] walk_entry(post, root, v, k - 1)) && post.contains_key(
            walk_table(post, root, v, k),
        )
    &&& forall|k: int| 1 <= k <= 3 - m ==> #[trigger] walk_table(post, root, v, k) == walk_table(pre, root, v, k)
    &&& forall|k: int| 3 - m < k <= 3 ==> !pre.contains_key(#[trigger] walk_table(post, root, v, k))
    &&& forall|k1: int, k2: int|
        3 - m < k1 < k2 <= 3 ==> #[trigger] walk_table(post, root, v, k1) != #[trigger] walk_table(post, root, v, k2)
    &&& forall|k: int, j: int|
        3 - m < k <= 3 && 0 <= j < 512 && j != level_index(v, level_shift(k)) ==> #[trigger] post[walk_table(
            post,
            root,
            v,
            k,
        )]@[j] == 0u64
}

/// The table the walk for `v` reads at a level (0 is the root).
pub open spec fn walk_table(mem: Map<u64, [u64; 512]>, root: u64, v: u64, level: int) -> u64 {
    if level <= 0 {
        root
    } else {
        frame(walk_entry(mem, root, v, level - 1))
    }
}

/// The walk for `v` finds every table it follows a present entry to.
pub open spec fn walk_ok(mem: Map<u64, [u64; 512]>, root: u64, v: u64) -> bool {
    &&& mem.contains_key(root)
    &&& present(walk_entry(mem, root, v, 0)) ==> {
        &&& mem.contains_key(walk_table(mem, root, v, 1))
        &&& present(walk_entry(mem, root, v, 1)) ==> {
            &&& mem.contains_key(walk_table(mem, root, v, 2))
            &&& present(walk_entry(mem, root, v, 2)) ==> mem.contains_key(walk_table(mem, root, v, 3))
        }
    }
}

/// How many tables the walk for `v` lacks (and mapping it creates).
pub open spec fn missing(mem: Map<u64, [u64; 512]>, root: u64, v: u64) -> int {
    if !present(walk_entry(mem, root, v, 0)) {
        3
    } else if !present(walk_entry(mem, root, v, 1)) {
        2
    } else if !present(walk_entry(mem, root, v, 2)) {
        1
    } else {
        0
    }
}

/// The frame that `v` translates to, if every table on its walk is there and present.
pub open spec fn translate(mem: Map<u64, [u64; 512]>, root: u64, v: u64) -> Option<u64> {
    if mem.contains_key(root) && present(walk_entry(mem, root, v, 0)) && mem.contains_key(
        walk_table(mem, root, v, 1),
    ) && present(walk_entry(mem, root, v, 1)) && mem.contains_key(walk_table(mem, root, v, 2))
        && present(walk_entry(mem, root, v, 2)) && mem.contains_key(walk_table(mem, root, v, 3))
        && present(walk_entry(mem, root, v, 3)) {
        Some(frame(walk_entry(mem, root, v, 3)))
    } else {
        None
    }
}

/// The one entry of an existing table that mapping `v` writes: the link at
/// the first missing level, or the last-level entry.
pub open spec fn written_slot(mem: Map<u64, [u64; 512]>, root: u64, v: u64) -> (u64, int) {
    let k = 3 - missing(mem, root, v);
    let shift: u64 = if k == 0 {
        39
    } else if k == 1 {
        30
    } else if k == 2 {
        21
    } else {
        12
    };
    (walk_table(mem, root, v, k), level_index(v, shift))
}

/// The last-level entry of a complete walk is none of the entries the walk follows.
pub open spec fn leaf_apart(mem: Map<u64, [u64; 512]>, root: u64, v: u64) -> bool {
    missing(mem, root, v) > 0 || {
        let leaf = (walk_table(mem, root, v, 3), level_index(v, 12));
        &&& leaf != (walk_table(mem, root, v, 0), level_index(v, 39))
        &&& leaf != (walk_table(mem, root, v, 1), level_index(v, 30))
        &&& leaf != (walk_table(mem, root, v, 2), level_index(v, 21))
    }
}

/// The table that the entry at `index` of `table` leads to; a missing one is
/// created in a fresh frame from the allocator and linked in.
pub(crate) fn ensure_table(mem: &mut TableMemory, alloc: &mut pfa::PageFrameAllocator, table: u64, index: usize) -> (next: u64)
    requires
        usize::BITS == 64,
        old(mem)@.contains_key(table),
        index < 512,
        present(entry_at(old(mem)@, table, index as int)) ==> old(mem)@.contains_key(
            frame(entry_at(old(mem)@, table, index as int)),
        ),
        !present(entry_at(old(mem)@, table, index as int)) ==> can_give(old(alloc), 1),
        tables_taken(old(mem)@, old(alloc)),
    ensures
        final(mem)@.contains_key(next),
        tables_taken(final(mem)@, final(alloc)),
        present(entry_at(old(mem)@, table, index as int)) ==> {
            &&& next == frame(entry_at(old(mem)@, table, index as int))
            &&& final(mem)@ == old(mem)@
            &&& took(old(alloc), final(alloc), 0)
        },
        !present(entry_at(old(mem)@, table, index as int)) ==> {
            &&& !old(mem)@.contains_key(next)
            &&& next % 4096 == 0
            &&& next < PHYSICAL_LIMIT
            &&& final(mem)@.dom() == old(mem)@.dom().insert(next)
            &&& forall|j: int| 0 <= j < 512 ==> #[trigger] final(mem)@[next]@[j] == 0u64
            &&& final(mem)@[table]@ == old(mem)@[table]@.update(
                index as int,
                linked(entry_at(old(mem)@, table, index as int), next),
            )
            &&& forall|a: u64|
                a != table && old(mem)@.contains_key(a) ==> final(mem)@[a] == old(mem)@[a]
            &&& took(old(alloc), final(alloc), 1)
            &&& final(alloc).inv()
            &&& final(alloc).bounded()
        },
{
    let raw = mem.entry(table, index);
    let mut entry = PageDiractoryEntry(raw);
    assert((raw & (1u64 << 0u64)) == (raw & 1u64)) by (bit_vector);
    if entry.get_flag(Flags::Present) {
        let next = entry.get_addr() << 12u64;
        assert(((raw & 0x000f_ffff_ffff_f000u64) >> 12u64) << 12u64 == raw & 0x000f_ffff_ffff_f000u64)
            by (bit_vector);
        proof {
            assert(take_first(alloc.page_bitmap@, alloc.page_bitmap.size as int, 0) == alloc.page_bitmap@);
        }
        return next;
    }
    let ghost pre = *alloc;
    let ghost size = alloc.page_bitmap.size as int;
    let ghost v = alloc.page_bitmap@;
    proof {
        lemma_first_clear_exists(v, 0, size);
        alloc.lemma_room(0, size);
        assert forall|k: int|
            #![trigger v[k]]
            0 <= k < size && !v[k] && (forall|j: int| 0 <= j < k ==> v[j]) implies k * PAGE_SIZE
            <= usize::MAX && PAGE_SIZE <= pre.free_mem && pre.used_mem + PAGE_SIZE <= usize::MAX by {
            crate::bits::lemma_zeros_in_bound(v, 0, size);
        }
    }
    let page = alloc.get_free_page();
    let next = page.unwrap();
    let ghost i = first_clear_from(v, 0, size);
    proof {
        lemma_first_clear(v, 0, size, next as int / PAGE_SIZE as int);
        assert(next as int == i * PAGE_SIZE);
        lemma_zeros_take(v, i, size);
        crate::bits::lemma_fill_step(v, i, i);
        assert(crate::bits::fill(v, i, i) =~= v);
        assert(take_first(v, size, 1) == take_first(v, size, 0).update(i, true));
        assert(take_first(v, size, 0) == v);
        if mem@.contains_key(next) {
            assert(v[next as int / PAGE_SIZE as int]);
        }
    }
    mem.zero_table(next);
    entry.set_addr(next >> 12u64);
    entry.set_flag(Flags::Present, true);
    entry.set_flag(Flags::ReadWrite, true);
    mem.set_entry(table, index, entry.0);
    proof {
        assert forall|a: u64|
            #[trigger] mem@.contains_key(a) && (a as int / PAGE_SIZE as int) < alloc.page_bitmap.size
            implies alloc.page_bitmap@[a as int / PAGE_SIZE as int] by {
            if a != next {
                assert(old(mem)@.contains_key(a));
            }
        }
    }
    next
}

/// Taking `k + 1` frames is taking `k` and then one more.
pub proof fn lemma_take_first_step(v: Seq<bool>, n: int, k: int)
    requires
        0 <= k,
    ensures
        take_first(v, n, k + 1) == take_first(take_first(v, n, k), n, 1),
{
    let w = take_first(v, n, k);
    assert(take_first(w, n, 0) == w);
}

/// The manager of the page tables whose root table lies at `pml4`.
pub struct PageTableManager {
    pub pml4: u64,
}

impl PageTableManager {
    /// Maps the page at `virtual_addr` to the frame at `physical_addr`:
    /// walks the four levels of tables from the root, creating each missing
    /// table in a cleared frame from the allocator, and writes the last-level
    /// entry, present and writable.
    #[verifier::rlimit(80)]
    pub fn map_memory(
        &self,
        mem: &mut TableMemory,
        alloc: &mut pfa::PageFrameAllocator,
        physical_addr: u64,
        virtual_addr: u64,
    )
        requires
            usize::BITS == 64,
            walk_ok(old(mem)@, self.pml4, virtual_addr),
            missing(old(mem)@, self.pml4, virtual_addr) > 0 ==> can_give(
                old(alloc),
                missing(old(mem)@, self.pml4, virtual_addr),
            ),
            tables_taken(old(mem)@, old(alloc)),
        ensures
            leaf_apart(old(mem)@, self.pml4, virtual_addr) ==> translate(
                final(mem)@,
                self.pml4,
                virtual_addr,
            ) == Some(physical_addr & FRAME_MASK),
            took(old(alloc), final(alloc), missing(old(mem)@, self.pml4, virtual_addr)),
            tables_taken(final(mem)@, final(alloc)),
            forall|a: u64| old(mem)@.contains_key(a) ==> #[trigger] final(mem)@.contains_key(a),
            forall|a: u64, j: int|
                old(mem)@.contains_key(a) && 0 <= j < 512 && (a, j) != written_slot(
                    old(mem)@,
                    self.pml4,
                    virtual_addr,
                ) ==> #[trigger] final(mem)@[a]@[j] == old(mem)@[a]@[j],
            leaf_apart(old(mem)@, self.pml4, virtual_addr) ==> new_walk(
                old(mem)@,
                final(mem)@,
                self.pml4,
                virtual_addr,
            ),
    {
        let ghost m0 = mem@;
        let ghost a0 = *alloc;
        let ghost root = self.pml4;
        let ghost v = virtual_addr;
        let indexer = PageMapIndexer::new(virtual_addr);
        proof {
            assert(walk_table(m0, root, v, 0) == root);
            assert(walk_entry(m0, root, v, 0) == entry_at(m0, root, indexer.pdp_i as int));
            if present(walk_entry(m0, root, v, 0)) {
                assert(mem@.contains_key(walk_table(m0, root, v, 1)));
            }
        }
        let pdp = ensure_table(mem, alloc, self.pml4, indexer.pdp_i);
        let ghost m1 = mem@;
        let ghost a1 = *alloc;
        let ghost i1 = indexer.pdp_i as int;
        let ghost i2 = indexer.pd_i as int;
        let ghost i3 = indexer.pt_i as int;
        proof {
            if present(walk_entry(m0, root, v, 0)) {
                assert(pdp == walk_table(m0, root, v, 1));
                assert(walk_entry(m0, root, v, 1) == entry_at(m0, pdp, i2));
                lemma_took_none(&a0, &a1, missing(m0, root, v));
            } else {
                lemma_linked(entry_at(m0, root, i1), pdp);
                assert(writable(entry_at(m1, root, i1)));
                assert(entry_at(m1, pdp, i2) == 0u64);
                assert((0u64 & 1u64) == 0u64) by (bit_vector);
                lemma_took_one(&a0, &a1, 2);
            }
            assert(present(entry_at(m1, root, i1)) && frame(entry_at(m1, root, i1)) == pdp);
        }
        let pd = ensure_table(mem, alloc, pdp, indexer.pd_i);
        let ghost m2 = mem@;
        let ghost a2 = *alloc;
        proof {
            if present(entry_at(m1, pdp, i2)) {
                assert(present(walk_entry(m0, root, v, 0)));
                assert(m1 == m0);
                assert(pd == walk_table(m0, root, v, 2));
                assert(walk_entry(m0, root, v, 2) == entry_at(m0, pd, i3));
                lemma_took_none(&a1, &a2, missing(m0, root, v));
            } else {
                lemma_linked(entry_at(m1, pdp, i2), pd);
                assert(writable(entry_at(m2, pdp, i2)));
                assert(entry_at(m2, pd, i3) == 0u64);
                assert((0u64 & 1u64) == 0u64) by (bit_vector);
                if present(walk_entry(m0, root, v, 0)) {
                    lemma_took_one(&a1, &a2, 1);
                } else {
                    lemma_took_one(&a1, &a2, 1);
                }
            }
            assert(entry_at(m2, root, i1) == entry_at(m1, root, i1));
            assert(present(entry_at(m2, pdp, i2)) && frame(entry_at(m2, pdp, i2)) == pd);
        }
        let pt = ensure_table(mem, alloc, pd, indexer.pt_i);
        let ghost m3 = mem@;
        let ghost a3 = *alloc;
        proof {
            if present(entry_at(m2, pd, i3)) {
                assert(m2 == m0);
                assert(pt == walk_table(m0, root, v, 3));
            } else {
                lemma_linked(entry_at(m2, pd, i3), pt);
                assert(writable(entry_at(m3, pd, i3)));
            }
            assert(entry_at(m3, root, i1) == entry_at(m2, root, i1));
            assert(entry_at(m3, pdp, i2) == entry_at(m2, pdp, i2));
            assert(present(entry_at(m3, pd, i3)) && frame(entry_at(m3, pd, i3)) == pt);
        }
        let raw = mem.entry(pt, indexer.p_i);
        let mut entry = PageDiractoryEntry(raw);
        entry.set_addr(physical_addr >> 12u64);
        entry.set_flag(Flags::Present, true);
        entry.set_flag(Flags::ReadWrite, true);
        proof {
            assert(present(entry.0) && writable(entry.0) && frame(entry.0) == physical_addr & FRAME_MASK) by {
                assert(present(with_flag(with_flag(with_addr(raw, physical_addr >> 12u64), 0, true), 1, true))
                    && writable(with_flag(with_flag(with_addr(raw, physical_addr >> 12u64), 0, true), 1, true))
                    && frame(with_flag(with_flag(with_addr(raw, physical_addr >> 12u64), 0, true), 1, true))
                    == physical_addr & FRAME_MASK) by (bit_vector);
            }
        }
        mem.set_entry(pt, indexer.p_i, entry.0);
        proof {
            let m4 = mem@;
            let va = virtual_addr;
            // the allocator took one frame for each missing table
            let n = a0.page_bitmap.size as int;
            lemma_take_first_step(a0.page_bitmap@, n, 0);
            lemma_take_first_step(a0.page_bitmap@, n, 1);
            lemma_take_first_step(a0.page_bitmap@, n, 2);
            assert(take_first(a0.page_bitmap@, n, 0) == a0.page_bitmap@);
            if leaf_apart(m0, root, va) {
                assert(entry_at(m4, root, i1) == entry_at(m3, root, i1));
                assert(entry_at(m4, pdp, i2) == entry_at(m3, pdp, i2));
                assert(entry_at(m4, pd, i3) == entry_at(m3, pd, i3));
                lemma_translate(m4, root, va, pdp, pd, pt);
                if present(walk_entry(m0, root, va, 0)) {
                    assert(walk_entry(m0, root, va, 0) == entry_at(m0, root, i1));
                    if present(walk_entry(m0, root, va, 1)) {
                        assert(walk_entry(m0, root, va, 1) == entry_at(m0, pdp, i2));
                        if present(walk_entry(m0, root, va, 2)) {
                            assert(walk_entry(m0, root, va, 2) == entry_at(m0, pd, i3));
                        }
                    }
                }
            }
        }
    }
}

/// A walk whose four entries are present and lead through tables that are
/// there translates to the frame its last entry names.
pub proof fn lemma_translate(m: Map<u64, [u64; 512]>, root: u64, v: u64, t2: u64, t3: u64, t4: u64)
    requires
        m.contains_key(root),
        present(entry_at(m, root, level_index(v, 39))),
        frame(entry_at(m, root, level_index(v, 39))) == t2,
        m.contains_key(t2),
        present(entry_at(m, t2, level_index(v, 30))),
        frame(entry_at(m, t2, level_index(v, 30))) == t3,
        m.contains_key(t3),
        present(entry_at(m, t3, level_index(v, 21))),
        frame(entry_at(m, t3, level_index(v, 21))) == t4,
        m.contains_key(t4),
        present(entry_at(m, t4, level_index(v, 12))),
    ensures
        translate(m, root, v) == Some(frame(entry_at(m, t4, level_index(v, 12)))),
        walk_entry(m, root, v, 0) == entry_at(m, root, level_index(v, 39)),
        walk_entry(m, root, v, 1) == entry_at(m, t2, level_index(v, 30)),
        walk_entry(m, root, v, 2) == entry_at(m, t3, level_index(v, 21)),
        walk_entry(m, root, v, 3) == entry_at(m, t4, level_index(v, 12)),
{
    assert(walk_entry(m, root, v, 0) == entry_at(m, root, level_index(v, 39)));
    assert(walk_entry(m, root, v, 1) == entry_at(m, t2, level_index(v, 30)));
    assert(walk_entry(m, root, v, 2) == entry_at(m, t3, level_index(v, 21)));
    assert(walk_entry(m, root, v, 3) == entry_at(m, t4, level_index(v, 12)));
    assert(walk_table(m, root, v, 1) == t2);
    assert(walk_table(m, root, v, 2) == t3);
    assert(walk_table(m, root, v, 3) == t4);
}

/// Handing out no frame leaves the allocator able to give what it could.
pub proof fn lemma_took_none(a0: &pfa::PageFrameAllocator, a1: &pfa::PageFrameAllocator, k: int)
    requires
        took(a0, a1, 0),
    ensures
        can_give(a0, k) ==> can_give(a1, k),
        a1.page_bitmap@ == a0.page_bitmap@,
{
    assert(take_first(a0.page_bitmap@, a0.page_bitmap.size as int, 0) == a0.page_bitmap@);
}

/// Handing out one frame leaves the allocator able to give one fewer.
pub proof fn lemma_took_one(a0: &pfa::PageFrameAllocator, a1: &pfa::PageFrameAllocator, k: int)
    requires
        can_give(a0, k + 1),
        0 <= k,
        took(a0, a1, 1),
        a1.inv(),
        a1.bounded(),
    ensures
        can_give(a1, k),
{
    let v = a0.page_bitmap@;
    let n = a0.page_bitmap.size as int;
    assert(take_first(v, n, 0) == v);
    lemma_first_clear_exists(v, 0, n);
    lemma_zeros_take(v, first_clear_from(v, 0, n), n);
}

/// Setting the first `k` cleared entries below `n` takes `k` from the
/// cleared entries below `n`, adds `k` set entries, and leaves the entries
/// from `n` on.
pub proof fn lemma_take_first_count(v: Seq<bool>, n: int, k: int)
    requires
        0 <= n < v.len(),
        0 <= k <= zeros_in(v, 0, n),
    ensures
        take_first(v, n, k).len() == v.len(),
        zeros_in(take_first(v, n, k), 0, n) + k == zeros_in(v, 0, n),
        crate::bits::popcount(take_first(v, n, k)) == crate::bits::popcount(v) + k,
        forall|j: int| n <= j < v.len() ==> #[trigger] take_first(v, n, k)[j] == v[j],
    decreases k,
{
    if k > 0 {
        lemma_take_first_count(v, n, k - 1);
        let w = take_first(v, n, k - 1);
        lemma_first_clear_exists(w, 0, n);
        let i = first_clear_from(w, 0, n);
        lemma_zeros_take(w, i, n);
        crate::bits::lemma_popcount_set(w, i);
    }
}

/// Handing out `k1` frames and then `k2` more is handing out `k1 + k2`.
pub proof fn lemma_take_first_add(v: Seq<bool>, n: int, k1: int, k2: int)
    requires
        0 <= k1,
        0 <= k2,
    ensures
        take_first(take_first(v, n, k1), n, k2) == take_first(v, n, k1 + k2),
    decreases k2,
{
    if k2 > 0 {
        lemma_take_first_add(v, n, k1, k2 - 1);
    } else {
        assert(take_first(take_first(v, n, k1), n, 0) == take_first(v, n, k1));
    }
}

/// Handing out `k1` frames and then `k2` more is handing out `k1 + k2`.
pub proof fn lemma_took_add(
    a0: &pfa::PageFrameAllocator,
    a1: &pfa::PageFrameAllocator,
    a2: &pfa::PageFrameAllocator,
    k1: int,
    k2: int,
)
    requires
        took(a0, a1, k1),
        took(a1, a2, k2),
        0 <= k1,
        0 <= k2,
    ensures
        took(a0, a2, k1 + k2),
{
    lemma_take_first_add(a0.page_bitmap@, a0.page_bitmap.size as int, k1, k2);
}

/// Handing out `k` of the frames a consistent allocator has free keeps it
/// consistent, with `k` fewer free frames.
pub proof fn lemma_took_counts(a0: &pfa::PageFrameAllocator, a1: &pfa::PageFrameAllocator, k: int)
    requires
        took(a0, a1, k),
        a0.inv(),
        0 <= k <= zeros_in(a0.page_bitmap@, 0, a0.page_bitmap.size as int),
    ensures
        a1.inv(),
        a0.bounded() ==> a1.bounded(),
        zeros_in(a1.page_bitmap@, 0, a1.page_bitmap.size as int) + k == zeros_in(
            a0.page_bitmap@,
            0,
            a0.page_bitmap.size as int,
        ),
{
    lemma_take_first_count(a0.page_bitmap@, a0.page_bitmap.size as int, k);
}

/// Handing out the first clear frame, as `get_free_page` does, is `took` of one frame.
pub proof fn lemma_took_first(a0: &pfa::PageFrameAllocator, a1: &pfa::PageFrameAllocator, i: int)
    requires
        0 <= i < a0.page_bitmap.size,
        i < a0.page_bitmap@.len(),
        !a0.page_bitmap@[i],
        forall|j: int| 0 <= j < i ==> a0.page_bitmap@[j],
        pfa::PageFrameAllocator::run_taken(a0, a1, pfa::PageAction::Lock, i, i + 1),
    ensures
        took(a0, a1, 1),
{
    let v = a0.page_bitmap@;
    let n = a0.page_bitmap.size as int;
    lemma_first_clear(v, 0, n, i);
    crate::bits::lemma_fill_step(v, i, i);
    assert(crate::bits::fill(v, i, i) =~= v);
    assert(take_first(v, n, 1) == take_first(v, n, 0).update(i, true));
    assert(take_first(v, n, 0) == v);
    assert(zeros_in(v, i, i + 1) == 1) by {
        assert(zeros_in(v, i, i) == 0);
    }
}

/// The pages that start-up maps, each to itself: those of the first
/// `pages` frames of memory, then those the frame buffer of `fb_size`
/// bytes at `fb_base` spans.
pub open spec fn identity_pages(pages: int, fb_base: u64, fb_size: int) -> Seq<u64> {
    Seq::new(pages as nat, |j: int| (j * 4096) as u64) + Seq::new(
        ((fb_size + 4095) / 4096) as nat,
        |j: int| (fb_base + j * 4096) as u64,
    )
}

/// What holds between the pages mapped so far at start-up: the tables form
/// the tree of the pages in `done`, the allocator has handed out one frame
/// for each of their regions since `a1`, and it can still give the frames
/// the regions of all `pages` need.
pub open spec fn mapping_ok(
    mem: Map<u64, [u64; 512]>,
    alloc: &pfa::PageFrameAllocator,
    root: u64,
    tab: Map<(int, int), u64>,
    done: Seq<u64>,
    a1: &pfa::PageFrameAllocator,
    pages: Seq<u64>,
) -> bool {
    &&& tree_ok(mem, root, tab, done)
    &&& tables_taken(mem, alloc)
    &&& alloc.inv()
    &&& alloc.bounded()
    &&& alloc.page_bitmap.size == a1.page_bitmap.size
    &&& alloc.page_bitmap.size * PAGE_SIZE <= PHYSICAL_LIMIT
    &&& took(a1, alloc, regions(done).len() as int)
    &&& zeros_in(alloc.page_bitmap@, 0, alloc.page_bitmap.size as int) + regions(done).len() == zeros_in(
        a1.page_bitmap@,
        0,
        a1.page_bitmap.size as int,
    )
    &&& zeros_in(a1.page_bitmap@, 0, a1.page_bitmap.size as int) >= regions(pages).len()
    &&& regions(pages).finite()
}

/// Maps the page at `a` to itself over the tables of start-up.
fn map_identity(
    manager: &PageTableManager,
    mem: &mut TableMemory,
    alloc: &mut pfa::PageFrameAllocator,
    tab: Ghost<Map<(int, int), u64>>,
    done: Ghost<Seq<u64>>,
    a1: Ghost<pfa::PageFrameAllocator>,
    pages: Ghost<Seq<u64>>,
    a: u64,
) -> (next: Ghost<Map<(int, int), u64>>)
    requires
        usize::BITS == 64,
        mapping_ok(old(mem)@, old(alloc), manager.pml4, tab@, done@, &a1@, pages@),
        done@.len() < pages@.len(),
        pages@[done@.len() as int] == a,
        done@ == pages@.take(done@.len() as int),
    ensures
        mapping_ok(final(mem)@, final(alloc), manager.pml4, next@, done@.push(a), &a1@, pages@),
{
    let ghost m0 = mem@;
    let ghost al0 = *alloc;
    let ghost root = manager.pml4;
    let ghost c = done@.len() as int;
    proof {
        lemma_tree_walk(m0, root, tab@, done@, a);
        lemma_regions_grow(m0, root, tab@, done@, a);
        lemma_regions_prefix(pages@, c + 1);
        assert(pages@.take(c + 1) =~= done@.push(a));
    }
    manager.map_memory(mem, alloc, a, a);
    let ghost m = missing(m0, root, a);
    proof {
        lemma_tree_step(m0, mem@, root, tab@, done@, a);
        lemma_took_counts(&al0, alloc, m);
        lemma_took_add(&a1@, &al0, alloc, regions(done@).len() as int, m);
    }
    Ghost(extend(tab@, mem@, root, a))
}

/// Sets up the kernel's paging: takes a frame for the root table and clears
/// it, then maps each page of memory (as many as the memory map counts) and
/// each page the frame buffer spans to itself, present and writable at every
/// level. Returns the root table's
/// address, which the caller loads before it turns paging on.
pub fn init(mem: &mut TableMemory, alloc: &mut pfa::PageFrameAllocator, boot_info: &BootInfo) -> (pml4: u64)
    requires
        usize::BITS == 64,
        pages_sum(
            boot_info.memory_map_info.descriptors@,
            boot_info.memory_map_info.descriptors@.len() as int,
        ) * PAGE_SIZE <= usize::MAX,
        boot_info.graphics.frame_buffer_base_address + boot_info.graphics.frame_buffer_size <= u64::MAX,
        tables_taken(old(mem)@, old(alloc)),
        can_give(
            old(alloc),
            1 + regions(
                identity_pages(
                    pages_sum(
                        boot_info.memory_map_info.descriptors@,
                        boot_info.memory_map_info.descriptors@.len() as int,
                    ) as int,
                    boot_info.graphics.frame_buffer_base_address,
                    boot_info.graphics.frame_buffer_size as int,
                ),
            ).len() as int,
        ),
    ensures
        ({
            let pages = identity_pages(
                pages_sum(
                    boot_info.memory_map_info.descriptors@,
                    boot_info.memory_map_info.descriptors@.len() as int,
                ) as int,
                boot_info.graphics.frame_buffer_base_address,
                boot_info.graphics.frame_buffer_size as int,
            );
            &&& pml4 % 4096 == 0
            &&& !old(mem)@.contains_key(pml4)
            &&& final(mem)@.contains_key(pml4)
            &&& took(old(alloc), final(alloc), 1 + regions(pages).len() as int)
            &&& tables_taken(final(mem)@, final(alloc))
            &&& forall|j: int|
                0 <= j < pages.len() ==> exists|j2: int|
                    0 <= j2 < pages.len() && same_page(pages[j2], pages[j]) && #[trigger] translate(
                        final(mem)@,
                        pml4,
                        pages[j],
                    ) == Some(pages[j2] & FRAME_MASK)
            &&& forall|j: int, k: int|
                0 <= j < pages.len() && 0 <= k <= 3 ==> writable(#[trigger] walk_entry(final(mem)@, pml4, pages[j], k))
            &&& (forall|j: int| 0 <= j < pages.len() ==> #[trigger] pages[j] < 0x1_0000_0000_0000u64) ==> forall|
                j: int,
            |
                0 <= j < pages.len() ==> #[trigger] translate(final(mem)@, pml4, pages[j]) == Some(
                    pages[j] & FRAME_MASK,
                )
        }),
{
    let ghost a0 = *alloc;
    let ghost total = pages_sum(
        boot_info.memory_map_info.descriptors@,
        boot_info.memory_map_info.descriptors@.len() as int,
    ) as int;
    let ghost pages = identity_pages(
        total,
        boot_info.graphics.frame_buffer_base_address,
        boot_info.graphics.frame_buffer_size as int,
    );
    let ghost size = alloc.page_bitmap.size as int;
    let ghost v = alloc.page_bitmap@;
    proof {
        lemma_regions(pages);
        lemma_first_clear_exists(v, 0, size);
        alloc.lemma_room(0, size);
        assert forall|k: int|
            #![trigger v[k]]
            0 <= k < size && !v[k] && (forall|j: int| 0 <= j < k ==> v[j]) implies k * PAGE_SIZE
            <= usize::MAX && PAGE_SIZE <= a0.free_mem && a0.used_mem + PAGE_SIZE <= usize::MAX by {
            crate::bits::lemma_zeros_in_bound(v, 0, size);
        }
    }
    // the root table
    let page = alloc.get_free_page();
    proof {
        if page is None {
            crate::bits::lemma_zeros_in_uniform(v, 0, size, true);
        }
    }
    let root = page.unwrap();
    let ghost i = root as int / PAGE_SIZE as int;
    let ghost a1 = *alloc;
    proof {
        lemma_took_first(&a0, &a1, i);
        lemma_took_counts(&a0, &a1, 1);
        if mem@.contains_key(root) {
            assert(v[i]);
        }
    }
    mem.zero_table(root);
    proof {
        lemma_tree_start(mem@, root);
        assert forall|a: u64|
            #[trigger] mem@.contains_key(a) && (a as int / PAGE_SIZE as int) < a1.page_bitmap.size
            implies a1.page_bitmap@[a as int / PAGE_SIZE as int] by {
            if a != root {
                assert(old(mem)@.contains_key(a));
            }
        }
        assert(take_first(a1.page_bitmap@, size, 0) == a1.page_bitmap@);
        assert(regions(Seq::<u64>::empty()) =~= Set::empty());
        assert(pages.take(0) =~= Seq::<u64>::empty());
    }
    let manager = PageTableManager { pml4: root };
    let ghost mut tab: Map<(int, int), u64> = Map::empty();
    let ghost mut done: Seq<u64> = Seq::empty();
    // every page of memory, to itself
    let bytes = boot_info.memory_map_info.get_available_memory_bytes();
    let count: u64 = (bytes / PAGE_SIZE) as u64;
    let mut j: u64 = 0;
    while j < count
        invariant
            usize::BITS == 64,
            manager.pml4 == root,
            count == total,
            count * 4096 <= u64::MAX,
            j <= count,
            pages == identity_pages(
                total,
                boot_info.graphics.frame_buffer_base_address,
                boot_info.graphics.frame_buffer_size as int,
            ),
            done == pages.take(j as int),
            mapping_ok(mem@, alloc, root, tab, done, &a1, pages),
        decreases count - j,
    {
        let a = j * 4096;
        proof {
            assert(pages[j as int] == a);
        }
        let next = map_identity(&manager, mem, alloc, Ghost(tab), Ghost(done), Ghost(a1), Ghost(pages), a);
        proof {
            tab = next@;
            done = done.push(a);
            assert(done =~= pages.take(j + 1));
        }
        j = j + 1;
    }
    // every page the frame buffer spans, to itself
    let base = boot_info.graphics.frame_buffer_base_address;
    let fb_size = boot_info.graphics.frame_buffer_size as u64;
    let fb_count: u64 = fb_size / 4096 + if fb_size % 4096 != 0 {
        1
    } else {
        0
    };
    let mut k: u64 = 0;
    while k < fb_count
        invariant
            usize::BITS == 64,
            manager.pml4 == root,
            count == total,
            base == boot_info.graphics.frame_buffer_base_address,
            fb_size == boot_info.graphics.frame_buffer_size,
            base + fb_size <= u64::MAX,
            fb_count == (fb_size + 4095) / 4096,
            k <= fb_count,
            pages == identity_pages(total, base, fb_size as int),
            done == pages.take(count + k),
            mapping_ok(mem@, alloc, root, tab, done, &a1, pages),
        decreases fb_count - k,
    {
        proof {
            assert(k * 4096 < fb_size);
        }
        let a = base + k * 4096;
        proof {
            assert(pages[count + k] == a);
        }
        let next = map_identity(&manager, mem, alloc, Ghost(tab), Ghost(done), Ghost(a1), Ghost(pages), a);
        proof {
            tab = next@;
            done = done.push(a);
            assert(done =~= pages.take(count + k + 1));
        }
        k = k + 1;
    }
    proof {
        assert(done =~= pages);
        lemma_took_add(&a0, &a1, alloc, 1, regions(pages).len() as int);
        assert forall|j: int| 0 <= j < pages.len() implies exists|j2: int|
            0 <= j2 < pages.len() && same_page(pages[j2], pages[j]) && #[trigger] translate(mem@, root, pages[j])
                == Some(pages[j2] & FRAME_MASK) by {
            lemma_tree_translates(mem@, root, tab, pages, j);
        }
        assert forall|j: int, k: int| 0 <= j < pages.len() && 0 <= k <= 3 implies writable(
            #[trigger] walk_entry(mem@, root, pages[j], k),
        ) by {
            lemma_tree_translates(mem@, root, tab, pages, j);
        }
        if forall|j: int| 0 <= j < pages.len() ==> #[trigger] pages[j] < 0x1_0000_0000_0000u64 {
            assert forall|j: int| 0 <= j < pages.len() implies #[trigger] translate(mem@, root, pages[j]) == Some(
                pages[j] & FRAME_MASK,
            ) by {
                lemma_tree_translates(mem@, root, tab, pages, j);
                let j2 = choose|j2: int|
                    0 <= j2 < pages.len() && same_page(pages[j2], pages[j]) && #[trigger] translate(
                        mem@,
                        root,
                        pages[j],
                    ) == Some(pages[j2] & FRAME_MASK);
                crate::page_tree::lemma_same_page_frame(pages[j2], pages[j]);
            }
        }
    }
    root
}

} // verus!
