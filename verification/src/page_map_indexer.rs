//! Paging with the full set of x86-64 entry
//! flags: the split of a virtual address into four indices, and a manager
//! that links the first two levels of tables for an address.
use vstd::prelude::*;
use crate::pfa;
use crate::table_memory::{TableMemory, present, writable, frame, entry_at};
use crate::virtual_memory::{
    with_flag, with_addr, lemma_linked, level_index, tables_taken, can_give, took, take_first,
    ensure_table, lemma_took_none, lemma_took_one, lemma_take_first_step,
};

verus! {

/// A page directory entry: a frame's page number in bits 12 to 51 and flag bits around it.
#[derive(Clone, Copy, Debug)]
pub struct PageDirectoryEntry(pub u64);

/// The flags of a directory entry.
#[derive(Clone, Copy, PartialEq, Eq, Structural, Debug)]
pub enum PageTableFlag {
    Present,
    ReadWrite,
    UserSuper,
    WriteThrough,
    CacheDisabled,
    Accessed,
    LargerPages,
    Custom0,
    Custom1,
    Custom2,
}

/// The bit a flag occupies.
pub open spec fn table_flag_bit(flag: PageTableFlag) -> u64 {
    match flag {
        PageTableFlag::Present => 0,
        PageTableFlag::ReadWrite => 1,
        PageTableFlag::UserSuper => 2,
        PageTableFlag::WriteThrough => 3,
        PageTableFlag::CacheDisabled => 4,
        PageTableFlag::Accessed => 5,
        PageTableFlag::LargerPages => 7,
        PageTableFlag::Custom0 => 9,
        PageTableFlag::Custom1 => 10,
        PageTableFlag::Custom2 => 11,
    }
}

/// The bits of an x86-64 page-table entry that the flags name: present 0,
/// read/write 1, user/supervisor 2, write-through 3, cache-disable 4,
/// accessed 5, page size 7, and the three bits free for the system, 9 to 11.
/// No two flags share a bit.
pub proof fn lemma_entry_flag_layout()
    ensures
        table_flag_bit(PageTableFlag::Present) == 0,
        table_flag_bit(PageTableFlag::ReadWrite) == 1,
        table_flag_bit(PageTableFlag::UserSuper) == 2,
        table_flag_bit(PageTableFlag::WriteThrough) == 3,
        table_flag_bit(PageTableFlag::CacheDisabled) == 4,
        table_flag_bit(PageTableFlag::Accessed) == 5,
        table_flag_bit(PageTableFlag::LargerPages) == 7,
        table_flag_bit(PageTableFlag::Custom0) == 9,
        table_flag_bit(PageTableFlag::Custom1) == 10,
        table_flag_bit(PageTableFlag::Custom2) == 11,
        forall|f: PageTableFlag, g: PageTableFlag| f != g ==> table_flag_bit(f) != table_flag_bit(g),
{
}

impl PageTableFlag {
    /// The bit this flag occupies.
    pub fn bit(&self) -> (b: u64)
        ensures
            b == table_flag_bit(*self),
            b < 12,
    {
        match self {
            PageTableFlag::Present => 0,
            PageTableFlag::ReadWrite => 1,
            PageTableFlag::UserSuper => 2,
            PageTableFlag::WriteThrough => 3,
            PageTableFlag::CacheDisabled => 4,
            PageTableFlag::Accessed => 5,
            PageTableFlag::LargerPages => 7,
            PageTableFlag::Custom0 => 9,
            PageTableFlag::Custom1 => 10,
            PageTableFlag::Custom2 => 11,
        }
    }
}

impl Default for PageDirectoryEntry {
    /// An entry with every bit clear.
    fn default() -> (e: Self)
        ensures
            e.0 == 0,
    {
        PageDirectoryEntry(0)
    }
}

impl PageDirectoryEntry {
    /// Sets `flag` to `value`, leaving every other bit.
    pub fn set_flag(&mut self, flag: PageTableFlag, value: bool)
        ensures
            final(self).0 == with_flag(old(self).0, table_flag_bit(flag), value),
    {
        let bit = flag.bit();
        self.0 = self.0 & !(1u64 << bit);
        if value {
            self.0 = self.0 | (1u64 << bit);
        }
    }

    /// Whether `flag` is set.
    pub fn get_flag(&self, flag: PageTableFlag) -> (set: bool)
        ensures
            set == (self.0 & (1u64 << table_flag_bit(flag)) != 0u64),
    {
        self.0 & (1u64 << flag.bit()) != 0
    }

    /// Names the frame with page number `address` (its low 40 bits), leaving the flag bits.
    pub fn set_address(&mut self, address: u64)
        ensures
            final(self).0 == with_addr(old(self).0, address),
    {
        let address = address & 0x0000_00ff_ffff_ffffu64;
        self.0 = self.0 & 0xfff0_0000_0000_0fffu64;
        self.0 = self.0 | (address << 12u64);
    }

    /// The page number of the frame the entry names.
    pub fn get_address(&self) -> (page: u64)
        ensures
            page == frame(self.0) >> 12u64,
    {
        (self.0 & 0x000f_ffff_ffff_f000u64) >> 12u64
    }
}

/// A table of 512 directory entries, one page frame in size.
pub struct PageTable {
    pub entries: [PageDirectoryEntry; 512],
}

/// The four 9-bit indices of a virtual address, from bit 12 up.
pub struct PageMapIndexer {
    pub page_directory_pointer_index: u64,
    pub page_directory_index: u64,
    pub page_table_index: u64,
    pub page_index: u64,
}

impl PageMapIndexer {
    /// Splits a virtual address into its four indices: the field named for
    /// the directory pointer takes bits 12 to 20, the one for the directory
    /// bits 21 to 29, the one for the table bits 30 to 38 and the one for the
    /// page bits 39 to 47.
    pub fn new(virtual_address: u64) -> (indexer: Self)
        ensures
            indexer.page_directory_pointer_index == level_index(virtual_address, 12),
            indexer.page_directory_index == level_index(virtual_address, 21),
            indexer.page_table_index == level_index(virtual_address, 30),
            indexer.page_index == level_index(virtual_address, 39),
    {
        PageMapIndexer {
            page_directory_pointer_index: (virtual_address >> 12u64) & 0x1ffu64,
            page_directory_index: (virtual_address >> 21u64) & 0x1ffu64,
            page_table_index: (virtual_address >> 30u64) & 0x1ffu64,
            page_index: (virtual_address >> 39u64) & 0x1ffu64,
        }
    }
}

/// The root entry that mapping `v` follows (chosen by bits 12 to 20 of `v`).
pub open spec fn first_link(mem: Map<u64, [u64; 512]>, root: u64, v: u64) -> u64 {
    entry_at(mem, root, level_index(v, 12))
}

/// The table the root entry for `v` names.
pub open spec fn second_table(mem: Map<u64, [u64; 512]>, root: u64, v: u64) -> u64 {
    frame(first_link(mem, root, v))
}

/// The entry of the second table that mapping `v` follows (chosen by bits 21 to 29 of `v`).
pub open spec fn second_link(mem: Map<u64, [u64; 512]>, root: u64, v: u64) -> u64 {
    entry_at(mem, second_table(mem, root, v), level_index(v, 21))
}

/// The root table is there, and each present entry the mapping of `v`
/// follows names a table that is there.
pub open spec fn links_ok(mem: Map<u64, [u64; 512]>, root: u64, v: u64) -> bool {
    &&& mem.contains_key(root)
    &&& present(first_link(mem, root, v)) ==> {
        &&& mem.contains_key(second_table(mem, root, v))
        &&& present(second_link(mem, root, v)) ==> mem.contains_key(frame(second_link(mem, root, v)))
    }
}

/// How many tables the mapping of `v` creates.
pub open spec fn links_missing(mem: Map<u64, [u64; 512]>, root: u64, v: u64) -> int {
    if !present(first_link(mem, root, v)) {
        2
    } else if !present(second_link(mem, root, v)) {
        1
    } else {
        0
    }
}

/// The one entry of an existing table that the mapping of `v` writes when
/// a table is missing: the root entry, or else the second table's entry.
pub open spec fn link_slot(mem: Map<u64, [u64; 512]>, root: u64, v: u64) -> (u64, int) {
    if !present(first_link(mem, root, v)) {
        (root, level_index(v, 12))
    } else {
        (second_table(mem, root, v), level_index(v, 21))
    }
}

/// The manager of the page tables whose root table lies at `pml4`.
pub struct PageTableManager {
    pub pml4: u64,
}

impl PageTableManager {
    /// A manager of the tables whose root lies at `pml4_address`.
    pub fn new(pml4_address: u64) -> (m: Self)
        ensures
            m.pml4 == pml4_address,
    {
        PageTableManager { pml4: pml4_address }
    }

    /// Links the first two levels of tables for `virtual_address`: follows
    /// the root entry and then the second table's entry, creating each missing
    /// table in a cleared frame from the allocator and linking it present and
    /// writable. The last two levels are
    /// not walked and `physical_address` is not used.
    #[verifier::rlimit(40)]
    pub fn map_memory(
        &self,
        mem: &mut TableMemory,
        alloc: &mut pfa::PageFrameAllocator,
        virtual_address: u64,
        physical_address: u64,
    )
        requires
            usize::BITS == 64,
            links_ok(old(mem)@, self.pml4, virtual_address),
            links_missing(old(mem)@, self.pml4, virtual_address) > 0 ==> can_give(
                old(alloc),
                links_missing(old(mem)@, self.pml4, virtual_address),
            ),
            tables_taken(old(mem)@, old(alloc)),
        ensures
            links_ok(final(mem)@, self.pml4, virtual_address),
            links_missing(final(mem)@, self.pml4, virtual_address) == 0,
            present(first_link(old(mem)@, self.pml4, virtual_address)) ==> first_link(final(mem)@, self.pml4, virtual_address)
                == first_link(old(mem)@, self.pml4, virtual_address),
            !present(first_link(old(mem)@, self.pml4, virtual_address)) ==> writable(
                first_link(final(mem)@, self.pml4, virtual_address),
            ),
            links_missing(old(mem)@, self.pml4, virtual_address) == 0 ==> second_link(final(mem)@, self.pml4, virtual_address)
                == second_link(old(mem)@, self.pml4, virtual_address),
            links_missing(old(mem)@, self.pml4, virtual_address) > 0 ==> writable(
                second_link(final(mem)@, self.pml4, virtual_address),
            ),
            present(first_link(old(mem)@, self.pml4, virtual_address)) ==> second_table(
                final(mem)@,
                self.pml4,
                virtual_address,
            ) == second_table(old(mem)@, self.pml4, virtual_address),
            links_missing(old(mem)@, self.pml4, virtual_address) == 0 ==> final(mem)@ == old(mem)@,
            links_missing(old(mem)@, self.pml4, virtual_address) == 2 ==> {
                let t = second_table(final(mem)@, self.pml4, virtual_address);
                &&& !old(mem)@.contains_key(t)
                &&& forall|j: int|
                    0 <= j < 512 && j != level_index(virtual_address, 21) ==> #[trigger] final(mem)@[t]@[j] == 0u64
            },
            links_missing(old(mem)@, self.pml4, virtual_address) > 0 ==> {
                let t = frame(second_link(final(mem)@, self.pml4, virtual_address));
                &&& !old(mem)@.contains_key(t)
                &&& forall|j: int| 0 <= j < 512 ==> #[trigger] final(mem)@[t]@[j] == 0u64
            },
            took(old(alloc), final(alloc), links_missing(old(mem)@, self.pml4, virtual_address)),
            tables_taken(final(mem)@, final(alloc)),
            forall|a: u64| old(mem)@.contains_key(a) ==> #[trigger] final(mem)@.contains_key(a),
            forall|a: u64, j: int|
                old(mem)@.contains_key(a) && 0 <= j < 512 && (a, j) != link_slot(old(mem)@, self.pml4, virtual_address)
                    ==> #[trigger] final(mem)@[a]@[j] == old(mem)@[a]@[j],
    {
        let ghost m0 = mem@;
        let ghost a0 = *alloc;
        let ghost root = self.pml4;
        let ghost v = virtual_address;
        let indexer = PageMapIndexer::new(virtual_address);
        assert(forall|x: u64| #[trigger] (x & 0x1ffu64) < 512) by (bit_vector);
        let i1 = indexer.page_directory_pointer_index as usize;
        let i2 = indexer.page_directory_index as usize;
        let t1 = ensure_table(mem, alloc, self.pml4, i1);
        let ghost m1 = mem@;
        let ghost a1 = *alloc;
        proof {
            if present(first_link(m0, root, v)) {
                lemma_took_none(&a0, &a1, links_missing(m0, root, v));
            } else {
                lemma_linked(first_link(m0, root, v), t1);
                assert(entry_at(m1, t1, i2 as int) == 0u64);
                assert((0u64 & 1u64) == 0u64) by (bit_vector);
                lemma_took_one(&a0, &a1, 1);
            }
            assert(present(first_link(m1, root, v)) && second_table(m1, root, v) == t1);
        }
        let t2 = ensure_table(mem, alloc, t1, i2);
        proof {
            let m2 = mem@;
            let a2 = *alloc;
            if present(entry_at(m1, t1, i2 as int)) {
                lemma_took_none(&a1, &a2, 0);
            } else {
                lemma_linked(entry_at(m1, t1, i2 as int), t2);
            }
            assert(first_link(m2, root, v) == first_link(m1, root, v));
            if !present(first_link(m0, root, v)) {
                assert(writable(first_link(m1, root, v)));
            }
            if !present(entry_at(m1, t1, i2 as int)) {
                assert(writable(second_link(m2, root, v)));
            }
            assert(present(second_link(m2, root, v)) && frame(second_link(m2, root, v)) == t2);
            let n = a0.page_bitmap.size as int;
            lemma_take_first_step(a0.page_bitmap@, n, 0);
            lemma_take_first_step(a0.page_bitmap@, n, 1);
            assert(take_first(a0.page_bitmap@, n, 0) == a0.page_bitmap@);
        }
    }
}

} // verus!
