//! The physical memory that page tables live in: each table is a page frame
//! of 512 raw 64-bit entries, found by the frame's physical address.
use vstd::prelude::*;
use std::collections::HashMap;

verus! {

broadcast use vstd::std_specs::hash::group_hash_axioms;

/// The bits of an entry that hold the physical address of the frame it names.
pub const FRAME_MASK: u64 = 0x000f_ffff_ffff_f000;

/// Whether an entry's present bit is set.
pub open spec fn present(raw: u64) -> bool {
    raw & 1u64 != 0u64
}

/// Whether an entry's read/write bit (bit 1) is set: what it maps may be written.
pub open spec fn writable(raw: u64) -> bool {
    raw & 2u64 != 0u64
}

/// The physical address of the frame an entry names.
pub open spec fn frame(raw: u64) -> u64 {
    raw & FRAME_MASK
}

/// The page tables in physical memory, by the address of their frame.
pub struct TableMemory {
    pub tables: HashMap<u64, [u64; 512]>,
}

impl View for TableMemory {
    type V = Map<u64, [u64; 512]>;

    open spec fn view(&self) -> Map<u64, [u64; 512]> {
        self.tables@
    }
}

/// The entry at `index` of the table at `table` in `mem`.
pub open spec fn entry_at(mem: Map<u64, [u64; 512]>, table: u64, index: int) -> u64 {
    mem[table]@[index]
}

impl TableMemory {
    /// Memory with no page tables in it.
    pub fn new() -> (mem: Self)
        ensures
            mem@ == Map::<u64, [u64; 512]>::empty(),
    {
        TableMemory { tables: HashMap::new() }
    }

    /// Whether a page table lies at `table`.
    pub fn contains(&self, table: u64) -> (found: bool)
        ensures
            found == self@.contains_key(table),
    {
        self.tables.contains_key(&table)
    }

    /// The entry at `index` of the table at `table`.
    pub fn entry(&self, table: u64, index: usize) -> (raw: u64)
        requires
            self@.contains_key(table),
            index < 512,
        ensures
            raw == entry_at(self@, table, index as int),
    {
        let t = self.tables.get(&table).unwrap();
        t[index]
    }

    /// Writes the entry at `index` of the table at `table`.
    pub fn set_entry(&mut self, table: u64, index: usize, raw: u64)
        requires
            old(self)@.contains_key(table),
            index < 512,
        ensures
            final(self)@.dom() == old(self)@.dom(),
            final(self)@[table]@ == old(self)@[table]@.update(index as int, raw),
            forall|a: u64| a != table && old(self)@.contains_key(a) ==> final(self)@[a] == old(self)@[a],
            final(self)@ == put(old(self)@, table, index as int, raw),
    {
        let ghost before = self.tables@[table];
        let mut t: [u64; 512] = *self.tables.get(&table).unwrap();
        t[index] = raw;
        assert(t =~= vstd::array::spec_array_update(before, index as int, raw));
        self.tables.insert(table, t);
    }

    /// Puts a cleared page table at `table`.
    pub fn zero_table(&mut self, table: u64)
        ensures
            final(self)@.dom() == old(self)@.dom().insert(table),
            forall|j: int| 0 <= j < 512 ==> #[trigger] final(self)@[table]@[j] == 0u64,
            forall|a: u64| a != table && old(self)@.contains_key(a) ==> final(self)@[a] == old(self)@[a],
    {
        let t: [u64; 512] = [0u64; 512];
        self.tables.insert(table, t);
    }
}

/// `mem` with the entry at `index` of the table at `table` set to `raw`.
pub open spec fn put(mem: Map<u64, [u64; 512]>, table: u64, index: int, raw: u64) -> Map<u64, [u64; 512]> {
    mem.insert(table, vstd::array::spec_array_update(mem[table], index, raw))
}

/// An entry of `put(mem, ..)` is the written one at the slot written, and
/// that of `mem` elsewhere.
pub proof fn lemma_put(mem: Map<u64, [u64; 512]>, table: u64, index: int, raw: u64, a: u64, j: int)
    requires
        mem.contains_key(table),
        0 <= index < 512,
        0 <= j < 512,
    ensures
        put(mem, table, index, raw).dom() == mem.dom(),
        entry_at(put(mem, table, index, raw), a, j) == if a == table && j == index {
            raw
        } else {
            entry_at(mem, a, j)
        },
{
    assert(put(mem, table, index, raw).dom() =~= mem.dom());
}

} // verus!
