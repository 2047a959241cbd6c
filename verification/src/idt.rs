//! Interrupt descriptor table entries, which hold a handler's address in
//! three pieces, and the table pointer that `lidt` loads.
use vstd::prelude::*;

verus! {

/// Type and attributes of a present 64-bit interrupt gate.
pub const IDT_TA_INTERRUPT_GATE: u8 = 0b10001110;

/// One entry of the interrupt descriptor table.
#[derive(Clone, Copy, PartialEq, Eq, Structural, Debug)]
pub struct IdtDescEntry {
    pub offset_0: u16,
    pub selector: u16,
    pub ist: u8,
    pub type_attr: u8,
    pub offset_1: u16,
    pub offset_2: u32,
    pub ignore: u32,
}

/// What the `lidt` instruction loads: the table's last byte offset and address.
pub struct Idtr {
    pub limit: u16,
    pub offset: u64,
}

/// The frame the processor pushes for an interrupt (its layout is not used).
pub struct InterruptFrame {}

/// The handler address an entry's three offset fields hold.
pub open spec fn entry_offset(e: IdtDescEntry) -> int {
    e.offset_0 + e.offset_1 * 0x1_0000 + e.offset_2 * 0x1_0000_0000
}

impl IdtDescEntry {
    /// Stores a handler address in the entry's three offset fields.
    pub fn set_offset(&mut self, offset: u64)
        ensures
            entry_offset(*final(self)) == offset,
            final(self).offset_0 == (offset % 0x1_0000) as u16,
            final(self).offset_1 == ((offset / 0x1_0000) % 0x1_0000) as u16,
            final(self).offset_2 == (offset / 0x1_0000_0000) as u32,
            final(self).selector == old(self).selector,
            final(self).ist == old(self).ist,
            final(self).type_attr == old(self).type_attr,
            final(self).ignore == old(self).ignore,
    {
        let p0 = (offset & 0x000000000000ffffu64) as u16;
        let p1 = ((offset & 0x00000000ffff0000u64) >> 16u64) as u16;
        let p2 = ((offset & 0xffffffff00000000u64) >> 32u64) as u32;
        assert(p0 == (offset % 0x1_0000) as u16) by (bit_vector)
            requires
                p0 == (offset & 0x000000000000ffffu64) as u16,
        ;
        assert(p1 == ((offset / 0x1_0000) % 0x1_0000) as u16) by (bit_vector)
            requires
                p1 == ((offset & 0x00000000ffff0000u64) >> 16u64) as u16,
        ;
        assert(p2 == (offset / 0x1_0000_0000) as u32) by (bit_vector)
            requires
                p2 == ((offset & 0xffffffff00000000u64) >> 32u64) as u32,
        ;
        self.offset_0 = p0;
        self.offset_1 = p1;
        self.offset_2 = p2;
    }
}

} // verus!
