//! The interrupt descriptor table of the x86-64 kernel.
use vstd::prelude::*;

verus! {

/// Type and attributes of a present 64-bit interrupt gate.
pub const IDT_TA_INTERRUPT_GATE: u8 = 0b10001110;

/// The selector of the kernel code segment.
pub const KERNEL_CODE_SELECTOR: u16 = 0x08;

/// What the `lidt` instruction loads: the table's last byte offset and address.
pub struct IdtDescriptor {
    pub size: u16,
    pub offset: u64,
}

impl IdtDescriptor {
    /// The descriptor of a full table of 256 gates at `idt_addr`.
    pub fn new(idt_addr: u64) -> (desc: Self)
        ensures
            desc.size == 0x0fff,
            desc.offset == idt_addr,
    {
        IdtDescriptor { size: 0x0fff, offset: idt_addr }
    }
}

/// One gate of the interrupt descriptor table.
#[derive(Clone, Copy, PartialEq, Eq, Structural, Debug)]
pub struct GateDescriptor {
    pub offset_0: u16,
    pub segment_selector: u16,
    pub ist_and_reserved_0: u8,
    pub type_attr: u8,
    pub offset_1: u16,
    pub offset_2: u32,
    pub reserved_1: u32,
}

/// The three pieces `cut_offset` cuts a handler address into: bits 0 to 15,
/// bits 16 to 31, and bits 32 to 47 moved up by 16 (the high half is shifted
/// by 16 rather than 32, so bits 48 to 63 drop and bits 32 to 47 land in the
/// upper half of the third piece).
pub open spec fn offset_pieces(offset: u64) -> (u16, u16, u32) {
    (
        (offset % 0x1_0000) as u16,
        ((offset / 0x1_0000) % 0x1_0000) as u16,
        (((offset / 0x1_0000_0000) % 0x1_0000) * 0x1_0000) as u32,
    )
}

/// A gate with every field zero.
pub open spec fn empty_gate() -> GateDescriptor {
    GateDescriptor {
        offset_0: 0,
        segment_selector: 0,
        ist_and_reserved_0: 0,
        type_attr: 0,
        offset_1: 0,
        offset_2: 0,
        reserved_1: 0,
    }
}

/// An interrupt descriptor for the code at address `offset`.
pub open spec fn gate(offset: u64, segment_selector: u16, type_attr: u8) -> GateDescriptor {
    GateDescriptor {
        offset_0: offset_pieces(offset).0,
        segment_selector,
        ist_and_reserved_0: 0,
        type_attr,
        offset_1: offset_pieces(offset).1,
        offset_2: offset_pieces(offset).2,
        reserved_1: 0,
    }
}

impl GateDescriptor {
    /// A gate with every field zero.
    pub fn empty() -> (g: Self)
        ensures
            g == empty_gate(),
    {
        GateDescriptor {
            offset_0: 0,
            segment_selector: 0,
            ist_and_reserved_0: 0,
            type_attr: 0,
            offset_1: 0,
            offset_2: 0,
            reserved_1: 0,
        }
    }

    /// An interrupt descriptor for the code at address `offset`, reached through the segment `segment_selector`.
    pub fn new(offset: u64, segment_selector: u16, type_attr: u8) -> (g: Self)
        ensures
            g == gate(offset, segment_selector, type_attr),
    {
        let (offset_0, offset_1, offset_2): (u16, u16, u32) = Self::cut_offset(offset);
        GateDescriptor {
            offset_0,
            segment_selector,
            ist_and_reserved_0: 0,
            type_attr,
            offset_1,
            offset_2,
            reserved_1: 0,
        }
    }

    /// The three offset fields of a gate for the code at address `offset`.
    pub fn cut_offset(offset: u64) -> (pieces: (u16, u16, u32))
        ensures
            pieces == offset_pieces(offset),
    {
        let p0 = (offset & 0x000000000000ffffu64) as u16;
        let p1 = ((offset & 0x00000000ffff0000u64) >> 16u64) as u16;
        let p2 = ((offset & 0xffffffff00000000u64) >> 16u64) as u32;
        assert(p0 == (offset % 0x1_0000) as u16) by (bit_vector)
            requires
                p0 == (offset & 0x000000000000ffffu64) as u16,
        ;
        assert(p1 == ((offset / 0x1_0000) % 0x1_0000) as u16) by (bit_vector)
            requires
                p1 == ((offset & 0x00000000ffff0000u64) >> 16u64) as u16,
        ;
        assert(p2 == (((offset / 0x1_0000_0000) % 0x1_0000) * 0x1_0000) as u32) by (bit_vector)
            requires
                p2 == ((offset & 0xffffffff00000000u64) >> 16u64) as u32,
        ;
        (p0, p1, p2)
    }
}

/// The interrupt descriptor table the kernel loads: the double fault, general
/// protection fault, page fault and keyboard gates point at their handlers,
/// every other gate is empty.
pub fn init_idt(
    double_fault_handler: u64,
    general_protection_fault_handler: u64,
    page_fault_handler: u64,
    keyboard_interrupt_handler: u64,
) -> (idt: [GateDescriptor; 256])
    ensures
        forall|i: int|
            0 <= i < 256 ==> #[trigger] idt@[i] == if i == 0x8 {
                gate(double_fault_handler, KERNEL_CODE_SELECTOR, IDT_TA_INTERRUPT_GATE)
            } else if i == 0xd {
                gate(general_protection_fault_handler, KERNEL_CODE_SELECTOR, IDT_TA_INTERRUPT_GATE)
            } else if i == 0xe {
                gate(page_fault_handler, KERNEL_CODE_SELECTOR, IDT_TA_INTERRUPT_GATE)
            } else if i == 0x21 {
                gate(keyboard_interrupt_handler, KERNEL_CODE_SELECTOR, IDT_TA_INTERRUPT_GATE)
            } else {
                empty_gate()
            },
{
    let empty = GateDescriptor::empty();
    let mut ret: [GateDescriptor; 256] = [empty; 256];
    ret[0x8] = GateDescriptor::new(double_fault_handler, 0x08, IDT_TA_INTERRUPT_GATE);
    ret[0xd] = GateDescriptor::new(general_protection_fault_handler, 0x08, IDT_TA_INTERRUPT_GATE);
    ret[0xe] = GateDescriptor::new(page_fault_handler, 0x08, IDT_TA_INTERRUPT_GATE);
    ret[0x21] = GateDescriptor::new(keyboard_interrupt_handler, 0x08, IDT_TA_INTERRUPT_GATE);
    ret
}

} // verus!
