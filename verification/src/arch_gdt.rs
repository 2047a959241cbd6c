//! The global descriptor table of the x86-64 kernel: flat 64-bit code and
//! data segments for the kernel and for user space.
use vstd::prelude::*;

verus! {

/// A segment descriptor; base and limit are ignored in 64-bit mode and stay zero.
#[derive(Clone, Copy, PartialEq, Eq, Structural, Debug)]
pub struct SegmentDescriptor {
    pub limit_0: u16,
    pub base_0: u16,
    pub base_1: u8,
    pub access_byte: u8,
    pub limit_and_flags: u8,
    pub base_2: u8,
}

/// The descriptor with the given access byte and flags and zero base and limit.
pub open spec fn segment(access_byte: u8, limit_and_flags: u8) -> SegmentDescriptor {
    SegmentDescriptor { limit_0: 0, base_0: 0, base_1: 0, access_byte, limit_and_flags, base_2: 0 }
}

impl SegmentDescriptor {
    /// The descriptor with the given access byte and flags and zero base and limit.
    pub fn new(access_byte: u8, limit_and_flags: u8) -> (d: Self)
        ensures
            d == segment(access_byte, limit_and_flags),
    {
        SegmentDescriptor { limit_0: 0, base_0: 0, base_1: 0, access_byte, limit_and_flags, base_2: 0 }
    }

    /// The null descriptor.
    pub fn null() -> (d: Self)
        ensures
            d == segment(0, 0),
    {
        Self::new(0, 0)
    }

    /// The kernel's code segment: present, ring 0, executable, readable, 64-bit.
    pub fn kernel_code() -> (d: Self)
        ensures
            d == segment(0x9a, 0xa0),
    {
        Self::new(0x9a, 0xa0)
    }

    /// The kernel's data segment: present, ring 0, writable.
    pub fn kernel_data() -> (d: Self)
        ensures
            d == segment(0x92, 0xa0),
    {
        Self::new(0x92, 0xa0)
    }

    /// The user code segment (the same bits as the kernel's).
    pub fn user_code() -> (d: Self)
        ensures
            d == segment(0x9a, 0xa0),
    {
        Self::new(0x9a, 0xa0)
    }

    /// The user data segment (the same bits as the kernel's).
    pub fn user_data() -> (d: Self)
        ensures
            d == segment(0x92, 0xa0),
    {
        Self::new(0x92, 0xa0)
    }
}

/// The kernel's global descriptor table.
#[derive(Clone, Copy, PartialEq, Eq, Structural, Debug)]
pub struct Gdt {
    pub null: SegmentDescriptor,
    pub kernel_code: SegmentDescriptor,
    pub kernel_data: SegmentDescriptor,
    pub user_code: SegmentDescriptor,
    pub user_data: SegmentDescriptor,
}

impl Gdt {
    /// The table with the null, kernel and user segments.
    pub fn const_default() -> (gdt: Self)
        ensures
            gdt.null == segment(0, 0),
            gdt.kernel_code == segment(0x9a, 0xa0),
            gdt.kernel_data == segment(0x92, 0xa0),
            gdt.user_code == segment(0x9a, 0xa0),
            gdt.user_data == segment(0x92, 0xa0),
    {
        Gdt {
            null: SegmentDescriptor::null(),
            kernel_code: SegmentDescriptor::kernel_code(),
            kernel_data: SegmentDescriptor::kernel_data(),
            user_code: SegmentDescriptor::user_code(),
            user_data: SegmentDescriptor::user_data(),
        }
    }
}

/// The byte offset of the kernel code segment in the table, loaded into `cs`.
pub const KERNEL_CODE_INDEX: u16 = 0x08;

/// The byte offset of the kernel data segment in the table, loaded into the data segment registers.
pub const KERNEL_DATA_INDEX: u16 = 0x10;

/// What the `lgdt` instruction loads: the table's last byte offset and address.
pub struct GdtDescriptor {
    pub size: u16,
    pub offset: u64,
}

impl GdtDescriptor {
    /// The descriptor of a table at `gdt_addr` that fills one page frame.
    pub fn new(gdt_addr: u64) -> (desc: Self)
        ensures
            desc.size == 4096 - 1,
            desc.offset == gdt_addr,
    {
        GdtDescriptor { size: 4096 - 1, offset: gdt_addr }
    }
}

} // verus!
