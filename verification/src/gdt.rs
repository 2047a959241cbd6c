//! A global descriptor table with a second null entry before the user
//! segments.
use vstd::prelude::*;

verus! {

/// What the `lgdt` instruction loads: the table's last byte offset and address.
pub struct GdtDiscriptor {
    pub size: u16,
    pub offset: u64,
}

/// A segment descriptor; base and limit are ignored in 64-bit mode and stay zero.
#[derive(Clone, Copy, PartialEq, Eq, Structural, Debug)]
pub struct GdtEntry {
    pub limit_0: u16,
    pub base_0: u16,
    pub base_1: u8,
    pub access_byte: u8,
    pub limit_1_flags: u8,
    pub base_2: u8,
}

/// The entry with the given access byte and flags and zero base and limit.
pub open spec fn entry(access_byte: u8, limit_1_flags: u8) -> GdtEntry {
    GdtEntry { limit_0: 0, base_0: 0, base_1: 0, access_byte, limit_1_flags, base_2: 0 }
}

/// The kernel's global descriptor table.
pub struct Gdt {
    pub null: GdtEntry,
    pub kernel_code: GdtEntry,
    pub kernel_data: GdtEntry,
    pub user_null: GdtEntry,
    pub user_code: GdtEntry,
    pub user_data: GdtEntry,
}

impl Gdt {
    /// The table with the null, kernel and user segments.
    pub fn const_default() -> (gdt: Self)
        ensures
            gdt.null == entry(0x00, 0x00),
            gdt.kernel_code == entry(0x9a, 0xa0),
            gdt.kernel_data == entry(0x92, 0xa0),
            gdt.user_null == entry(0x00, 0x00),
            gdt.user_code == entry(0x9a, 0xa0),
            gdt.user_data == entry(0x92, 0xa0),
    {
        Gdt {
            null: GdtEntry { limit_0: 0, base_0: 0, base_1: 0, access_byte: 0x00, limit_1_flags: 0x00, base_2: 0 },
            kernel_code: GdtEntry { limit_0: 0, base_0: 0, base_1: 0, access_byte: 0x9a, limit_1_flags: 0xa0, base_2: 0 },
            kernel_data: GdtEntry { limit_0: 0, base_0: 0, base_1: 0, access_byte: 0x92, limit_1_flags: 0xa0, base_2: 0 },
            user_null: GdtEntry { limit_0: 0, base_0: 0, base_1: 0, access_byte: 0x00, limit_1_flags: 0x00, base_2: 0 },
            user_code: GdtEntry { limit_0: 0, base_0: 0, base_1: 0, access_byte: 0x9a, limit_1_flags: 0xa0, base_2: 0 },
            user_data: GdtEntry { limit_0: 0, base_0: 0, base_1: 0, access_byte: 0x92, limit_1_flags: 0xa0, base_2: 0 },
        }
    }
}

} // verus!
