//! What the boot loader hands the kernel: the firmware memory map, the frame
//! buffer and the console font, held as plain values.
use vstd::prelude::*;
use crate::psf::FontInfo;
use crate::{efi_graphics_output, fonts, memory_map};

verus! {

/// The size of a page frame in bytes.
pub const PAGE_SIZE: usize = 4096;

/// Kinds of memory that the firmware memory map reports.
#[derive(Clone, Copy, PartialEq, Eq, Structural, Debug)]
pub enum MemoryType {
    ReservedMemoryType,
    LoaderCode,
    LoaderData,
    BootServicesCode,
    BootServicesData,
    RuntimeServicesCode,
    RuntimeServicesData,
    ConventionalMemory,
    UnusableMemory,
    ACPIReclaimMemory,
    ACPIMemoryNVS,
    MemoryMappedIO,
    MemoryMappedIOPortSpace,
    PalCode,
    PersistentMemory,
    UnacceptedMemoryType,
    MaxMemoryType,
}

/// The firmware code of a memory kind: its position in the firmware's list.
pub open spec fn memory_type_code(t: MemoryType) -> u32 {
    match t {
        MemoryType::ReservedMemoryType => 0,
        MemoryType::LoaderCode => 1,
        MemoryType::LoaderData => 2,
        MemoryType::BootServicesCode => 3,
        MemoryType::BootServicesData => 4,
        MemoryType::RuntimeServicesCode => 5,
        MemoryType::RuntimeServicesData => 6,
        MemoryType::ConventionalMemory => 7,
        MemoryType::UnusableMemory => 8,
        MemoryType::ACPIReclaimMemory => 9,
        MemoryType::ACPIMemoryNVS => 10,
        MemoryType::MemoryMappedIO => 11,
        MemoryType::MemoryMappedIOPortSpace => 12,
        MemoryType::PalCode => 13,
        MemoryType::PersistentMemory => 14,
        MemoryType::UnacceptedMemoryType => 15,
        MemoryType::MaxMemoryType => 16,
    }
}

impl MemoryType {
    /// The firmware code of this memory kind.
    pub fn code(&self) -> (c: u32)
        ensures
            c == memory_type_code(*self),
    {
        match self {
            MemoryType::ReservedMemoryType => 0,
            MemoryType::LoaderCode => 1,
            MemoryType::LoaderData => 2,
            MemoryType::BootServicesCode => 3,
            MemoryType::BootServicesData => 4,
            MemoryType::RuntimeServicesCode => 5,
            MemoryType::RuntimeServicesData => 6,
            MemoryType::ConventionalMemory => 7,
            MemoryType::UnusableMemory => 8,
            MemoryType::ACPIReclaimMemory => 9,
            MemoryType::ACPIMemoryNVS => 10,
            MemoryType::MemoryMappedIO => 11,
            MemoryType::MemoryMappedIOPortSpace => 12,
            MemoryType::PalCode => 13,
            MemoryType::PersistentMemory => 14,
            MemoryType::UnacceptedMemoryType => 15,
            MemoryType::MaxMemoryType => 16,
        }
    }
}

/// The firmware code of conventional (free) memory.
pub const CONVENTIONAL_MEMORY: u32 = 7;

/// The firmware code of memory that holds the boot loader's data.
pub const LOADER_DATA: u32 = 2;

/// One entry of the firmware memory map.
#[derive(Clone, Copy, PartialEq, Eq, Structural, Debug)]
pub struct MemoryDescriptor {
    pub memory_type: u32,
    pub physical_start: u64,
    pub virtual_start: u64,
    pub number_of_pages: u64,
    pub attribute: u64,
}

/// The largest physical address the paging hardware can name, plus one.
pub const PHYSICAL_LIMIT: u64 = 0x10_0000_0000_0000;

/// The firmware memory map: the descriptors it lists, in order.
pub struct MemoryMapInfo {
    pub descriptors: Vec<MemoryDescriptor>,
}

/// The number of pages that the first `n` descriptors describe together.
pub open spec fn pages_sum(descs: Seq<MemoryDescriptor>, n: int) -> nat
    decreases n,
{
    if n <= 0 {
        0
    } else {
        pages_sum(descs, n - 1) + descs[n - 1].number_of_pages as nat
    }
}

/// Every descriptor describes a range below the physical address limit.
pub open spec fn descriptors_in_range(descs: Seq<MemoryDescriptor>) -> bool {
    forall|i: int|
        0 <= i < descs.len() ==> (#[trigger] descs[i]).physical_start + descs[i].number_of_pages
            * PAGE_SIZE <= PHYSICAL_LIMIT
}

/// `pages_sum` grows with the number of descriptors counted.
pub proof fn lemma_pages_sum_mono(descs: Seq<MemoryDescriptor>, m: int, n: int)
    requires
        0 <= m <= n,
    ensures
        pages_sum(descs, m) <= pages_sum(descs, n),
    decreases n - m,
{
    if m < n {
        lemma_pages_sum_mono(descs, m, n - 1);
    }
}

impl MemoryMapInfo {
    /// Whether every descriptor, and all of them together, stay below the
    /// physical address limit.
    pub fn fits_physical(&self) -> (ok: bool)
        ensures
            ok == (descriptors_in_range(self.descriptors@) && pages_sum(
                self.descriptors@,
                self.descriptors@.len() as int,
            ) * PAGE_SIZE <= PHYSICAL_LIMIT),
    {
        let ghost descs = self.descriptors@;
        let ghost n = descs.len() as int;
        let limit_pages: u64 = 0x100_0000_0000;
        assert(limit_pages * PAGE_SIZE == PHYSICAL_LIMIT);
        let mut total: u64 = 0;
        let mut i: usize = 0;
        while i < self.descriptors.len()
            invariant
                descs == self.descriptors@,
                n == descs.len(),
                i <= n,
                limit_pages * PAGE_SIZE == PHYSICAL_LIMIT,
                total == pages_sum(descs, i as int),
                total <= limit_pages,
                forall|j: int| 0 <= j < i ==> (#[trigger] descs[j]).physical_start + descs[j].number_of_pages
                    * PAGE_SIZE <= PHYSICAL_LIMIT,
            decreases n - i,
        {
            let d = &self.descriptors[i];
            if d.number_of_pages > limit_pages || d.physical_start > PHYSICAL_LIMIT
                || d.number_of_pages * (PAGE_SIZE as u64) > PHYSICAL_LIMIT - d.physical_start {
                proof {
                    assert(descs[i as int].physical_start + descs[i as int].number_of_pages * PAGE_SIZE
                        > PHYSICAL_LIMIT) by (nonlinear_arith)
                        requires
                            descs[i as int] == *d,
                            d.number_of_pages > limit_pages || d.physical_start > PHYSICAL_LIMIT
                                || d.number_of_pages * PAGE_SIZE > PHYSICAL_LIMIT - d.physical_start,
                            limit_pages * PAGE_SIZE == PHYSICAL_LIMIT,
                    ;
                }
                return false;
            }
            if d.number_of_pages > limit_pages - total {
                proof {
                    lemma_pages_sum_mono(descs, i as int + 1, n);
                    assert(pages_sum(descs, n) * PAGE_SIZE > PHYSICAL_LIMIT) by (nonlinear_arith)
                        requires
                            pages_sum(descs, n) >= total + d.number_of_pages,
                            total + d.number_of_pages > limit_pages,
                            limit_pages * PAGE_SIZE == PHYSICAL_LIMIT,
                    ;
                }
                return false;
            }
            total = total + d.number_of_pages;
            i = i + 1;
        }
        proof {
            assert(pages_sum(descs, n) * PAGE_SIZE <= PHYSICAL_LIMIT) by (nonlinear_arith)
                requires
                    pages_sum(descs, n) <= limit_pages,
                    limit_pages * PAGE_SIZE == PHYSICAL_LIMIT,
            ;
        }
        true
    }
}

/// The colours of the terminal the boot loader chose, as packed ARGB words,
/// and whether it is dark (light text on a dark background).
#[derive(Clone, Copy)]
pub struct TerminalTheme {
    pub dark_mode: bool,
    pub white: u32,
    pub black: u32,
    pub red: u32,
    pub green: u32,
    pub blue: u32,
    pub yellow: u32,
    pub orange: u32,
    pub purple: u32,
    pub gray: u32,
    pub dark_gray: u32,
    pub light_red: u32,
    pub light_green: u32,
    pub light_blue: u32,
    pub light_yellow: u32,
    pub light_orange: u32,
    pub light_purple: u32,
}

/// What the frame buffer the boot loader set up looks like, and the
/// terminal theme that goes with it.
#[derive(Clone, Copy)]
pub struct GraphicsInfo {
    pub frame_buffer_base_address: u64,
    pub frame_buffer_size: usize,
    pub horizontal_resolution: u32,
    pub vertical_resolution: u32,
    pub pixels_per_scan_line: u32,
    pub theme: TerminalTheme,
}

/// What the boot loader hands the kernel's entry point: the frame buffer,
/// the console font and the terminal theme.
#[derive(Clone, Copy)]
pub struct KernelInfo {
    pub graphics: GraphicsInfo,
    pub font: FontInfo,
    pub theme: TerminalTheme,
}

/// What the boot loader hands the kernel.
pub struct BootInfo {
    pub graphics: GraphicsInfo,
    pub memory_map_info: MemoryMapInfo,
    pub font: FontInfo,
}

/// A hand-over from the boot loader that also names where the kernel image
/// was loaded and how large its file is.
pub struct Info {
    pub graphics: efi_graphics_output::Info,
    pub font: fonts::Info,
    pub mem_map_info: memory_map::Info,
    pub kernel_entry_address: u64,
    pub kernel_file_size: usize,
}

} // verus!
