//! The logic of the Taiga OS kernel and its UEFI boot loader, verified:
//! page frame allocators and their bitmaps, four-level page tables, the
//! descriptor tables, the interrupt controller and keyboard, frame buffer
//! drawing and text terminals, PSF fonts and the boot loader's file loading.
//! Memory the hardware reads (frame buffers, page tables, I/O ports) is held
//! as plain values: the words of a frame buffer, a map of page tables by
//! address, and lists of port operations.
use vstd::prelude::*;

pub mod arch_gdt;
pub mod arch_idt;
pub mod arch_paging;
pub mod bitmap;
pub mod bits;
pub mod boot;
pub mod byte_data_types;
pub mod colour;
pub mod data_types;
pub mod efi_graphics_output;
pub mod file;
pub mod fonts;
pub mod frame_alloc;
pub mod frame_bitmap;
pub mod gdt;
pub mod graphics;
pub mod idt;
pub mod kernel_graphics;
pub mod keyboard;
pub mod log;
pub mod memory;
pub mod memory_map;
pub mod memory_paging;
pub mod once_lock;
pub mod page_map_indexer;
pub mod page_tree;
pub mod pfa;
pub mod pic;
pub mod psf;
pub mod table_memory;
pub mod temp_graphics;
pub mod temp_terminal;
pub mod terminal;
pub mod uefi;
pub mod virtual_memory;

verus! {
} // verus!
