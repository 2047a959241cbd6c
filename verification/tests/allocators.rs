use taiga::bitmap::Bitmap;
use taiga::boot::{
    BootInfo, GraphicsInfo, Info, MemoryDescriptor, MemoryMapInfo, TerminalTheme,
};
use taiga::efi_graphics_output;
use taiga::fonts;
use taiga::frame_alloc::{self, FrameAction, PageFameAllocStatus};
use taiga::memory::GetPages;
use taiga::memory_map;
use taiga::memory_paging::{self, set_mem};
use taiga::byte_data_types::Bitmap as ByteBitmap;
use taiga::pfa::{self, PageAction};
use taiga::psf::FontInfo;

fn desc(memory_type: u32, physical_start: u64, number_of_pages: u64) -> MemoryDescriptor {
    MemoryDescriptor { memory_type, physical_start, virtual_start: 0, number_of_pages, attribute: 0 }
}

fn theme() -> TerminalTheme {
    TerminalTheme {
        dark_mode: true,
        white: 0xffff_ffff,
        black: 0xff00_0000,
        red: 1,
        green: 2,
        blue: 3,
        yellow: 4,
        orange: 5,
        purple: 6,
        gray: 7,
        dark_gray: 8,
        light_red: 9,
        light_green: 10,
        light_blue: 11,
        light_yellow: 12,
        light_orange: 13,
        light_purple: 14,
    }
}

fn graphics(base: u64, size: usize) -> GraphicsInfo {
    GraphicsInfo {
        frame_buffer_base_address: base,
        frame_buffer_size: size,
        horizontal_resolution: 16,
        vertical_resolution: 8,
        pixels_per_scan_line: 16,
        theme: theme(),
    }
}

fn boot_info(descriptors: Vec<MemoryDescriptor>, fb_base: u64, fb_size: usize, font_addr: u64) -> BootInfo {
    BootInfo {
        graphics: graphics(fb_base, fb_size),
        memory_map_info: MemoryMapInfo { descriptors },
        font: FontInfo { char_size: 16, glyph_buffer_base_address: font_addr },
    }
}

#[test]
fn memory_map_pages_and_bytes() {
    let map = MemoryMapInfo { descriptors: vec![desc(7, 0, 3), desc(0, 0x3000, 5), desc(2, 0x8000, 1)] };
    assert_eq!(map.get_pages(), 9);
    assert_eq!(map.get_available_memory_bytes(), 9 * 4096);
    let empty = MemoryMapInfo { descriptors: vec![] };
    assert_eq!(empty.get_pages(), 0);
}

#[test]
fn memory_map_info_size_leaves_out_last_two() {
    let info = memory_map::Info {
        descriptors: vec![desc(7, 0, 3), desc(0, 0x3000, 5), desc(7, 0x8000, 100), desc(7, 0x100000, 7)],
        key: 1,
        map_descriptor_version: 1,
    };
    assert_eq!(info.get_memory_size(), 8 * 4096);
}

#[test]
fn driver_allocator_init() {
    // 24 pages; the bitmap tracks indices 0 to 24 / 8 + 1 = 4
    let info = boot_info(vec![desc(7, 0, 16), desc(0, 0x10000, 8)], 0x2000, 0x1000, 0x3000);
    let mut a = pfa::PageFrameAllocator::const_default();
    a.init(&info, 0x1000, 0x1fff);
    assert_eq!(a.total_mem, 24 * 4096);
    assert_eq!(a.page_bitmap.size, 4);
    assert_eq!(a.page_bitmap.addr, 0);
    // the bitmap's page, the kernel, two frame buffer pages (the font shares the last)
    assert!(a.page_bitmap.index(0) && a.page_bitmap.index(1) && a.page_bitmap.index(2) && a.page_bitmap.index(3));
    assert!(!a.page_bitmap.index(4));
    assert_eq!(a.used_mem, 4 * 4096);
    assert_eq!(a.reserved_mem, 0);
    assert_eq!(a.free_mem, 20 * 4096);
    // only indices below the size are handed out
    assert_eq!(a.get_free_page(), None);
}

#[test]
fn driver_allocator_hands_out_each_page_once() {
    let mut a = pfa::PageFrameAllocator::const_default();
    a.total_mem = 16 * 4096;
    a.free_mem = 16 * 4096;
    a.page_bitmap = Bitmap::new(16, 0);
    assert!(a.lock_page(0x1000));
    assert!(!a.lock_page(0x1000));
    assert_eq!(a.get_free_page(), Some(0));
    assert_eq!(a.get_free_page(), Some(2 * 4096));
    assert!(a.reserve_page(3 * 4096));
    assert_eq!(a.get_free_page(), Some(4 * 4096));
    assert_eq!(a.used_mem, 4 * 4096);
    assert_eq!(a.reserved_mem, 4096);
    assert_eq!(a.free_mem, 11 * 4096);
    // index == size is still inside the bitmap, past it is refused
    assert!(a.lock_page(16 * 4096));
    assert!(!a.lock_page(17 * 4096));
    assert!(a.iter_action(PageAction::Reserve, 5 * 4096, 2));
    assert!(a.page_bitmap.index(5) && a.page_bitmap.index(6));
    assert_eq!(a.reserved_mem, 3 * 4096);
}

#[test]
fn kernel_allocator_new() {
    let info = boot_info(vec![desc(7, 0, 8), desc(0, 0x8000, 4), desc(7, 0xc000, 4)], 0, 0, 0x3000);
    let mut a = frame_alloc::PageFrameAllocator::new(&info, 0x1000, 0x2fff);
    assert_eq!(a.pages, 16);
    assert_eq!(a.bitmap.capacity, 16);
    assert_eq!(a.used_pages, 3);
    assert_eq!(a.reserved_pages, 8);
    assert_eq!(a.free_pages, 5);
    for i in [1usize, 2, 3, 8, 9, 10, 11, 12, 13, 14, 15] {
        assert_eq!(a.bitmap.get(i), Some(true), "index {}", i);
    }
    for i in [0usize, 4, 5, 6, 7] {
        assert_eq!(a.bitmap.get(i), Some(false), "index {}", i);
    }
    assert_eq!(a.get_free_page(), Some(0));
    assert_eq!(a.get_free_page(), Some(4 * 4096));
    assert_eq!(a.used_pages, 5);
    assert_eq!(a.free_pages, 3);
}

#[test]
fn kernel_allocator_run_stops_at_first_refusal() {
    let info = boot_info(vec![desc(7, 0, 8), desc(0, 0x8000, 4), desc(7, 0xc000, 4)], 0, 0, 0x3000);
    let mut a = frame_alloc::PageFrameAllocator::new(&info, 0x1000, 0x2fff);
    // page 4 is free, page 5 is free, page 1 is allocated
    assert!(matches!(a.iter_action(FrameAction::Reserve, 4 * 4096, 2), Ok(PageFameAllocStatus::Success)));
    assert_eq!(a.reserved_pages, 10);
    assert!(matches!(a.iter_action(FrameAction::Reserve, 0x1000, 2), Err((PageFameAllocStatus::ReserveErr, 0))));
    assert!(matches!(a.iter_action(FrameAction::Unreserve, 4 * 4096, 3), Err((PageFameAllocStatus::UnREserveErr, 2))));
    assert_eq!(a.bitmap.get(4), Some(false));
    assert_eq!(a.bitmap.get(5), Some(false));
    assert!(matches!(a.iter_action(FrameAction::Alloc, 16 * 4096, 1), Err((PageFameAllocStatus::AllocErr, 0))));
}

fn byte_allocator(size: usize) -> memory_paging::PageFrameAllocator {
    let mut a = memory_paging::PageFrameAllocator::empty();
    a.total_mem = (size * 8 * 4096) as u64;
    a.free_mem = a.total_mem;
    a.page_bitmap = ByteBitmap::new(size, 0);
    a
}

#[test]
fn byte_allocator_lock_then_free_restores() {
    let mut a = byte_allocator(2);
    a.lock_page(0x2000);
    assert!(a.page_bitmap.index(2));
    assert_eq!(a.used_mem, 4096);
    assert_eq!(a.free_mem, 15 * 4096);
    a.free_page(0x2000);
    assert!(!a.page_bitmap.index(2));
    assert_eq!(a.used_mem, 0);
    assert_eq!(a.free_mem, 16 * 4096);
    a.reserve_pages(0x3000, 3);
    assert_eq!(a.resv_mem, 3 * 4096);
    a.unreserve_pages(0x3000, 3);
    assert_eq!(a.resv_mem, 0);
    assert_eq!(a.free_mem, 16 * 4096);
    assert_eq!(a.page_bitmap.bytes, vec![0, 0, 0]);
}

#[test]
fn byte_allocator_taking_a_taken_frame_changes_nothing() {
    let mut a = byte_allocator(2);
    a.lock_page(0x5000);
    a.reserve_page(0x5000);
    a.lock_page(0x5000);
    assert!(a.page_bitmap.index(5));
    assert_eq!(a.used_mem, 4096);
    assert_eq!(a.resv_mem, 0);
    assert_eq!(a.free_mem, 15 * 4096);
}

#[test]
fn byte_allocator_get_free_page_counts() {
    let mut a = byte_allocator(2);
    a.lock_pages(0, 2);
    assert_eq!(a.get_free_page(), Some(2 * 4096));
    assert_eq!(a.i, 1);
    assert_eq!(a.get_free_page(), Some(3 * 4096));
    assert_eq!(a.i, 2);
    assert_eq!(a.used_mem, 4 * 4096);
}

#[test]
fn byte_allocator_initialise() {
    let info = Info {
        graphics: efi_graphics_output::Info {
            frame_buffer_base_address: 0,
            frame_buffer_size: 0,
            horizontal_resolution: 0,
            vertical_resolution: 0,
            pixels_per_scan_line: 0,
        },
        font: fonts::Info { glyph_size: 16, glyph_buffer_base_address: 0x300000 },
        mem_map_info: memory_map::Info {
            descriptors: vec![desc(7, 0, 1024), desc(8, 0x400000, 16), desc(7, 0x1000000, 10), desc(7, 0x2000000, 10)],
            key: 0,
            map_descriptor_version: 1,
        },
        kernel_entry_address: 0x100000,
        kernel_file_size: 0x2000,
    };
    let mut a = memory_paging::PageFrameAllocator::empty();
    a.initialise(&info);
    assert!(a.initialised);
    assert_eq!(a.total_mem, 1040 * 4096);
    assert_eq!(a.page_bitmap.size, 131);
    assert_eq!(a.page_bitmap.address, 0);
    assert_eq!(a.used_mem, 801 * 4096);
    assert_eq!(a.resv_mem, 16 * 4096);
    assert_eq!(a.free_mem, (1040 - 817) * 4096);
    assert!(a.page_bitmap.index(0) && a.page_bitmap.index(16) && a.page_bitmap.index(815));
    assert!(!a.page_bitmap.index(1) && !a.page_bitmap.index(816));
    assert!(a.page_bitmap.index(1024) && a.page_bitmap.index(1039));
    let before = a.used_mem;
    a.initialise(&info);
    assert_eq!(a.used_mem, before);
    assert_eq!(a.get_free_page(), Some(4096));
}

#[test]
fn set_mem_fills_the_range() {
    let mut memory = vec![1u8; 8];
    set_mem(&mut memory, 2, 0, 3);
    assert_eq!(memory, vec![1, 1, 0, 0, 0, 1, 1, 1]);
    set_mem(&mut memory, 8, 9, 0);
    assert_eq!(memory, vec![1, 1, 0, 0, 0, 1, 1, 1]);
}

#[test]
fn memory_map_fits_physical_limit() {
    let top: u64 = 1 << 52;
    assert!(MemoryMapInfo { descriptors: vec![desc(7, 0, 3)] }.fits_physical());
    assert!(MemoryMapInfo { descriptors: vec![desc(7, top - 4096, 1)] }.fits_physical());
    assert!(!MemoryMapInfo { descriptors: vec![desc(7, top - 4096, 2)] }.fits_physical());
    assert!(MemoryMapInfo { descriptors: vec![desc(7, top, 0)] }.fits_physical());
    assert!(!MemoryMapInfo { descriptors: vec![desc(7, top + 1, 0), desc(7, 0, 1)] }.fits_physical());
    // each of these is in range; together they reach the limit exactly, then pass it
    let half = desc(7, 0, 1 << 39);
    assert!(MemoryMapInfo { descriptors: vec![half, half] }.fits_physical());
    assert!(!MemoryMapInfo { descriptors: vec![half, half, desc(7, 0, 1)] }.fits_physical());
}

#[test]
fn byte_allocator_lock_pages_is_lock_page_in_turn() {
    let mut a = byte_allocator(2);
    a.lock_page(0x3000);
    let mut b = byte_allocator(2);
    b.lock_page(0x3000);
    a.lock_pages(0x2000, 3);
    for k in 0..3u64 {
        b.lock_page(0x2000 + k * 4096);
    }
    assert_eq!(a.page_bitmap.bytes, b.page_bitmap.bytes);
    assert_eq!((a.used_mem, a.free_mem, a.resv_mem), (b.used_mem, b.free_mem, b.resv_mem));
    assert_eq!(a.used_mem, 3 * 4096);
    // locking again changes nothing; freeing a clear frame changes nothing
    a.lock_page(0x2000);
    assert_eq!((a.used_mem, a.free_mem), (b.used_mem, b.free_mem));
    a.free_page(0x7000);
    assert_eq!(a.page_bitmap.bytes, b.page_bitmap.bytes);
    assert_eq!((a.used_mem, a.free_mem), (b.used_mem, b.free_mem));
    // reserving then unreserving a free frame restores the allocator
    a.reserve_page(0x9000);
    assert_eq!(a.resv_mem, 4096);
    a.unreserve_page(0x9000);
    assert_eq!(a.page_bitmap.bytes, b.page_bitmap.bytes);
    assert_eq!((a.used_mem, a.free_mem, a.resv_mem), (b.used_mem, b.free_mem, b.resv_mem));
}

#[test]
fn driver_allocator_refuses_a_taken_page() {
    let mut a = pfa::PageFrameAllocator::const_default();
    a.total_mem = 16 * 4096;
    a.free_mem = 16 * 4096;
    a.page_bitmap = Bitmap::new(15, 0);
    assert!(a.reserve_page(0x3000));
    assert_eq!((a.reserved_mem, a.free_mem), (4096, 15 * 4096));
    assert!(!a.reserve_page(0x3000));
    assert!(!a.lock_page(0x3000));
    assert_eq!((a.reserved_mem, a.used_mem, a.free_mem), (4096, 0, 15 * 4096));
}
