use taiga::arch_paging::{self, PageDirectoryEntry, PageDirectoryFlag, PageTableIndexer};
use taiga::bitmap::Bitmap;
use taiga::boot::{BootInfo, GraphicsInfo, MemoryDescriptor, MemoryMapInfo, TerminalTheme};
use taiga::frame_alloc;
use taiga::page_map_indexer::{self, PageMapIndexer, PageTableFlag};
use taiga::pfa;
use taiga::psf::FontInfo;
use taiga::table_memory::TableMemory;
use taiga::virtual_memory::{self, Flags, PageDiractoryEntry};

/// Bits 39, 30, 21 and 12 set: index 1 at each of the four levels.
const VIRT: u64 = 0x80_4020_1000;
const PHYS: u64 = 0x1234_5678_9abc;

fn driver_allocator() -> pfa::PageFrameAllocator {
    let mut a = pfa::PageFrameAllocator::const_default();
    a.total_mem = 16 * 4096;
    a.free_mem = 16 * 4096;
    a.page_bitmap = Bitmap::new(16, 0);
    assert!(a.lock_page(0));
    assert!(a.lock_page(0x1000));
    a
}

#[test]
fn directory_entry_flags_and_address() {
    let mut e = PageDiractoryEntry(0);
    e.set_flag(Flags::ReadWrite, true);
    assert!(e.get_flag(Flags::ReadWrite));
    assert!(!e.get_flag(Flags::Present));
    e.set_addr(0x12345);
    assert_eq!(e.0, 0x1234_5002);
    assert_eq!(e.get_addr(), 0x12345);
    e.set_flag(Flags::ReadWrite, false);
    assert_eq!(e.0, 0x1234_5000);
    // only the low 40 bits of the page number are kept
    e.set_addr(0x1_0000_0000_0001);
    assert_eq!(e.get_addr(), 1);
}

#[test]
fn indexer_splits_levels() {
    let i = virtual_memory::PageMapIndexer::new(VIRT);
    assert_eq!((i.pdp_i, i.pd_i, i.pt_i, i.p_i), (1, 1, 1, 1));
    let j = virtual_memory::PageMapIndexer::new(0xffff_ffff_ffff_ffff);
    assert_eq!((j.pdp_i, j.pd_i, j.pt_i, j.p_i), (511, 511, 511, 511));
    let k = virtual_memory::PageMapIndexer::new(0x3000);
    assert_eq!((k.pdp_i, k.pd_i, k.pt_i, k.p_i), (0, 0, 0, 3));
}

#[test]
fn driver_map_memory_creates_tables_and_maps() {
    let mut mem = TableMemory::new();
    mem.zero_table(0x1000);
    let mut alloc = driver_allocator();
    let manager = virtual_memory::PageTableManager { pml4: 0x1000 };
    manager.map_memory(&mut mem, &mut alloc, PHYS, VIRT);
    assert_eq!(mem.entry(0x1000, 1), 0x2003);
    assert_eq!(mem.entry(0x2000, 1), 0x3003);
    assert_eq!(mem.entry(0x3000, 1), 0x4003);
    assert_eq!(mem.entry(0x4000, 1), 0x1234_5678_9003);
    assert_eq!(mem.entry(0x4000, 0), 0);
    assert_eq!(alloc.used_mem, 5 * 4096);
    // a second page in the same last-level table needs no new table
    manager.map_memory(&mut mem, &mut alloc, 0x7000, VIRT + 0x1000);
    assert_eq!(mem.entry(0x4000, 2), 0x7003);
    assert_eq!(alloc.used_mem, 5 * 4096);
}

fn plain_theme() -> TerminalTheme {
    TerminalTheme {
        dark_mode: false,
        white: 0,
        black: 0,
        red: 0,
        green: 0,
        blue: 0,
        yellow: 0,
        orange: 0,
        purple: 0,
        gray: 0,
        dark_gray: 0,
        light_red: 0,
        light_green: 0,
        light_blue: 0,
        light_yellow: 0,
        light_orange: 0,
        light_purple: 0,
    }
}

fn kernel_allocator() -> frame_alloc::PageFrameAllocator {
    let theme = plain_theme();
    let d = |memory_type: u32, physical_start: u64, number_of_pages: u64| MemoryDescriptor {
        memory_type,
        physical_start,
        virtual_start: 0,
        number_of_pages,
        attribute: 0,
    };
    let info = BootInfo {
        graphics: GraphicsInfo {
            frame_buffer_base_address: 0,
            frame_buffer_size: 0,
            horizontal_resolution: 0,
            vertical_resolution: 0,
            pixels_per_scan_line: 0,
            theme,
        },
        memory_map_info: MemoryMapInfo { descriptors: vec![d(7, 0, 8), d(0, 0x8000, 4), d(7, 0xc000, 4)] },
        font: FontInfo { char_size: 16, glyph_buffer_base_address: 0x3000 },
    };
    // pages 0, 4, 5, 6 and 7 are free
    frame_alloc::PageFrameAllocator::new(&info, 0x1000, 0x2fff)
}

#[test]
fn arch_entry_and_indexer() {
    let mut e = PageDirectoryEntry::new();
    e.set_flag(PageDirectoryFlag::Present, true);
    e.set_addr(0xabc);
    assert!(e.get_flag(PageDirectoryFlag::Present));
    assert_eq!(e.get_addr(), 0xabc000);
    let i = PageTableIndexer::new(VIRT);
    assert_eq!((i.page_dir, i.page_table, i.page, i.offset), (1, 1, 1, 1));
}

#[test]
fn arch_map_page_links_fresh_frames() {
    let mut manager = arch_paging::PageTableManager::new();
    // the frames the allocator hands out (0, 4 and 5) hold cleared tables
    let mut mem = TableMemory::new();
    mem.zero_table(0x0);
    mem.zero_table(0x4000);
    mem.zero_table(0x5000);
    let mut alloc = kernel_allocator();
    manager.map_page(&mut mem, &mut alloc, PHYS, VIRT);
    assert_eq!(manager.pml4.index(1).0, 0x0003);
    assert_eq!(mem.entry(0x0, 1), 0x4003);
    assert_eq!(mem.entry(0x4000, 1), 0x5003);
    assert_eq!(mem.entry(0x5000, 1), 0x1234_5678_9003);
    assert_eq!(mem.entry(0x5000, 0), 0);
    assert_eq!(manager.pml4.index(0).0, 0);
    assert_eq!(alloc.used_pages, 6);
    // the same walk again takes no frame
    manager.map_page(&mut mem, &mut alloc, 0x9000, VIRT);
    assert_eq!(mem.entry(0x5000, 1), 0x9003);
    assert_eq!(alloc.used_pages, 6);
}

#[test]
fn arch_map_page_reads_on_in_an_uncleared_frame() {
    let mut manager = arch_paging::PageTableManager::new();
    let mut mem = TableMemory::new();
    mem.zero_table(0x0);
    // frame 4 still holds a present entry from earlier use
    mem.zero_table(0x4000);
    mem.set_entry(0x4000, 1, 0x7003);
    mem.set_entry(0x4000, 2, 0xdead_0001);
    mem.zero_table(0x7000);
    let mut alloc = kernel_allocator();
    manager.map_page(&mut mem, &mut alloc, PHYS, VIRT);
    assert_eq!(manager.pml4.index(1).0, 0x0003);
    assert_eq!(mem.entry(0x0, 1), 0x4003);
    // the stale entry is followed as it stands, and no third frame is taken
    assert_eq!(mem.entry(0x4000, 1), 0x7003);
    assert_eq!(mem.entry(0x4000, 2), 0xdead_0001);
    assert_eq!(mem.entry(0x7000, 1), 0x1234_5678_9003);
    assert_eq!(alloc.used_pages, 5);
}

#[test]
fn full_flag_entry_flags() {
    let mut e: page_map_indexer::PageDirectoryEntry = Default::default();
    assert_eq!(e.0, 0);
    e.set_flag(PageTableFlag::Custom2, true);
    e.set_flag(PageTableFlag::LargerPages, true);
    assert_eq!(e.0, (1 << 11) | (1 << 7));
    assert!(e.get_flag(PageTableFlag::Custom2));
    assert!(!e.get_flag(PageTableFlag::Custom1));
    e.set_flag(PageTableFlag::LargerPages, false);
    assert_eq!(e.0, 1 << 11);
    e.set_address(0x42);
    assert_eq!(e.get_address(), 0x42);
    assert_eq!(e.0, 0x42_800);
}

#[test]
fn page_map_indexer_fields() {
    let i = PageMapIndexer::new(0x0000_0081_0060_3000);
    // the field named for the directory pointer takes bits 12 to 20
    assert_eq!(i.page_directory_pointer_index, 3);
    assert_eq!(i.page_directory_index, 3);
    assert_eq!(i.page_table_index, 4);
    assert_eq!(i.page_index, 1);
}

#[test]
fn indexer_map_memory_links_two_levels() {
    let mut mem = TableMemory::new();
    mem.zero_table(0x1000);
    let mut alloc = driver_allocator();
    let manager = page_map_indexer::PageTableManager::new(0x1000);
    manager.map_memory(&mut mem, &mut alloc, VIRT, PHYS);
    assert_eq!(mem.entry(0x1000, 1), 0x2003);
    assert_eq!(mem.entry(0x2000, 1), 0x3003);
    assert!(mem.contains(0x3000));
    assert_eq!(mem.entry(0x3000, 1), 0);
    assert!(!mem.contains(0x4000));
    assert_eq!(alloc.used_mem, 4 * 4096);
    manager.map_memory(&mut mem, &mut alloc, VIRT, PHYS);
    assert_eq!(alloc.used_mem, 4 * 4096);
}

#[test]
fn init_maps_memory_and_frame_buffer_to_themselves() {
    let info = BootInfo {
        graphics: GraphicsInfo {
            frame_buffer_base_address: 0x20_0000,
            frame_buffer_size: 0x1800,
            horizontal_resolution: 0,
            vertical_resolution: 0,
            pixels_per_scan_line: 0,
            theme: plain_theme(),
        },
        memory_map_info: MemoryMapInfo {
            descriptors: vec![MemoryDescriptor {
                memory_type: 7,
                physical_start: 0,
                virtual_start: 0,
                number_of_pages: 2,
                attribute: 0,
            }],
        },
        font: FontInfo { char_size: 16, glyph_buffer_base_address: 0 },
    };
    let mut mem = TableMemory::new();
    let mut alloc = driver_allocator();
    let root = virtual_memory::init(&mut mem, &mut alloc, &info);
    // the first free frame becomes the root, the next three the tables
    // down to the one that maps the two pages of memory
    assert_eq!(root, 0x2000);
    assert_eq!(mem.entry(0x2000, 0), 0x3003);
    assert_eq!(mem.entry(0x3000, 0), 0x4003);
    assert_eq!(mem.entry(0x4000, 0), 0x5003);
    assert_eq!(mem.entry(0x5000, 0), 0x0003);
    assert_eq!(mem.entry(0x5000, 1), 0x1003);
    assert_eq!(mem.entry(0x5000, 2), 0);
    // the frame buffer's two pages lie in the next 2 MiB region: one more table
    assert_eq!(mem.entry(0x4000, 1), 0x6003);
    assert_eq!(mem.entry(0x6000, 0), 0x20_0003);
    assert_eq!(mem.entry(0x6000, 1), 0x20_1003);
    assert_eq!(mem.entry(0x6000, 2), 0);
    assert_eq!(alloc.used_mem, 7 * 4096);
}
