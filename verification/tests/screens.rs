use taiga::boot::{BootInfo, GraphicsInfo, KernelInfo, MemoryMapInfo, TerminalTheme};
use taiga::colour::Colour;
use taiga::data_types::Point;
use taiga::efi_graphics_output;
use taiga::fonts;
use taiga::graphics::FrameBuffer;
use taiga::kernel_graphics::{Functions as EfiFunctions, PutPixel as EfiPutPixel, Status as DrawStatus};
use taiga::psf::{load_font, FontInfo, RenderChar};
use taiga::temp_graphics::FrameBufferTrait;
use taiga::temp_terminal;
use taiga::terminal::Terminal;
use taiga::uefi::Status;

const WHITE: u32 = 0xffff_ffff;
const BLACK: u32 = 0xff00_0000;

fn theme(dark_mode: bool) -> TerminalTheme {
    TerminalTheme {
        dark_mode,
        white: WHITE,
        black: BLACK,
        red: 0x00ff_0000,
        green: 0xff00_ff00,
        blue: 0x0000_00ff,
        yellow: 4,
        orange: 5,
        purple: 6,
        gray: 7,
        dark_gray: 8,
        light_red: 9,
        light_green: 10,
        light_blue: 11,
        light_yellow: 12,
        light_orange: 13,
        light_purple: 14,
    }
}

fn graphics_info(h: u32, v: u32, dark_mode: bool) -> GraphicsInfo {
    GraphicsInfo {
        frame_buffer_base_address: 0x8000_0000,
        frame_buffer_size: (h * v * 4) as usize,
        horizontal_resolution: h,
        vertical_resolution: v,
        pixels_per_scan_line: h,
        theme: theme(dark_mode),
    }
}

fn boot_info(dark_mode: bool) -> BootInfo {
    BootInfo {
        graphics: graphics_info(16, 4, dark_mode),
        memory_map_info: MemoryMapInfo { descriptors: vec![] },
        font: FontInfo { char_size: 2, glyph_buffer_base_address: 0x5000 },
    }
}

#[test]
fn terminal_new_picks_theme_colours() {
    let fb = FrameBuffer::const_init(0x8000_0000, 16, 16, 4);
    let dark = Terminal::new(&boot_info(true), fb);
    assert_eq!(dark.fg_colour, Colour::from_hex(WHITE));
    assert_eq!(dark.bg_colour, Colour::from_hex(BLACK));
    // a zero alpha byte reads as opaque
    assert_eq!(dark.theme.red, Colour::from_rgba(0xff, 0, 0, 0xff));
    let light = Terminal::new(&boot_info(false), fb);
    assert_eq!(light.fg_colour, Colour::from_hex(BLACK));
    assert_eq!(light.bg_colour, Colour::from_hex(WHITE));
    assert_eq!((light.pos_x, light.pos_y), (0, 0));
    let none = Terminal::const_default();
    assert!(none.theme.dark_mode);
    assert_eq!(none.font.char_size, 0);
    assert_eq!(none.fg_colour.to_hex(), 0);
}

fn glyphs() -> Vec<u8> {
    let mut g = vec![0u8; 300];
    // 'A' (65): rows 130 and 131
    g[130] = 0b1000_0001;
    g[131] = 0b0100_0000;
    g
}

#[test]
fn terminal_put_char_draws_and_wraps() {
    let fb = FrameBuffer::const_init(0x8000_0000, 16, 16, 4);
    let mut t = Terminal::new(&boot_info(true), fb);
    let g = glyphs();
    let mut video = vec![0u32; 16 * 64];
    t.put_char(&mut video, &g, 'A');
    assert_eq!((t.pos_x, t.pos_y), (1, 0));
    assert_eq!(video[0], WHITE);
    assert_eq!(video[1], BLACK);
    assert_eq!(video[7], WHITE);
    assert_eq!(video[16 + 1], WHITE);
    assert_eq!(video[8], 0);
    t.put_char(&mut video, &g, 'A');
    assert_eq!(video[8], WHITE);
    // the second cell reaches the right edge: the cursor wraps
    assert_eq!((t.pos_x, t.pos_y), (0, 1));
    t.put_char(&mut video, &g, ' ');
    assert_eq!((t.pos_x, t.pos_y), (1, 1));
    t.put_char(&mut video, &g, '\r');
    assert_eq!((t.pos_x, t.pos_y), (0, 1));
    t.put_char(&mut video, &g, '\n');
    assert_eq!((t.pos_x, t.pos_y), (0, 2));
    t.put_char(&mut video, &g, '\t');
    assert_eq!((t.pos_x, t.pos_y), (0, 3));
}

#[test]
fn terminal_print_is_put_char_in_turn() {
    let fb = FrameBuffer::const_init(0x8000_0000, 16, 16, 4);
    let g = glyphs();
    let mut a = Terminal::new(&boot_info(true), fb);
    let mut va = vec![0u32; 16 * 64];
    a.print(&mut va, &g, "A A\nA");
    let mut b = Terminal::new(&boot_info(true), fb);
    let mut vb = vec![0u32; 16 * 64];
    for c in "A A\nA".chars() {
        b.put_char(&mut vb, &g, c);
    }
    assert_eq!(va, vb);
    assert_eq!((a.pos_x, a.pos_y), (b.pos_x, b.pos_y));
    assert_eq!((a.pos_x, a.pos_y), (0, 3));
    // printing in two pieces is printing the whole
    let mut c = Terminal::new(&boot_info(true), fb);
    let mut vc = vec![0u32; 16 * 64];
    c.print(&mut vc, &g, "A A");
    c.print(&mut vc, &g, "\nA");
    assert_eq!(vc, va);
    assert_eq!((c.pos_x, c.pos_y), (a.pos_x, a.pos_y));
}

#[test]
fn terminal_put_num_prints_decimal_digits() {
    let fb = FrameBuffer::const_init(0x8000_0000, 16, 16, 4);
    let g = glyphs();
    for (num, text) in [(0usize, "0"), (7, "7"), (10, "10"), (1234, "1234"), (usize::MAX, "18446744073709551")] {
        let mut a = Terminal::new(&boot_info(true), fb);
        let mut va = vec![0u32; 16 * 64];
        a.put_num(&mut va, &g, num);
        let mut b = Terminal::new(&boot_info(true), fb);
        let mut vb = vec![0u32; 16 * 64];
        b.print(&mut vb, &g, text);
        assert_eq!(va, vb, "{}", num);
        assert_eq!((a.pos_x, a.pos_y), (b.pos_x, b.pos_y), "{}", num);
    }
}

#[test]
fn terminal_clear_and_fill() {
    let fb = FrameBuffer::const_init(0x8000_0000, 4, 3, 2);
    let dark = Terminal::new(&boot_info(true), fb);
    let mut video = vec![1u32; 10];
    dark.clear_screen(&mut video);
    assert_eq!(video, vec![BLACK, BLACK, BLACK, 1, BLACK, BLACK, BLACK, 1, 1, 1]);
    let light = Terminal::new(&boot_info(false), fb);
    light.clear_screen(&mut video);
    assert_eq!(video[0], WHITE);
    light.fill_screen(&mut video, &Colour::from_rgb(1, 2, 3));
    assert_eq!(video[5], 0xff01_0203);
    assert_eq!(video[3], 1);
}

fn kernel_info() -> KernelInfo {
    KernelInfo {
        graphics: graphics_info(16, 8, true),
        font: FontInfo { char_size: 2, glyph_buffer_base_address: 0x5000 },
        theme: theme(true),
    }
}

#[test]
fn boot_terminal_draws_with_margins() {
    let mut t = temp_terminal::Terminal::new(&kernel_info());
    let mut g = vec![0u8; 300];
    // glyph row 0 is never shown; rows 1 and 2 (the next glyph's first) are
    g[130] = 0xff;
    g[131] = 0b1000_0000;
    g[132] = 0b0000_0001;
    let mut video = vec![0u32; 160];
    t.put_char(&mut video, &g, 'A');
    // rows 2 and 3, columns 4 to 11
    assert_eq!(video[16 * 2 + 4], WHITE);
    assert_eq!(video[16 * 2 + 5], BLACK);
    assert_eq!(video[16 * 3 + 11], WHITE);
    assert_eq!(video[16 * 3 + 10], BLACK);
    assert_eq!(video[16 * 1 + 4], 0);
    assert_eq!(video[16 * 2 + 3], 0);
    assert_eq!(video[16 * 2 + 12], 0);
    // a screen two cells wide wraps after every glyph
    assert_eq!((t.curs_pos_x, t.curs_pos_y), (0, 1));
}

#[test]
fn boot_terminal_scrolls_at_the_last_line() {
    let mut t = temp_terminal::Terminal::new(&kernel_info());
    let mut g = vec![0u8; 300];
    g[131] = 0b1000_0000;
    let mut video: Vec<u32> = (0..160u32).collect();
    t.curs_pos_y = 2;
    let before = video.clone();
    t.put_char(&mut video, &g, 'A');
    assert_eq!((t.curs_pos_x, t.curs_pos_y), (0, 2));
    // the glyph went to rows 6 and 7, then every line moved up by two
    assert_eq!(video[16 * 4 + 4], WHITE);
    assert_eq!(video[16 * 4 + 5], BLACK);
    assert_eq!(video[16 * 5 + 4], BLACK);
    assert_eq!(video[0], before[32]);
    assert_eq!(video[16 * 3 + 15], before[16 * 5 + 15]);
    // the last two lines keep what was drawn there
    assert_eq!(video[16 * 6 + 4], WHITE);
    // pixels right of the screen stay
    assert_eq!(video[16 * 8 + 16], before[16 * 8 + 16]);
}

#[test]
fn boot_terminal_put_string_stops_at_nul() {
    let mut g = vec![0u8; 300];
    g[131] = 0b1000_0000;
    let mut a = temp_terminal::Terminal::new(&kernel_info());
    let mut va = vec![0u32; 160];
    a.put_string(&mut va, &g, "A\u{0}A");
    let mut b = temp_terminal::Terminal::new(&kernel_info());
    let mut vb = vec![0u32; 160];
    b.put_char(&mut vb, &g, 'A');
    assert_eq!(va, vb);
    assert_eq!((a.curs_pos_x, a.curs_pos_y), (b.curs_pos_x, b.curs_pos_y));
    let mut c = temp_terminal::Terminal::new(&kernel_info());
    let mut vc = vec![0u32; 160];
    c.put_string(&mut vc, &g, "\n\n\r");
    assert_eq!((c.curs_pos_x, c.curs_pos_y), (0, 2));
    assert_eq!(vc, vec![0u32; 160]);
    c.clear_screen(&mut vc);
    assert_eq!(vc[0], BLACK);
    assert_eq!(vc[16 * 7 + 15], BLACK);
    assert_eq!(vc[16 * 8], 0);
}

#[test]
fn boot_frame_buffer_pixels() {
    let info = graphics_info(16, 8, true);
    let mut video = vec![0u32; 160];
    info.put_pixel(&mut video, 3, 2, 9);
    assert_eq!(video[35], 9);
    // the edge itself is still written, past it nothing
    info.put_pixel(&mut video, 16, 8, 5);
    assert_eq!(video[144], 5);
    info.put_pixel(&mut video, 17, 0, 5);
    info.put_pixel(&mut video, 0, 9, 5);
    assert_eq!(video.iter().filter(|w| **w == 5).count(), 1);
    info.clear_screen(&mut video, 7);
    assert_eq!(video[0], 7);
    assert_eq!(video[127], 7);
    assert_eq!(video[144], 5);
}

fn efi_info() -> efi_graphics_output::Info {
    efi_graphics_output::Info {
        frame_buffer_base_address: 0x8000_0000,
        frame_buffer_size: 4 * 12,
        horizontal_resolution: 3,
        vertical_resolution: 2,
        pixels_per_scan_line: 4,
    }
}

#[test]
fn efi_pixels_report_out_of_bounds() {
    let info = efi_info();
    let mut video = vec![0u32; 12];
    assert_eq!(EfiPutPixel::put_pixel(&info, &mut video, 3, 2, 8), Ok(()));
    assert_eq!(video[11], 8);
    assert_eq!(EfiPutPixel::put_pixel(&info, &mut video, 4, 0, 8), Err(DrawStatus::OutOfBounds));
    info.clear_screen(&mut video, 6);
    assert_eq!(video, vec![6, 6, 6, 0, 6, 6, 6, 0, 0, 0, 0, 8]);
    // the firmware's own writer draws only inside the screen
    info.put_pixel(&mut video, 1, Point { x: 2, y: 1 });
    assert_eq!(video[6], 1);
    info.put_pixel(&mut video, 1, Point { x: 3, y: 0 });
    assert_eq!(video[3], 0);
}

#[test]
fn font_print_char_skips_pixels_off_screen() {
    let gfx = efi_graphics_output::Info {
        frame_buffer_base_address: 0,
        frame_buffer_size: 0,
        horizontal_resolution: 10,
        vertical_resolution: 2,
        pixels_per_scan_line: 10,
    };
    let font = fonts::Info { glyph_size: 2, glyph_buffer_base_address: 0 };
    let mut g = vec![0u8; 300];
    g[130] = 0b1000_0001;
    g[131] = 0b0100_0000;
    let mut video = vec![0u32; 30];
    font.print_char(&g, &gfx, &mut video, Point { x: 4, y: 1 }, 'A', 2, 9);
    // row 0 of the glyph lands on line 1; row 1 would be on line 2, off screen
    assert_eq!(video[14], 9);
    assert_eq!(video[15], 2);
    // columns 10 and 11 are off screen
    assert_eq!(video[19], 2);
    assert_eq!(video[20], 0);
    assert_eq!(video[25], 0);
}

#[test]
fn render_char_stops_at_first_refused_pixel() {
    let info = efi_info();
    let font = FontInfo { char_size: 2, glyph_buffer_base_address: 0 };
    let mut g = vec![0u8; 300];
    g[130] = 0b1000_0000;
    let mut video = vec![0u32; 12];
    // columns 0 to 7 of line 0: column 4 is past the edge (3 is the edge itself)
    let r = font.put_char(&g, &info, &mut video, &0, &0, 'A', 1, 2);
    assert_eq!(r, Err(DrawStatus::OutOfBounds));
    assert_eq!(video, vec![1, 2, 2, 2, 0, 0, 0, 0, 0, 0, 0, 0]);
    let wide = efi_graphics_output::Info {
        frame_buffer_base_address: 0,
        frame_buffer_size: 0,
        horizontal_resolution: 8,
        vertical_resolution: 2,
        pixels_per_scan_line: 9,
    };
    let mut video2 = vec![0u32; 27];
    assert_eq!(font.put_char(&g, &wide, &mut video2, &0, &0, 'A', 1, 2), Ok(()));
    assert_eq!(video2[0], 1);
    assert_eq!(video2[9], 2);
}

#[test]
fn load_font_checks_magic() {
    let mut file = vec![0x36u8, 0x04, 0, 2];
    for i in 0..512u32 {
        file.push((i % 251) as u8);
    }
    let (info, glyphs) = load_font(&file, 0x7000).unwrap();
    assert_eq!(info.char_size, 2);
    assert_eq!(info.glyph_buffer_base_address, 0x7000);
    assert_eq!(glyphs.len(), 512);
    assert_eq!(glyphs[..], file[4..516]);
    assert_eq!(info.get_char_glyph_from_buffer(&glyphs, 'A', 1), file[4 + 131]);
    let mut bad = file.clone();
    bad[1] = 0x05;
    assert!(matches!(load_font(&bad, 0x7000), Err(Status::Aborted)));
}

#[test]
fn boot_terminal_checks_what_drawing_needs() {
    let t = temp_terminal::Terminal::new(&kernel_info());
    let g = vec![0u8; 300];
    let video = vec![0u32; 160];
    // 'A' needs glyph bytes up to 65 * 2 + 2; the screen needs 16 * 8 + 16 words
    assert!(t.can_put_char('A', 300, 160));
    assert!(!t.can_put_char('A', 132, 160));
    assert!(t.can_put_char('A', 133, 160));
    assert!(!t.can_put_char('A', 300, 144));
    assert!(t.can_put_string(&video, &g, "AB\r\n"));
    assert!(!t.can_put_string(&video, &g, "A\u{1d11e}"));
    // nothing after a NUL is drawn, so nothing after it is checked
    assert!(t.can_put_string(&video, &g, "A\u{0}\u{1d11e}"));
    assert!(t.can_clear(128));
    assert!(!t.can_clear(127));
}

#[test]
fn font_print_char_on_short_scan_lines_keeps_the_lower_row() {
    // scan lines of 4 words on a screen 6 pixels wide: glyph row 1 starts
    // on the word after row 0's fourth pixel and draws over row 0's fifth
    let gfx = efi_graphics_output::Info {
        frame_buffer_base_address: 0,
        frame_buffer_size: 0,
        horizontal_resolution: 6,
        vertical_resolution: 2,
        pixels_per_scan_line: 4,
    };
    let font = fonts::Info { glyph_size: 2, glyph_buffer_base_address: 0 };
    let mut g = vec![0u8; 300];
    g[130] = 0b1000_1000;
    g[131] = 0b0100_0000;
    let mut video = vec![0u32; 12];
    font.print_char(&g, &gfx, &mut video, Point { x: 1, y: 0 }, 'A', 2, 9);
    assert_eq!(video, vec![0, 9, 2, 2, 2, 2, 9, 2, 2, 2, 0, 0]);
}
