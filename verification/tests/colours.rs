use taiga::colour::Colour;
use taiga::graphics::{AlphaMode, FrameBuffer, Functions, PsfFontFunctions, PutPixel};
use taiga::psf::FontInfo;

#[test]
fn colour_hex() {
    let c = Colour::from_rgb(0x12, 0x34, 0x56);
    assert_eq!(c.alpha, 0xff);
    assert_eq!(c.to_hex(), 0xff12_3456);
    let d = Colour::from_rgba(1, 2, 3, 4);
    assert_eq!(d.to_hex(), 0x0401_0203);
    assert_eq!(Colour::from_hex(0x0401_0203), d);
    // a zero alpha byte reads as opaque
    let e = Colour::from_hex(0x0012_3456);
    assert_eq!(e.alpha, 0xff);
    assert_eq!(e.to_hex(), 0xff12_3456);
    assert_eq!(Colour::const_default().to_hex(), 0);
}

#[test]
fn alpha_modes() {
    assert_eq!(FrameBuffer::alpha_mode(&Colour::from_rgba(1, 1, 1, 0)), AlphaMode::Skip);
    assert_eq!(FrameBuffer::alpha_mode(&Colour::from_rgba(1, 1, 1, 0x80)), AlphaMode::Blend);
    assert_eq!(FrameBuffer::alpha_mode(&Colour::from_rgb(1, 1, 1)), AlphaMode::Replace);
}

#[test]
fn clear_screen_paints_visible_pixels() {
    let fb = FrameBuffer::const_init(0xfd00_0000, 4, 3, 2);
    // the last visible pixel is word 4 * 1 + 2
    assert!(fb.can_fill(7));
    assert!(!fb.can_fill(6));
    assert!(FrameBuffer::const_default().can_fill(0));
    let mut video = vec![7u32; 10];
    fb.clear_screen(&mut video, &Colour::from_rgb(0, 0, 0xff));
    assert_eq!(video, vec![0xff00_00ff, 0xff00_00ff, 0xff00_00ff, 7, 0xff00_00ff, 0xff00_00ff, 0xff00_00ff, 7, 7, 7]);
}

#[test]
fn put_char_draws_glyph_rows() {
    let fb = FrameBuffer::const_init(0, 8, 8, 2);
    let font = FontInfo { char_size: 2, glyph_buffer_base_address: 0 };
    // glyphs of 2 rows; 'A' is 65, its rows sit at 130 and 131
    let mut glyphs = vec![0u8; 133];
    glyphs[130] = 0b1000_0001;
    glyphs[131] = 0b0100_0000;
    let mut video = vec![0u32; 16];
    let fg = Colour::from_rgb(0xff, 0xff, 0xff);
    let bg = Colour::from_rgb(0, 0, 0);
    fb.put_char(&mut video, &glyphs, &font, 0, 0, 'A', &fg, &bg);
    let w = 0xffff_ffffu32;
    let b = 0xff00_0000u32;
    assert_eq!(video, vec![w, b, b, b, b, b, b, w, b, w, b, b, b, b, b, b]);
    let mut video2 = vec![0u32; 16];
    fb.put_string(&mut video2, &glyphs, &font, 0, 0, "\u{0}A", &fg, &bg);
    assert_eq!(video2, video);
}

#[test]
fn put_char_on_short_scan_lines_keeps_the_lower_row() {
    // scan lines of 4 words: row 1 starts 4 words after row 0 and covers
    // row 0's last four pixels, which row 1 then overwrites
    let fb = FrameBuffer::const_init(0, 4, 4, 2);
    let font = FontInfo { char_size: 2, glyph_buffer_base_address: 0 };
    let mut glyphs = vec![0u8; 133];
    glyphs[130] = 0b1000_0001;
    glyphs[131] = 0b0100_0000;
    let mut video = vec![5u32; 14];
    let fg = Colour::from_rgb(0xff, 0xff, 0xff);
    let bg = Colour::from_rgb(0, 0, 0);
    fb.put_char(&mut video, &glyphs, &font, 1, 0, 'A', &fg, &bg);
    let w = 0xffff_ffffu32;
    let b = 0xff00_0000u32;
    // row 0 at words 1..9, row 1 at words 5..13
    assert_eq!(video, vec![5, w, b, b, b, b, w, b, b, b, b, b, b, 5]);
}
