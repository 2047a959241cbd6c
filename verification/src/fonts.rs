//! The console font as the boot loader hands it over, and drawing one of its
//! characters through the firmware's frame buffer.
use vstd::prelude::*;
use crate::data_types::Point;
use crate::efi_graphics_output;
use crate::graphics::{glyph_cell, pixel_index};

verus! {

/// Where the glyphs of the font lie, and how many bytes (rows) each has.
#[derive(Clone, Copy, PartialEq, Eq, Structural, Debug)]
pub struct Info {
    pub glyph_size: u8,
    pub glyph_buffer_base_address: u64,
}

/// The offset from the glyph buffer of row `position` of a character's glyph.
pub open spec fn row_offset(c: char, glyph_size: u8, position: int) -> int {
    (c as u32) * glyph_size + position
}

/// Whether column `k` of row `r` of the glyph of `c` is set.
pub open spec fn font_bit(glyphs: Seq<u8>, glyph_size: u8, c: char, r: int, k: int) -> bool {
    glyphs[row_offset(c, glyph_size, r)] & (0x80u8 >> (k as u8)) != 0u8
}

/// The colour of column `k` of glyph row `r`.
pub open spec fn font_colour(glyphs: Seq<u8>, glyph_size: u8, c: char, r: int, k: int, fg: u32, bg: u32) -> u32 {
    if font_bit(glyphs, glyph_size, c, r, k) {
        fg
    } else {
        bg
    }
}

/// Whether glyph row `r` of a glyph at `(x0, y0)` has a pixel on the screen
/// on the word at offset `d` from the glyph's corner.
pub open spec fn covers(out: efi_graphics_output::Info, x0: int, y0: int, d: int, r: int) -> bool {
    let k = d - out.pixels_per_scan_line * r;
    0 <= k < 8 && out.visible(x0 + k, y0 + r)
}

/// The last glyph row below `rows` with a pixel on the screen on the word at
/// offset `d`; -1 if there is none. Rows are drawn top to bottom, so where
/// rows overlap the lowest one stays.
pub open spec fn last_visible_row(out: efi_graphics_output::Info, x0: int, y0: int, d: int, rows: int) -> int
    decreases rows,
{
    if rows <= 0 {
        -1
    } else if covers(out, x0, y0, d, rows - 1) {
        rows - 1
    } else {
        last_visible_row(out, x0, y0, d, rows - 1)
    }
}

/// The words after the glyph of `c` is drawn at `(x0, y0)`, its first
/// `rows` rows and the first `col` pixels of row `rows`: each word takes
/// the colour of the last pixel on the screen drawn on it.
pub open spec fn printed(
    video: Seq<u32>,
    out: efi_graphics_output::Info,
    x0: int,
    y0: int,
    glyphs: Seq<u8>,
    glyph_size: u8,
    c: char,
    fg: u32,
    bg: u32,
    rows: int,
    col: int,
) -> Seq<u32> {
    let p = out.pixels_per_scan_line as int;
    Seq::new(
        video.len(),
        |w: int|
            {
                let d = w - (p * y0 + x0);
                let r = last_visible_row(out, x0, y0, d, rows);
                if 0 <= d - p * rows < col && out.visible(x0 + d - p * rows, y0 + rows) {
                    font_colour(glyphs, glyph_size, c, rows, d - p * rows, fg, bg)
                } else if r >= 0 {
                    font_colour(glyphs, glyph_size, c, r, d - p * r, fg, bg)
                } else {
                    video[w]
                }
            },
    )
}

/// The row found is below `rows` and covers the word.
pub proof fn lemma_last_visible_row(out: efi_graphics_output::Info, x0: int, y0: int, d: int, rows: int)
    ensures
        ({
            let r = last_visible_row(out, x0, y0, d, rows);
            r >= 0 ==> r < rows && covers(out, x0, y0, d, r)
        }),
    decreases rows,
{
    if rows > 0 {
        lemma_last_visible_row(out, x0, y0, d, rows - 1);
    }
}

impl Info {
    /// Draws the glyph of `c` with its top left corner at `position`, eight
    /// columns by `glyph_size` rows: set bits in `foreground_colour`, clear
    /// ones in `background_colour`; pixels off the screen are skipped.
    /// `glyphs` holds the glyph buffer's bytes, `video` the frame buffer's words.
    pub fn print_char(
        &self,
        glyphs: &Vec<u8>,
        graphics_output: &efi_graphics_output::Info,
        video: &mut Vec<u32>,
        position: Point<u32>,
        c: char,
        background_colour: u32,
        foreground_colour: u32,
    )
        requires
            position.x + 8 <= u32::MAX,
            position.y + self.glyph_size <= u32::MAX,
            row_offset(c, self.glyph_size, self.glyph_size as int) < glyphs@.len(),
            forall|x: int, y: int|
                graphics_output.visible(x, y) ==> #[trigger] pixel_index(graphics_output.pixels_per_scan_line, x, y)
                    < old(video)@.len(),
        ensures
            final(video)@ == printed(
                old(video)@,
                *graphics_output,
                position.x as int,
                position.y as int,
                glyphs@,
                self.glyph_size,
                c,
                foreground_colour,
                background_colour,
                self.glyph_size as int,
                0,
            ),
            final(video)@.len() == old(video)@.len(),
            forall|w: int|
                0 <= w < final(video)@.len() ==> #[trigger] final(video)@[w] == old(video)@[w] || exists|
                    r: int,
                    k: int,
                |
                    0 <= r < self.glyph_size && 0 <= k < 8 && graphics_output.visible(position.x + k, position.y + r)
                        && w == glyph_cell(
                        graphics_output.pixels_per_scan_line,
                        position.x as int,
                        position.y as int,
                        r,
                        k,
                    ),
    {
        let ghost p = graphics_output.pixels_per_scan_line;
        let ghost gs = self.glyph_size as int;
        let ghost start = video@;
        let ghost x0 = position.x as int;
        let ghost y0 = position.y as int;
        let ghost out = *graphics_output;
        let ghost fg = foreground_colour;
        let ghost bg = background_colour;
        proof {
            assert(printed(start, out, x0, y0, glyphs@, self.glyph_size, c, fg, bg, 0, 0) =~= start);
        }
        let mut row_bits: u8 = self.get_char_glyph_from_buffer(glyphs, c, 0);
        let end_y = position.y + self.glyph_size as u32;
        let mut y: u32 = position.y;
        while y < end_y
            invariant
                p == graphics_output.pixels_per_scan_line,
                out == *graphics_output,
                gs == self.glyph_size,
                x0 == position.x,
                y0 == position.y,
                fg == foreground_colour,
                bg == background_colour,
                end_y == position.y + gs,
                position.x + 8 <= u32::MAX,
                position.y <= y <= end_y,
                row_offset(c, self.glyph_size, gs) < glyphs@.len(),
                forall|x: int, yy: int|
                    graphics_output.visible(x, yy) ==> #[trigger] pixel_index(p, x, yy) < start.len(),
                y < end_y ==> row_bits == glyphs@[row_offset(c, self.glyph_size, y - position.y)],
                video@ == printed(start, out, x0, y0, glyphs@, self.glyph_size, c, fg, bg, y - position.y, 0),
            decreases end_y - y,
        {
            let ghost row = y - position.y;
            let end_x = position.x + 8;
            let mut x: u32 = position.x;
            while x < end_x
                invariant
                    p == graphics_output.pixels_per_scan_line,
                    out == *graphics_output,
                    gs == self.glyph_size,
                    x0 == position.x,
                    y0 == position.y,
                    fg == foreground_colour,
                    bg == background_colour,
                    end_x == position.x + 8,
                    position.y <= y < end_y,
                    end_y == position.y + gs,
                    row == y - position.y,
                    position.x <= x <= end_x,
                    forall|xx: int, yy: int|
                        graphics_output.visible(xx, yy) ==> #[trigger] pixel_index(p, xx, yy) < start.len(),
                    row_bits == glyphs@[row_offset(c, self.glyph_size, row)],
                    video@ == printed(start, out, x0, y0, glyphs@, self.glyph_size, c, fg, bg, row, x - position.x),
                decreases end_x - x,
            {
                let ghost k = x - position.x;
                let ghost idx = glyph_cell(p, x0, y0, row, k);
                let ghost before = video@;
                proof {
                    assert(pixel_index(p, x as int, y as int) == idx);
                    assert(p * (y0 + row) == p * y0 + p * row) by (nonlinear_arith);
                }
                let shift: u8 = (x - position.x) as u8;
                if row_bits & (0x80u8 >> shift) != 0 {
                    graphics_output.put_pixel(video, foreground_colour, Point { x, y });
                } else {
                    graphics_output.put_pixel(video, background_colour, Point { x, y });
                }
                proof {
                    let next = printed(start, out, x0, y0, glyphs@, self.glyph_size, c, fg, bg, row, k + 1);
                    if graphics_output.visible(x as int, y as int) {
                        assert(video@ == before.update(idx, font_colour(glyphs@, self.glyph_size, c, row, k, fg, bg)));
                    } else {
                        assert(video@ == before);
                    }
                    assert(video@ =~= next);
                }
                x = x + 1;
            }
            proof {
                let a = printed(start, out, x0, y0, glyphs@, self.glyph_size, c, fg, bg, row, 8);
                let b = printed(start, out, x0, y0, glyphs@, self.glyph_size, c, fg, bg, row + 1, 0);
                assert(a =~= b);
            }
            row_bits = self.get_char_glyph_from_buffer(glyphs, c, (y - position.y + 1) as u8);
            y = y + 1;
        }
        proof {
            let fin = video@;
            assert forall|w: int| 0 <= w < fin.len() implies #[trigger] fin[w] == start[w] || exists|
                r: int,
                k: int,
            | 0 <= r < gs && 0 <= k < 8 && graphics_output.visible(x0 + k, y0 + r) && w == glyph_cell(
                p,
                x0,
                y0,
                r,
                k,
            ) by {
                if fin[w] != start[w] {
                    let d = w - (p * y0 + x0);
                    let r = last_visible_row(out, x0, y0, d, gs);
                    lemma_last_visible_row(out, x0, y0, d, gs);
                    assert(p * (y0 + r) == p * y0 + p * r) by (nonlinear_arith);
                    assert(w == glyph_cell(p, x0, y0, r, d - p * r));
                }
            }
        }
    }

    /// Row `position` of the glyph of `c`, read from the glyph buffer's bytes `glyphs`.
    fn get_char_glyph_from_buffer(&self, glyphs: &Vec<u8>, c: char, position: u8) -> (row: u8)
        requires
            row_offset(c, self.glyph_size, position as int) < glyphs@.len(),
        ensures
            row == glyphs@[row_offset(c, self.glyph_size, position as int)],
    {
        let code = (c as u32) as usize;
        let size = self.glyph_size as usize;
        let n = glyphs.len();
        assert(code * size + position <= n);
        let offset = code * size + position as usize;
        glyphs[offset]
    }
}

} // verus!
