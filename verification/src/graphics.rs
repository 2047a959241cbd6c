//! The graphics driver's frame buffer: 32-bit pixels, `pixels_per_scan_line`
//! words to a line. The frame buffer's words are held as `video`, counted
//! from the buffer's base address.
use vstd::prelude::*;
use crate::colour::{Colour, pack_argb};
use crate::psf::{FontInfo, glyph_offset};

verus! {

/// Where the frame buffer lies and how large the visible area is.
#[derive(Clone, Copy, PartialEq, Eq, Structural, Debug)]
pub struct FrameBuffer {
    pub base_address: u64,
    pub pixels_per_scan_line: u32,
    pub horizontal_resolution: u32,
    pub vertical_resolution: u32,
}

/// The word of the frame buffer that pixel `(x, y)` is.
pub open spec fn pixel_index(pixels_per_scan_line: u32, x: int, y: int) -> int {
    pixels_per_scan_line * y + x
}

/// The word of the pixel in column `k` of row `r` of a glyph drawn at `(x, y)`.
pub open spec fn glyph_cell(pixels_per_scan_line: u32, x: int, y: int, r: int, k: int) -> int {
    pixels_per_scan_line * (y + r) + (x + k)
}

/// The packed word of a colour.
pub open spec fn hex_of(c: Colour) -> u32 {
    pack_argb(c.alpha, c.red, c.green, c.blue)
}

/// Whether column `k` of row `r` of the glyph of `ch` is set.
pub open spec fn glyph_bit(glyphs: Seq<u8>, font: FontInfo, ch: char, r: int, k: int) -> bool {
    glyphs[glyph_offset(ch, font.char_size, r as u8)] & (0x80u8 >> (k as u8)) != 0u8
}

/// How a colour is drawn over what is on the screen.
#[derive(Clone, Copy, PartialEq, Eq, Structural, Debug)]
pub enum AlphaMode {
    /// Fully transparent: nothing is drawn.
    Skip,
    /// Partly transparent: blended over the pixel that is there.
    Blend,
    /// Opaque: drawn as it is.
    Replace,
}

/// How a colour of this alpha is drawn.
pub open spec fn alpha_mode_of(alpha: u8) -> AlphaMode {
    if alpha == 0 {
        AlphaMode::Skip
    } else if alpha != 0xff {
        AlphaMode::Blend
    } else {
        AlphaMode::Replace
    }
}

/// Two pixels of a glyph land on different words when a scan line has room for a glyph row.
pub proof fn lemma_glyph_cells_apart(p: u32, x: int, y: int, r1: int, k1: int, r2: int, k2: int)
    requires
        p >= 8,
        0 <= k1 < 8,
        0 <= k2 < 8,
        0 <= r1,
        0 <= r2,
        (r1, k1) != (r2, k2),
    ensures
        glyph_cell(p, x, y, r1, k1) != glyph_cell(p, x, y, r2, k2),
{
    if r1 < r2 {
        assert(p * (y + r2) - p * (y + r1) >= p) by (nonlinear_arith)
            requires
                r1 < r2,
                p >= 8,
        ;
    } else if r2 < r1 {
        assert(p * (y + r1) - p * (y + r2) >= p) by (nonlinear_arith)
            requires
                r2 < r1,
                p >= 8,
        ;
    }
}

/// The last glyph row below `rows` whose eight pixels cover the word at
/// offset `d` from the glyph's corner, with scan lines `p` words apart; -1
/// when none does. Rows are drawn top to bottom, so where rows overlap (on
/// scan lines shorter than a glyph row) the lowest one stays.
pub open spec fn last_row(p: int, d: int, rows: int) -> int {
    let r = if p == 0 {
        rows - 1
    } else if d / p < rows - 1 {
        d / p
    } else {
        rows - 1
    };
    if rows > 0 && 0 <= d && 0 <= d - p * r < 8 {
        r
    } else {
        -1
    }
}

/// The colour of column `k` of glyph row `r`.
pub open spec fn glyph_colour(glyphs: Seq<u8>, font: FontInfo, ch: char, r: int, k: int, fg: u32, bg: u32) -> u32 {
    if glyph_bit(glyphs, font, ch, r, k) {
        fg
    } else {
        bg
    }
}

/// The frame buffer words `video` after the glyph of `ch` is drawn with its
/// top left corner at `(x, y)`: each word takes the colour of the last glyph
/// pixel drawn on it (with scan lines of at least eight words, the word at
/// offset `d` is row `d / p`, column `d % p`).
pub open spec fn glyph_drawn(
    video: Seq<u32>,
    p: u32,
    x: int,
    y: int,
    glyphs: Seq<u8>,
    font: FontInfo,
    ch: char,
    fg: u32,
    bg: u32,
) -> Seq<u32> {
    Seq::new(
        video.len(),
        |w: int|
            {
                let d = w - (p * y + x);
                let r = last_row(p as int, d, font.char_size as int);
                if r >= 0 {
                    glyph_colour(glyphs, font, ch, r, d - p * r, fg, bg)
                } else {
                    video[w]
                }
            },
    )
}

/// The words while a glyph is drawn: the rows above `row`, and the first
/// `col` pixels of `row`.
pub open spec fn glyph_partial(
    video: Seq<u32>,
    p: u32,
    x: int,
    y: int,
    glyphs: Seq<u8>,
    font: FontInfo,
    ch: char,
    fg: u32,
    bg: u32,
    row: int,
    col: int,
) -> Seq<u32> {
    Seq::new(
        video.len(),
        |w: int|
            {
                let d = w - (p * y + x);
                let r = last_row(p as int, d, row);
                if 0 <= d - p * row < col {
                    glyph_colour(glyphs, font, ch, row, d - p * row, fg, bg)
                } else if r >= 0 {
                    glyph_colour(glyphs, font, ch, r, d - p * r, fg, bg)
                } else {
                    video[w]
                }
            },
    )
}

/// One more row: the last row covering `d` is the new row where it covers
/// `d`, and the last one before it otherwise.
pub proof fn lemma_last_row_step(p: int, d: int, row: int)
    requires
        p >= 0,
        row >= 0,
    ensures
        last_row(p, d, row + 1) == if 0 <= d - p * row < 8 {
            row
        } else {
            last_row(p, d, row)
        },
{
    if p > 0 && d >= 0 {
        let q = d / p;
        let m = d % p;
        vstd::arithmetic::div_mod::lemma_fundamental_div_mod(d, p);
        vstd::arithmetic::div_mod::lemma_mod_bound(d, p);
        assert(q >= 0) by {
            vstd::arithmetic::div_mod::lemma_div_pos_is_pos(d, p);
        }
        if p * row <= d {
            assert(row <= q) by (nonlinear_arith)
                requires
                    p * row <= d,
                    d == p * q + m,
                    0 <= m < p,
                    p > 0,
            ;
            if row > 0 {
                assert(d - p * (row - 1) == d - p * row + p) by (nonlinear_arith);
            }
        } else {
            assert(q < row) by (nonlinear_arith)
                requires
                    d < p * row,
                    d == p * q + m,
                    0 <= m < p,
                    p > 0,
            ;
        }
    } else if p == 0 {
        assert(p * row == 0);
        if row > 0 {
            assert(p * (row - 1) == 0);
        }
    } else {
        assert(p * row >= 0) by (nonlinear_arith)
            requires
                p >= 0,
                row >= 0,
        ;
    }
}

/// Nothing of the glyph drawn yet.
pub proof fn lemma_partial_start(
    video: Seq<u32>,
    p: u32,
    x: int,
    y: int,
    glyphs: Seq<u8>,
    font: FontInfo,
    ch: char,
    fg: u32,
    bg: u32,
)
    ensures
        glyph_partial(video, p, x, y, glyphs, font, ch, fg, bg, 0, 0) == video,
{
    assert(glyph_partial(video, p, x, y, glyphs, font, ch, fg, bg, 0, 0) =~= video);
}

/// Drawing pixel `col` of `row` takes the partial glyph one pixel further.
pub proof fn lemma_partial_pixel(
    video: Seq<u32>,
    p: u32,
    x: int,
    y: int,
    glyphs: Seq<u8>,
    font: FontInfo,
    ch: char,
    fg: u32,
    bg: u32,
    row: int,
    col: int,
)
    requires
        0 <= row,
        0 <= col < 8,
        0 <= glyph_cell(p, x, y, row, col) < video.len(),
    ensures
        glyph_partial(video, p, x, y, glyphs, font, ch, fg, bg, row, col + 1) == glyph_partial(
            video,
            p,
            x,
            y,
            glyphs,
            font,
            ch,
            fg,
            bg,
            row,
            col,
        ).update(glyph_cell(p, x, y, row, col), glyph_colour(glyphs, font, ch, row, col, fg, bg)),
{
    assert(p * (y + row) == p * y + p * row) by (nonlinear_arith);
    let a = glyph_partial(video, p, x, y, glyphs, font, ch, fg, bg, row, col + 1);
    let b = glyph_partial(video, p, x, y, glyphs, font, ch, fg, bg, row, col).update(
        glyph_cell(p, x, y, row, col),
        glyph_colour(glyphs, font, ch, row, col, fg, bg),
    );
    assert(a =~= b);
}

/// A whole row drawn is the start of the next one.
pub proof fn lemma_partial_row(
    video: Seq<u32>,
    p: u32,
    x: int,
    y: int,
    glyphs: Seq<u8>,
    font: FontInfo,
    ch: char,
    fg: u32,
    bg: u32,
    row: int,
)
    requires
        0 <= row,
    ensures
        glyph_partial(video, p, x, y, glyphs, font, ch, fg, bg, row, 8) == glyph_partial(
            video,
            p,
            x,
            y,
            glyphs,
            font,
            ch,
            fg,
            bg,
            row + 1,
            0,
        ),
{
    let a = glyph_partial(video, p, x, y, glyphs, font, ch, fg, bg, row, 8);
    let b = glyph_partial(video, p, x, y, glyphs, font, ch, fg, bg, row + 1, 0);
    assert forall|w: int| 0 <= w < a.len() implies a[w] == b[w] by {
        lemma_last_row_step(p as int, w - (p * y + x), row);
    }
    assert(a =~= b);
}

/// With scan lines of at least eight words, each pixel of the glyph is on a
/// word of its own, which shows it.
pub proof fn lemma_drawn_cell(
    video: Seq<u32>,
    p: u32,
    x: int,
    y: int,
    glyphs: Seq<u8>,
    font: FontInfo,
    ch: char,
    fg: u32,
    bg: u32,
    r: int,
    k: int,
)
    requires
        p >= 8,
        0 <= r < font.char_size,
        0 <= k < 8,
        0 <= glyph_cell(p, x, y, r, k) < video.len(),
    ensures
        glyph_drawn(video, p, x, y, glyphs, font, ch, fg, bg)[glyph_cell(p, x, y, r, k)] == glyph_colour(
            glyphs,
            font,
            ch,
            r,
            k,
            fg,
            bg,
        ),
{
    lemma_cell_offset(p, x, y, r, k);
}

/// Drawing a glyph changes only words of its pixels.
pub proof fn lemma_drawn_frame(
    video: Seq<u32>,
    p: u32,
    x: int,
    y: int,
    glyphs: Seq<u8>,
    font: FontInfo,
    ch: char,
    fg: u32,
    bg: u32,
    w: int,
)
    requires
        0 <= w < video.len(),
        glyph_drawn(video, p, x, y, glyphs, font, ch, fg, bg)[w] != video[w],
    ensures
        exists|r: int, k: int| 0 <= r < font.char_size && 0 <= k < 8 && w == glyph_cell(p, x, y, r, k),
{
    let d = w - (p * y + x);
    let r = last_row(p as int, d, font.char_size as int);
    assert(p * (y + r) == p * y + p * r) by (nonlinear_arith);
    assert(w == glyph_cell(p, x, y, r, d - p * r));
}

/// A glyph drawn over another at the same place hides it: the same words are written.
pub proof fn lemma_drawn_twice(
    video: Seq<u32>,
    p: u32,
    x: int,
    y: int,
    glyphs: Seq<u8>,
    font: FontInfo,
    c1: char,
    c2: char,
    fg: u32,
    bg: u32,
)
    ensures
        glyph_drawn(glyph_drawn(video, p, x, y, glyphs, font, c1, fg, bg), p, x, y, glyphs, font, c2, fg, bg)
            == glyph_drawn(video, p, x, y, glyphs, font, c2, fg, bg),
{
    assert(glyph_drawn(glyph_drawn(video, p, x, y, glyphs, font, c1, fg, bg), p, x, y, glyphs, font, c2, fg, bg)
        =~= glyph_drawn(video, p, x, y, glyphs, font, c2, fg, bg));
}

/// The word of glyph row `r`, column `k` lies `p * r + k` words past the glyph's corner.
pub proof fn lemma_cell_offset(p: u32, x: int, y: int, r: int, k: int)
    requires
        p >= 8,
        0 <= r,
        0 <= k < 8,
    ensures
        glyph_cell(p, x, y, r, k) - (p * y + x) == p * r + k,
        (p * r + k) / (p as int) == r,
        (p * r + k) % (p as int) == k,
{
    assert(p * (y + r) == p * y + p * r) by (nonlinear_arith);
    assert(p * r == r * p) by (nonlinear_arith);
    vstd::arithmetic::div_mod::lemma_fundamental_div_mod_converse(p * r + k, p as int, r, k);
}

/// A word at or past the glyph's corner lies in the row and column its offset divides into.
pub proof fn lemma_offset_cell(p: u32, x: int, y: int, w: int)
    requires
        p >= 8,
        w - (p * y + x) >= 0,
    ensures
        ({
            let d = w - (p * y + x);
            &&& w == glyph_cell(p, x, y, d / (p as int), d % (p as int))
            &&& d / (p as int) >= 0
            &&& 0 <= d % (p as int) < p
        }),
{
    let d = w - (p * y + x);
    vstd::arithmetic::div_mod::lemma_fundamental_div_mod(d, p as int);
    vstd::arithmetic::div_mod::lemma_div_pos_is_pos(d, p as int);
    vstd::arithmetic::div_mod::lemma_mod_bound(d, p as int);
    assert(p * (y + d / (p as int)) == p * y + p * (d / (p as int))) by (nonlinear_arith);
}

/// `fin` is `start` with every visible pixel of `fb` painted `hex`.
pub open spec fn screen_filled(start: Seq<u32>, fin: Seq<u32>, fb: FrameBuffer, hex: u32) -> bool {
    &&& fin.len() == start.len()
    &&& forall|x: int, y: int|
        0 <= x < fb.horizontal_resolution && 0 <= y < fb.vertical_resolution
            ==> #[trigger] fin[pixel_index(fb.pixels_per_scan_line, x, y)] == hex
    &&& forall|w: int|
        0 <= w < fin.len() ==> #[trigger] fin[w] == start[w] || (fin[w] == hex && exists|x: int, y: int|
            0 <= x < fb.horizontal_resolution && 0 <= y < fb.vertical_resolution && w == pixel_index(
                fb.pixels_per_scan_line,
                x,
                y,
            ))
}

impl FrameBuffer {
    /// Whether every visible pixel lies within `len` words.
    pub open spec fn fits(&self, len: int) -> bool {
        self.horizontal_resolution > 0 && self.vertical_resolution > 0 ==> pixel_index(
            self.pixels_per_scan_line,
            self.horizontal_resolution - 1,
            self.vertical_resolution - 1,
        ) < len
    }

    /// Whether every visible pixel lies within `len` words, so that the
    /// screen can be painted.
    pub fn can_fill(&self, len: usize) -> (ok: bool)
        ensures
            ok == self.fits(len as int),
    {
        let h = self.horizontal_resolution as u64;
        let v = self.vertical_resolution as u64;
        let p = self.pixels_per_scan_line as u64;
        if h == 0 || v == 0 {
            return true;
        }
        assert(p * (v - 1) <= 0xffff_ffff * 0xffff_ffff) by (nonlinear_arith)
            requires
                p <= 0xffff_ffff,
                v - 1 <= 0xffff_ffff,
        ;
        p * (v - 1) + (h - 1) < len as u64
    }

    /// A frame buffer of no size at address zero.
    pub fn const_default() -> (fb: Self)
        ensures
            fb == (FrameBuffer {
                base_address: 0,
                pixels_per_scan_line: 0,
                horizontal_resolution: 0,
                vertical_resolution: 0,
            }),
    {
        FrameBuffer { base_address: 0, pixels_per_scan_line: 0, horizontal_resolution: 0, vertical_resolution: 0 }
    }

    /// The frame buffer with the given layout.
    pub fn const_init(
        base_address: u64,
        pixels_per_scan_line: u32,
        horizontal_resolution: u32,
        vertical_resolution: u32,
    ) -> (fb: Self)
        ensures
            fb == (FrameBuffer { base_address, pixels_per_scan_line, horizontal_resolution, vertical_resolution }),
    {
        FrameBuffer { base_address, pixels_per_scan_line, horizontal_resolution, vertical_resolution }
    }

    /// How `put_pixel_with_alpha_correction` draws a colour: a transparent
    /// one is skipped, a partly transparent one is blended over the pixel
    /// that is there, an opaque one is written as it is.
    pub fn alpha_mode(colour: &Colour) -> (mode: AlphaMode)
        ensures
            mode == alpha_mode_of(colour.alpha),
    {
        if colour.alpha == 0 {
            AlphaMode::Skip
        } else if colour.alpha != 0xff {
            AlphaMode::Blend
        } else {
            AlphaMode::Replace
        }
    }
}

/// Writing single pixels.
pub trait PutPixel {
    /// The word of the frame buffer that the pixel at `(x, y)` is.
    spec fn word(&self, x: int, y: int) -> int;

    /// Writes `colour` to the pixel at `(pos_x, pos_y)`.
    fn put_pixel(&self, video: &mut Vec<u32>, pos_x: u32, pos_y: u32, colour: &Colour)
        requires
            0 <= self.word(pos_x as int, pos_y as int) < old(video)@.len(),
        ensures
            final(video)@ == old(video)@.update(self.word(pos_x as int, pos_y as int), hex_of(*colour)),
    ;
}

/// Painting the whole screen.
pub trait Functions {
    /// Whether every visible pixel lies within `len` words.
    spec fn fits_in(&self, len: int) -> bool;

    /// Paints every visible pixel with `colour`.
    fn clear_screen(&self, video: &mut Vec<u32>, colour: &Colour)
        requires
            self.fits_in(old(video)@.len() as int),
    ;
}

/// Drawing text in a PSF font.
pub trait PsfFontFunctions {
    /// Whether the glyph of `ch` can be drawn at `(pos_x, pos_y)`, with
    /// `glyphs_len` glyph bytes and `video_len` words.
    spec fn can_draw(&self, font: FontInfo, pos_x: u32, pos_y: u32, ch: char, glyphs_len: int, video_len: int) -> bool;

    /// Draws the glyph of `ch` with its top left corner at `(pos_x, pos_y)`.
    fn put_char(
        &self,
        video: &mut Vec<u32>,
        glyphs: &Vec<u8>,
        font: &FontInfo,
        pos_x: u32,
        pos_y: u32,
        ch: char,
        fg_colour: &Colour,
        bg_colour: &Colour,
    )
        requires
            self.can_draw(*font, pos_x, pos_y, ch, glyphs@.len() as int, old(video)@.len() as int),
    ;

    /// Draws each character of `string` at `(pos_x, pos_y)`.
    fn put_string(
        &self,
        video: &mut Vec<u32>,
        glyphs: &Vec<u8>,
        font: &FontInfo,
        pos_x: u32,
        pos_y: u32,
        string: &str,
        fg_colour: &Colour,
        bg_colour: &Colour,
    )
        requires
            forall|i: int|
                0 <= i < string@.len() ==> self.can_draw(
                    *font,
                    pos_x,
                    pos_y,
                    #[trigger] string@[i],
                    glyphs@.len() as int,
                    old(video)@.len() as int,
                ),
    ;
}

impl PutPixel for FrameBuffer {
    open spec fn word(&self, x: int, y: int) -> int {
        pixel_index(self.pixels_per_scan_line, x, y)
    }

    /// Writes pixel `(pos_x, pos_y)` (no bounds check against the resolution).
    fn put_pixel(&self, video: &mut Vec<u32>, pos_x: u32, pos_y: u32, colour: &Colour)
        ensures
            final(video)@ == old(video)@.update(
                pixel_index(self.pixels_per_scan_line, pos_x as int, pos_y as int),
                hex_of(*colour),
            ),
    {
        let n = video.len();
        let row = self.pixels_per_scan_line as usize * pos_y as usize;
        let index = row + pos_x as usize;
        assert(index < n);
        video.set(index, colour.to_hex());
    }
}

impl Functions for FrameBuffer {
    open spec fn fits_in(&self, len: int) -> bool {
        self.fits(len)
    }

    /// Paints every visible pixel with `colour`, line by line.
    fn clear_screen(&self, video: &mut Vec<u32>, colour: &Colour)
        ensures
            screen_filled(old(video)@, final(video)@, *self, hex_of(*colour)),
    {
        let ghost hex = hex_of(*colour);
        let ghost p = self.pixels_per_scan_line;
        let ghost h = self.horizontal_resolution as int;
        let ghost v = self.vertical_resolution as int;
        let ghost start = video@;
        let mut y: u32 = 0;
        while y < self.vertical_resolution
            invariant
                p == self.pixels_per_scan_line,
                h == self.horizontal_resolution,
                v == self.vertical_resolution,
                hex == hex_of(*colour),
                y <= v,
                video@.len() == start.len(),
                h > 0 && v > 0 ==> pixel_index(p, h - 1, v - 1) < start.len(),
                forall|xx: int, yy: int|
                    0 <= xx < h && 0 <= yy < y ==> #[trigger] video@[pixel_index(p, xx, yy)] == hex,
                forall|w: int|
                    0 <= w < video@.len() ==> #[trigger] video@[w] == start[w] || (video@[w] == hex
                        && exists|xx: int, yy: int|
                        0 <= xx < h && 0 <= yy < v && w == pixel_index(p, xx, yy)),
            decreases v - y,
        {
            let mut x: u32 = 0;
            while x < self.horizontal_resolution
                invariant
                    p == self.pixels_per_scan_line,
                    h == self.horizontal_resolution,
                    v == self.vertical_resolution,
                    hex == hex_of(*colour),
                    y < v,
                    x <= h,
                    video@.len() == start.len(),
                    h > 0 && v > 0 ==> pixel_index(p, h - 1, v - 1) < start.len(),
                    forall|xx: int, yy: int|
                        0 <= xx < h && 0 <= yy < y ==> #[trigger] video@[pixel_index(p, xx, yy)] == hex,
                    forall|xx: int| 0 <= xx < x ==> #[trigger] video@[pixel_index(p, xx, y as int)] == hex,
                    forall|w: int|
                        0 <= w < video@.len() ==> #[trigger] video@[w] == start[w] || (video@[w]
                            == hex && exists|xx: int, yy: int|
                            0 <= xx < h && 0 <= yy < v && w == pixel_index(p, xx, yy)),
                decreases h - x,
            {
                proof {
                    assert(p * y <= p * (v - 1)) by (nonlinear_arith)
                        requires
                            y <= v - 1,
                    ;
                }
                let ghost before = video@;
                self.put_pixel(video, x, y, colour);
                proof {
                    assert forall|xx: int, yy: int|
                        0 <= xx < h && 0 <= yy < y implies #[trigger] video@[pixel_index(p, xx, yy)] == hex by {
                        assert(p * yy <= p * (v - 1)) by (nonlinear_arith)
                            requires
                                yy <= v - 1,
                        ;
                        if pixel_index(p, xx, yy) != pixel_index(p, x as int, y as int) {
                            assert(before[pixel_index(p, xx, yy)] == hex);
                        }
                    }
                    assert forall|xx: int| 0 <= xx < x + 1 implies #[trigger] video@[pixel_index(p, xx, y as int)] == hex by {
                        if pixel_index(p, xx, y as int) != pixel_index(p, x as int, y as int) {
                            assert(before[pixel_index(p, xx, y as int)] == hex);
                        }
                    }
                    let idx = pixel_index(p, x as int, y as int);
                    assert forall|w: int| 0 <= w < video@.len() implies #[trigger] video@[w] == start[w] || (
                    video@[w] == hex && exists|xx: int, yy: int|
                        0 <= xx < h && 0 <= yy < v && w == pixel_index(p, xx, yy)) by {
                        if w == idx {
                            assert(0 <= x < h && 0 <= y < v && w == pixel_index(p, x as int, y as int));
                        } else {
                            assert(video@[w] == before[w]);
                        }
                    }
                }
                x = x + 1;
            }
            y = y + 1;
        }
    }
}

impl PsfFontFunctions for FrameBuffer {
    /// The glyph's pixels fit in 32 bits, and its bytes and words are there.
    open spec fn can_draw(&self, font: FontInfo, pos_x: u32, pos_y: u32, ch: char, glyphs_len: int, video_len: int) -> bool {
        &&& pos_x + 8 <= u32::MAX
        &&& pos_y + font.char_size <= u32::MAX
        &&& glyph_offset(ch, font.char_size, font.char_size) < glyphs_len
        &&& font.char_size > 0 ==> glyph_cell(
            self.pixels_per_scan_line,
            pos_x as int,
            pos_y as int,
            font.char_size - 1,
            7,
        ) < video_len
    }

    /// Draws the glyph of `ch` with its top left corner at `(pos_x, pos_y)`:
    /// set glyph bits in `fg_colour`, clear ones in `bg_colour`, eight
    /// columns by `char_size` rows, row by row. `glyphs` holds the font's
    /// glyph bytes.
    fn put_char(
        &self,
        video: &mut Vec<u32>,
        glyphs: &Vec<u8>,
        font: &FontInfo,
        pos_x: u32,
        pos_y: u32,
        ch: char,
        fg_colour: &Colour,
        bg_colour: &Colour,
    )
        ensures
            final(video)@ == glyph_drawn(
                old(video)@,
                self.pixels_per_scan_line,
                pos_x as int,
                pos_y as int,
                glyphs@,
                *font,
                ch,
                hex_of(*fg_colour),
                hex_of(*bg_colour),
            ),
            final(video)@.len() == old(video)@.len(),
            self.pixels_per_scan_line >= 8 ==> forall|r: int, k: int|
                0 <= r < font.char_size && 0 <= k < 8 ==> #[trigger] final(video)@[glyph_cell(
                    self.pixels_per_scan_line,
                    pos_x as int,
                    pos_y as int,
                    r,
                    k,
                )] == glyph_colour(glyphs@, *font, ch, r, k, hex_of(*fg_colour), hex_of(*bg_colour)),
            forall|w: int|
                0 <= w < final(video)@.len() ==> #[trigger] final(video)@[w] == old(video)@[w] || exists|
                    r: int,
                    k: int,
                | 0 <= r < font.char_size && 0 <= k < 8 && w == glyph_cell(
                    self.pixels_per_scan_line,
                    pos_x as int,
                    pos_y as int,
                    r,
                    k,
                ),
    {
        let ghost p = self.pixels_per_scan_line;
        let ghost cs = font.char_size as int;
        let ghost start = video@;
        let ghost x0 = pos_x as int;
        let ghost y0 = pos_y as int;
        let ghost fg = hex_of(*fg_colour);
        let ghost bg = hex_of(*bg_colour);
        proof {
            lemma_partial_start(start, p, x0, y0, glyphs@, *font, ch, fg, bg);
        }
        let mut glyph_char_scan_line_bitmap: u8 = font.get_char_glyph_from_buffer(glyphs, ch, 0);
        let end_y = pos_y + font.char_size as u32;
        let mut p_y: u32 = pos_y;
        while p_y < end_y
            invariant
                p == self.pixels_per_scan_line,
                cs == font.char_size,
                x0 == pos_x,
                y0 == pos_y,
                fg == hex_of(*fg_colour),
                bg == hex_of(*bg_colour),
                end_y == pos_y + cs,
                pos_x + 8 <= u32::MAX,
                pos_y <= p_y <= end_y,
                glyph_offset(ch, font.char_size, font.char_size) < glyphs@.len(),
                cs > 0 ==> glyph_cell(p, x0, y0, cs - 1, 7) < start.len(),
                p_y < end_y ==> glyph_char_scan_line_bitmap == glyphs@[glyph_offset(
                    ch,
                    font.char_size,
                    (p_y - pos_y) as u8,
                )],
                video@ == glyph_partial(start, p, x0, y0, glyphs@, *font, ch, fg, bg, p_y - pos_y, 0),
            decreases end_y - p_y,
        {
            let ghost row = p_y - pos_y;
            let end_x = pos_x + 8;
            let mut p_x: u32 = pos_x;
            while p_x < end_x
                invariant
                    p == self.pixels_per_scan_line,
                    cs == font.char_size,
                    x0 == pos_x,
                    y0 == pos_y,
                    fg == hex_of(*fg_colour),
                    bg == hex_of(*bg_colour),
                    end_x == pos_x + 8,
                    pos_y <= p_y < end_y,
                    end_y == pos_y + cs,
                    row == p_y - pos_y,
                    pos_x <= p_x <= end_x,
                    cs > 0 ==> glyph_cell(p, x0, y0, cs - 1, 7) < start.len(),
                    glyph_char_scan_line_bitmap == glyphs@[glyph_offset(ch, font.char_size, row as u8)],
                    video@ == glyph_partial(start, p, x0, y0, glyphs@, *font, ch, fg, bg, row, p_x - pos_x),
                decreases end_x - p_x,
            {
                let ghost k = p_x - pos_x;
                let ghost idx = glyph_cell(p, x0, y0, row, k);
                proof {
                    assert(p * (y0 + row) <= p * (y0 + cs - 1)) by (nonlinear_arith)
                        requires
                            row <= cs - 1,
                    ;
                    assert(p * (y0 + row) >= 0) by (nonlinear_arith)
                        requires
                            y0 + row >= 0,
                    ;
                    assert(pixel_index(p, p_x as int, p_y as int) == idx);
                    lemma_partial_pixel(start, p, x0, y0, glyphs@, *font, ch, fg, bg, row, k);
                }
                let shift: u8 = (p_x - pos_x) as u8;
                if glyph_char_scan_line_bitmap & (0x80u8 >> shift) != 0 {
                    self.put_pixel(video, p_x, p_y, fg_colour);
                } else {
                    self.put_pixel(video, p_x, p_y, bg_colour);
                }
                p_x = p_x + 1;
            }
            proof {
                lemma_partial_row(start, p, x0, y0, glyphs@, *font, ch, fg, bg, row);
                assert(((p_y - pos_y + 1) as u8) as int == row + 1);
            }
            glyph_char_scan_line_bitmap = font.get_char_glyph_from_buffer(glyphs, ch, (p_y - pos_y + 1) as u8);
            p_y = p_y + 1;
        }
        proof {
            let fin = video@;
            assert(fin =~= glyph_drawn(start, p, x0, y0, glyphs@, *font, ch, fg, bg));
            if p >= 8 {
                assert forall|r: int, k: int| 0 <= r < cs && 0 <= k < 8 implies #[trigger] fin[glyph_cell(
                    p,
                    x0,
                    y0,
                    r,
                    k,
                )] == glyph_colour(glyphs@, *font, ch, r, k, fg, bg) by {
                    assert(p * (y0 + r) <= p * (y0 + cs - 1)) by (nonlinear_arith)
                        requires
                            r <= cs - 1,
                    ;
                    lemma_drawn_cell(start, p, x0, y0, glyphs@, *font, ch, fg, bg, r, k);
                }
            }
            assert forall|w: int| 0 <= w < fin.len() implies #[trigger] fin[w] == start[w] || exists|
                r: int,
                k: int,
            | 0 <= r < cs && 0 <= k < 8 && w == glyph_cell(p, x0, y0, r, k) by {
                if fin[w] != start[w] {
                    lemma_drawn_frame(start, p, x0, y0, glyphs@, *font, ch, fg, bg, w);
                }
            }
        }
    }

    /// Draws each character of `string` at `(pos_x, pos_y)`, one over the
    /// other, so that the last one shows.
    fn put_string(
        &self,
        video: &mut Vec<u32>,
        glyphs: &Vec<u8>,
        font: &FontInfo,
        pos_x: u32,
        pos_y: u32,
        string: &str,
        fg_colour: &Colour,
        bg_colour: &Colour,
    )
        ensures
            final(video)@ == if string@.len() == 0 {
                old(video)@
            } else {
                glyph_drawn(
                    old(video)@,
                    self.pixels_per_scan_line,
                    pos_x as int,
                    pos_y as int,
                    glyphs@,
                    *font,
                    string@.last(),
                    hex_of(*fg_colour),
                    hex_of(*bg_colour),
                )
            },
    {
        let ghost start = video@;
        let ghost p = self.pixels_per_scan_line;
        let ghost fg = hex_of(*fg_colour);
        let ghost bg = hex_of(*bg_colour);
        for c in it: string.chars()
            invariant
                it.seq() == string@,
                p == self.pixels_per_scan_line,
                fg == hex_of(*fg_colour),
                bg == hex_of(*bg_colour),
                forall|i: int|
                    0 <= i < string@.len() ==> self.can_draw(
                        *font,
                        pos_x,
                        pos_y,
                        #[trigger] string@[i],
                        glyphs@.len() as int,
                        start.len() as int,
                    ),
                video@ == if it.index() == 0 {
                    start
                } else {
                    glyph_drawn(start, p, pos_x as int, pos_y as int, glyphs@, *font, string@[it.index() - 1], fg, bg)
                },
        {
            proof {
                assert(string@[it.index() as int] == c);
                if it.index() > 0 {
                    lemma_drawn_twice(start, p, pos_x as int, pos_y as int, glyphs@, *font, string@[it.index() - 1], c, fg, bg);
                }
            }
            self.put_char(video, glyphs, font, pos_x, pos_y, c, fg_colour, bg_colour);
        }
    }
}

} // verus!
