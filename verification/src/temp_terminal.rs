//! The kernel's boot-time terminal: glyphs drawn in the theme's white on
//! black with a margin, a cursor in character cells, and scrolling up one
//! line when the cursor leaves the last one.
use vstd::prelude::*;
use crate::boot::{GraphicsInfo, KernelInfo, TerminalTheme};
use crate::graphics::{glyph_bit, glyph_cell};
use crate::psf::{FontInfo, glyph_offset};
use crate::temp_graphics::FrameBufferTrait;

verus! {

/// The pixels left free at the left of each glyph cell.
pub const SIDE_BUFFER: u16 = 4;

/// The pixels left free above each glyph cell.
pub const TOP_BUFFER: u16 = SIDE_BUFFER / 2;

/// A text terminal on the boot loader's frame buffer.
pub struct Terminal {
    pub frame_buffer: GraphicsInfo,
    pub font: FontInfo,
    pub theme: TerminalTheme,
    pub curs_pos_x: u16,
    pub curs_pos_y: u16,
}

/// Whether pixel lines fit the visible width (as the firmware guarantees)
/// and the pixels up to and including the resolution lie within `len` words.
pub open spec fn screen_ok(fb: GraphicsInfo, len: int) -> bool {
    &&& fb.pixels_per_scan_line >= fb.horizontal_resolution
    &&& fb.pixels_per_scan_line * fb.vertical_resolution + fb.horizontal_resolution < len
}

/// The words after the glyph of `c` is drawn with its top left corner at
/// `(x0, y0)`: glyph row `r` shows row `r + 1` of the glyph's bytes, and
/// only the pixels the frame buffer draws are written.
pub open spec fn margin_glyph_drawn(
    video: Seq<u32>,
    fb: GraphicsInfo,
    x0: int,
    y0: int,
    glyphs: Seq<u8>,
    font: FontInfo,
    c: char,
    fg: u32,
    bg: u32,
) -> Seq<u32> {
    let p = fb.pixels_per_scan_line as int;
    Seq::new(
        video.len(),
        |w: int|
            {
                let d = w - (p * y0 + x0);
                if 0 <= d && d / p < font.char_size && d % p < 8 && fb.draws(x0 + d % p, y0 + d / p) {
                    if glyph_bit(glyphs, font, c, d / p + 1, d % p) {
                        fg
                    } else {
                        bg
                    }
                } else {
                    video[w]
                }
            },
    )
}

/// The words after every visible pixel below the first `cs` lines has been
/// copied `cs` lines up.
pub open spec fn scrolled(video: Seq<u32>, fb: GraphicsInfo, cs: int) -> Seq<u32> {
    let p = fb.pixels_per_scan_line as int;
    Seq::new(
        video.len(),
        |w: int|
            if w / p < fb.vertical_resolution - cs && w % p < fb.horizontal_resolution {
                video[p * (w / p + cs) + w % p]
            } else {
                video[w]
            },
    )
}

/// Whether the cursor wraps to the next line after a glyph is put.
pub open spec fn wraps(t: Terminal) -> bool {
    t.curs_pos_x + 1 >= (t.frame_buffer.horizontal_resolution as int) / 8 - 1
}

/// Whether the screen scrolls after a glyph is put.
pub open spec fn scrolls(t: Terminal) -> bool {
    wraps(t) && t.curs_pos_y + 1 >= (t.frame_buffer.vertical_resolution as int) / (t.font.char_size as int) - 1
}

/// What putting a glyph takes: a screen at least one glyph wide, a cursor
/// whose cell lies within 16 bits, the glyph's bytes, the frame buffer's
/// words, and a font that fits the screen when the cursor wraps.
pub open spec fn can_put(t: Terminal, c: char, glyphs_len: int, video_len: int) -> bool {
    let cs = t.font.char_size as int;
    &&& t.frame_buffer.horizontal_resolution >= 8
    &&& t.curs_pos_y + 1 <= u16::MAX
    &&& (t.curs_pos_y + 1) * cs + TOP_BUFFER <= u16::MAX
    &&& (t.curs_pos_x + 1) * 8 + SIDE_BUFFER <= u16::MAX
    &&& cs > 0 ==> glyph_offset(c, t.font.char_size, t.font.char_size) < glyphs_len
    &&& screen_ok(t.frame_buffer, video_len)
    &&& wraps(t) ==> {
        &&& cs > 0
        &&& (t.frame_buffer.vertical_resolution as int) / cs >= 1
    }
}

/// The terminal and the frame buffer's words after the glyph of `c` is put.
pub open spec fn after_glyph(t: Terminal, video: Seq<u32>, glyphs: Seq<u8>, c: char) -> (Terminal, Seq<u32>) {
    let cs = t.font.char_size as int;
    let drawn = margin_glyph_drawn(
        video,
        t.frame_buffer,
        t.curs_pos_x * 8 + SIDE_BUFFER,
        t.curs_pos_y * cs + TOP_BUFFER,
        glyphs,
        t.font,
        c,
        t.theme.white,
        t.theme.black,
    );
    if !wraps(t) {
        (Terminal { curs_pos_x: (t.curs_pos_x + 1) as u16, ..t }, drawn)
    } else if scrolls(t) {
        (Terminal { curs_pos_x: 0, ..t }, scrolled(drawn, t.frame_buffer, cs))
    } else {
        (Terminal { curs_pos_x: 0, curs_pos_y: (t.curs_pos_y + 1) as u16, ..t }, drawn)
    }
}

/// Whether a string stops at `c`.
pub open spec fn ends_string(c: char) -> bool {
    c == '\0'
}

/// The terminal and the frame buffer's words after `put_string` of `s`: a
/// NUL ends the string, carriage return moves to the first column, line
/// feed one line down, and any other character is put as a glyph.
pub open spec fn after_string(t: Terminal, video: Seq<u32>, glyphs: Seq<u8>, s: Seq<char>) -> (Terminal, Seq<u32>)
    decreases s.len(),
{
    if s.len() == 0 {
        (t, video)
    } else {
        let (t1, v1) = after_string(t, video, glyphs, s.drop_last());
        let c = s.last();
        if s.drop_last().contains('\0') || ends_string(c) {
            (t1, v1)
        } else if c == '\r' {
            (Terminal { curs_pos_x: 0, ..t1 }, v1)
        } else if c == '\n' {
            (Terminal { curs_pos_y: (t1.curs_pos_y + 1) as u16, ..t1 }, v1)
        } else {
            after_glyph(t1, v1, glyphs, c)
        }
    }
}

/// Whether each character of `s` up to a NUL can be handled in turn.
pub open spec fn can_put_string(t: Terminal, video: Seq<u32>, glyphs: Seq<u8>, s: Seq<char>) -> bool
    decreases s.len(),
{
    s.len() == 0 || {
        let (t1, v1) = after_string(t, video, glyphs, s.drop_last());
        let c = s.last();
        &&& can_put_string(t, video, glyphs, s.drop_last())
        &&& !s.drop_last().contains('\0') && !ends_string(c) ==> if c == '\r' {
            true
        } else if c == '\n' {
            t1.curs_pos_y + 1 <= u16::MAX
        } else {
            can_put(t1, c, glyphs.len() as int, v1.len() as int)
        }
    }
}

/// A word that is `p * y + x` with `x` below `p` has row `y` and column `x`.
pub proof fn lemma_row_col(p: int, y: int, x: int)
    requires
        p > 0,
        0 <= x < p,
        0 <= y,
    ensures
        (p * y + x) / p == y,
        (p * y + x) % p == x,
{
    assert(p * y == y * p) by (nonlinear_arith);
    vstd::arithmetic::div_mod::lemma_fundamental_div_mod_converse(p * y + x, p, y, x);
}

/// A word splits into its row and column.
pub proof fn lemma_split(p: int, w: int)
    requires
        p > 0,
        w >= 0,
    ensures
        w == p * (w / p) + w % p,
        w / p >= 0,
        0 <= w % p < p,
{
    vstd::arithmetic::div_mod::lemma_fundamental_div_mod(w, p);
    vstd::arithmetic::div_mod::lemma_div_pos_is_pos(w, p);
    vstd::arithmetic::div_mod::lemma_mod_bound(w, p);
}

/// Putting text up to a point can be done when putting all of it can.
pub proof fn lemma_can_put_string_prefix(t: Terminal, video: Seq<u32>, glyphs: Seq<u8>, s: Seq<char>, k: int)
    requires
        can_put_string(t, video, glyphs, s),
        0 <= k <= s.len(),
    ensures
        can_put_string(t, video, glyphs, s.take(k)),
    decreases s.len(),
{
    if k == s.len() {
        assert(s.take(k) =~= s);
    } else {
        lemma_can_put_string_prefix(t, video, glyphs, s.drop_last(), k);
        assert(s.drop_last().take(k) =~= s.take(k));
    }
}

impl Terminal {
    /// A terminal at the top left of the boot loader's frame buffer, with its font and theme.
    pub fn new(boot_info: &KernelInfo) -> (t: Self)
        ensures
            t.frame_buffer == boot_info.graphics,
            t.font == boot_info.font,
            t.theme == boot_info.theme,
            t.curs_pos_x == 0 && t.curs_pos_y == 0,
    {
        Terminal {
            frame_buffer: boot_info.graphics,
            font: boot_info.font,
            theme: boot_info.theme,
            curs_pos_x: 0,
            curs_pos_y: 0,
        }
    }

    /// Draws the glyph of `c` in the cursor's cell and moves the cursor on;
    /// past the end of a line it goes to the start of the next, and past the
    /// last line the screen scrolls up one line. `video` holds the frame
    /// buffer's words, `glyphs` the font's glyph bytes.
    #[verifier::rlimit(40)]
    pub fn put_char(&mut self, video: &mut Vec<u32>, glyphs: &Vec<u8>, c: char)
        requires
            can_put(*old(self), c, glyphs@.len() as int, old(video)@.len() as int),
        ensures
            (*final(self), final(video)@) == after_glyph(*old(self), old(video)@, glyphs@, c),
    {
        let ghost t0 = *self;
        let ghost start = video@;
        self.draw_glyph(video, glyphs, c);
        let ghost drawn = video@;
        if self.curs_pos_x as u32 + 1 >= (self.frame_buffer.horizontal_resolution / FontInfo::CHAR_WIDTH as u32) - 1 {
            self.curs_pos_x = 0;
            self.curs_pos_y = self.curs_pos_y + 1;
            proof {
                if self.frame_buffer.vertical_resolution < self.font.char_size {
                    vstd::arithmetic::div_mod::lemma_basic_div(
                        self.frame_buffer.vertical_resolution as int,
                        self.font.char_size as int,
                    );
                }
            }
            if self.curs_pos_y as u32 >= (self.frame_buffer.vertical_resolution / self.font.char_size as u32) - 1 {
                self.scroll_up(video);
                self.curs_pos_y = self.curs_pos_y - 1;
            }
        } else {
            self.curs_pos_x = self.curs_pos_x + 1;
        }
    }

    /// Draws the glyph of `c` in the cursor's cell, in the theme's white on black.
    #[verifier::rlimit(40)]
    fn draw_glyph(&self, video: &mut Vec<u32>, glyphs: &Vec<u8>, c: char)
        requires
            can_put(*self, c, glyphs@.len() as int, old(video)@.len() as int),
        ensures
            final(video)@ == margin_glyph_drawn(
                old(video)@,
                self.frame_buffer,
                self.curs_pos_x * 8 + SIDE_BUFFER,
                self.curs_pos_y * self.font.char_size + TOP_BUFFER,
                glyphs@,
                self.font,
                c,
                self.theme.white,
                self.theme.black,
            ),
    {
        let ghost fb = self.frame_buffer;
        let ghost p = self.frame_buffer.pixels_per_scan_line as int;
        let ghost cs = self.font.char_size as int;
        let ghost start = video@;
        let ghost x0 = self.curs_pos_x * 8 + SIDE_BUFFER;
        let ghost y0 = self.curs_pos_y * cs + TOP_BUFFER;
        let ghost fg = self.theme.white;
        let ghost bg = self.theme.black;
        proof {
            assert((self.curs_pos_y + 1) * cs == self.curs_pos_y * cs + cs) by (nonlinear_arith);
            assert(self.curs_pos_y * cs >= 0) by (nonlinear_arith)
                requires
                    cs >= 0,
            ;
            assert(p >= 8);
        }
        let base: u16 = self.curs_pos_y * self.font.char_size as u16;
        let top: u16 = base + TOP_BUFFER;
        let bottom: u16 = (self.curs_pos_y + 1) * self.font.char_size as u16 + TOP_BUFFER;
        let left: u16 = self.curs_pos_x * FontInfo::CHAR_WIDTH as u16 + SIDE_BUFFER;
        let right: u16 = (self.curs_pos_x + 1) * FontInfo::CHAR_WIDTH as u16 + SIDE_BUFFER;
        let mut y: u16 = top;
        while y < bottom
            invariant
                fb == self.frame_buffer,
                p == fb.pixels_per_scan_line,
                cs == self.font.char_size,
                p >= 8,
                top == y0,
                base + 2 == top,
                bottom == y0 + cs,
                left == x0,
                right == x0 + 8,
                fg == self.theme.white,
                bg == self.theme.black,
                top <= y <= bottom,
                cs > 0 ==> glyph_offset(c, self.font.char_size, self.font.char_size) < glyphs@.len(),
                screen_ok(fb, start.len() as int),
                video@.len() == start.len(),
                forall|r: int, k: int|
                    0 <= r < y - top && 0 <= k < 8 && fb.draws(x0 + k, y0 + r)
                        ==> #[trigger] video@[glyph_cell(fb.pixels_per_scan_line, x0, y0, r, k)] == if glyph_bit(
                        glyphs@,
                        self.font,
                        c,
                        r + 1,
                        k,
                    ) {
                        fg
                    } else {
                        bg
                    },
                forall|w: int|
                    0 <= w < video@.len() ==> #[trigger] video@[w] == start[w] || exists|r: int, k: int|
                        0 <= r < y - top && 0 <= k < 8 && fb.draws(x0 + k, y0 + r) && w == glyph_cell(
                            fb.pixels_per_scan_line,
                            x0,
                            y0,
                            r,
                            k,
                        ),
            decreases bottom - y,
        {
            let ghost row = y - top;
            let row_bits: u8 = self.font.get_char_glyph_from_buffer(
                glyphs,
                c,
                (y - base - 1) as u8,
            );
            let mut x: u16 = left;
            while x < right
                invariant
                    fb == self.frame_buffer,
                    p == fb.pixels_per_scan_line,
                    cs == self.font.char_size,
                    p >= 8,
                    top == y0,
                    bottom == y0 + cs,
                    left == x0,
                    right == x0 + 8,
                    fg == self.theme.white,
                    bg == self.theme.black,
                    top <= y < bottom,
                    row == y - top,
                    left <= x <= right,
                    row_bits == glyphs@[glyph_offset(c, self.font.char_size, (row + 1) as u8)],
                    screen_ok(fb, start.len() as int),
                    video@.len() == start.len(),
                    forall|r: int, k: int|
                        0 <= r < row && 0 <= k < 8 && fb.draws(x0 + k, y0 + r)
                            ==> #[trigger] video@[glyph_cell(fb.pixels_per_scan_line, x0, y0, r, k)] == if glyph_bit(
                            glyphs@,
                            self.font,
                            c,
                            r + 1,
                            k,
                        ) {
                            fg
                        } else {
                            bg
                        },
                    forall|k: int|
                        0 <= k < x - left && fb.draws(x0 + k, y0 + row) ==> #[trigger] video@[glyph_cell(
                            fb.pixels_per_scan_line,
                            x0,
                            y0,
                            row,
                            k,
                        )] == if glyph_bit(glyphs@, self.font, c, row + 1, k) {
                            fg
                        } else {
                            bg
                        },
                    forall|w: int|
                        0 <= w < video@.len() ==> #[trigger] video@[w] == start[w] || exists|r: int, k: int|
                            ((0 <= r < row && 0 <= k < 8) || (r == row && 0 <= k < x - left)) && fb.draws(
                                x0 + k,
                                y0 + r,
                            ) && w == glyph_cell(fb.pixels_per_scan_line, x0, y0, r, k),
                decreases right - x,
            {
                let ghost k = x - left;
                let ghost idx = glyph_cell(fb.pixels_per_scan_line, x0, y0, row, k);
                let ghost before = video@;
                let colour: u32 = if row_bits & (0x80u8 >> ((x - left) as u8)) != 0 {
                    self.theme.white
                } else {
                    self.theme.black
                };
                proof {
                    assert(fb.word(x as int, y as int) == idx);
                    if fb.draws(x as int, y as int) {
                        assert(p * y <= p * fb.vertical_resolution) by (nonlinear_arith)
                            requires
                                y <= fb.vertical_resolution,
                                p >= 0,
                        ;
                    }
                }
                self.frame_buffer.put_pixel(video, x as u32, y as u32, colour);
                proof {
                    if fb.draws(x as int, y as int) {
                        assert forall|r: int, kk: int|
                            0 <= r < row && 0 <= kk < 8 && fb.draws(x0 + kk, y0 + r)
                                implies #[trigger] video@[glyph_cell(fb.pixels_per_scan_line, x0, y0, r, kk)]
                            == before[glyph_cell(fb.pixels_per_scan_line, x0, y0, r, kk)] by {
                            crate::graphics::lemma_glyph_cells_apart(fb.pixels_per_scan_line, x0, y0, r, kk, row, k);
                            assert(p * (y0 + r) <= p * fb.vertical_resolution) by (nonlinear_arith)
                                requires
                                    y0 + r <= fb.vertical_resolution,
                                    p >= 0,
                            ;
                        }
                        assert forall|kk: int|
                            0 <= kk < k && fb.draws(x0 + kk, y0 + row)
                                implies #[trigger] video@[glyph_cell(fb.pixels_per_scan_line, x0, y0, row, kk)]
                            == before[glyph_cell(fb.pixels_per_scan_line, x0, y0, row, kk)] by {
                            crate::graphics::lemma_glyph_cells_apart(fb.pixels_per_scan_line, x0, y0, row, kk, row, k);
                        }
                        assert forall|w: int| 0 <= w < video@.len() implies #[trigger] video@[w] == start[w]
                            || exists|r: int, kk: int|
                            ((0 <= r < row && 0 <= kk < 8) || (r == row && 0 <= kk < k + 1)) && fb.draws(
                                x0 + kk,
                                y0 + r,
                            ) && w == glyph_cell(fb.pixels_per_scan_line, x0, y0, r, kk) by {
                            if w == idx {
                                assert(fb.draws(x0 + k, y0 + row) && w == glyph_cell(
                                    fb.pixels_per_scan_line,
                                    x0,
                                    y0,
                                    row,
                                    k,
                                ));
                            } else {
                                assert(video@[w] == before[w]);
                            }
                        }
                    }
                }
                x = x + 1;
            }
            y = y + 1;
        }
        proof {
            self.lemma_margin_drawn(start, video@, glyphs@, c);
        }
    }

    /// A glyph drawn pixel by pixel, with every other word left, is `margin_glyph_drawn`.
    proof fn lemma_margin_drawn(&self, start: Seq<u32>, fin: Seq<u32>, glyphs: Seq<u8>, c: char)
        requires
            self.frame_buffer.pixels_per_scan_line >= 8,
            fin.len() == start.len(),
            forall|r: int, k: int|
                0 <= r < self.font.char_size && 0 <= k < 8 && self.frame_buffer.draws(
                    self.curs_pos_x * 8 + SIDE_BUFFER + k,
                    self.curs_pos_y * self.font.char_size + TOP_BUFFER + r,
                ) ==> #[trigger] fin[glyph_cell(
                    self.frame_buffer.pixels_per_scan_line,
                    self.curs_pos_x * 8 + SIDE_BUFFER,
                    self.curs_pos_y * self.font.char_size + TOP_BUFFER,
                    r,
                    k,
                )] == if glyph_bit(glyphs, self.font, c, r + 1, k) {
                    self.theme.white
                } else {
                    self.theme.black
                },
            forall|w: int|
                0 <= w < fin.len() ==> #[trigger] fin[w] == start[w] || exists|r: int, k: int|
                    0 <= r < self.font.char_size && 0 <= k < 8 && self.frame_buffer.draws(
                        self.curs_pos_x * 8 + SIDE_BUFFER + k,
                        self.curs_pos_y * self.font.char_size + TOP_BUFFER + r,
                    ) && w == #[trigger] glyph_cell(
                        self.frame_buffer.pixels_per_scan_line,
                        self.curs_pos_x * 8 + SIDE_BUFFER,
                        self.curs_pos_y * self.font.char_size + TOP_BUFFER,
                        r,
                        k,
                    ),
        ensures
            fin == margin_glyph_drawn(
                start,
                self.frame_buffer,
                self.curs_pos_x * 8 + SIDE_BUFFER,
                self.curs_pos_y * self.font.char_size + TOP_BUFFER,
                glyphs,
                self.font,
                c,
                self.theme.white,
                self.theme.black,
            ),
    {
        let fb = self.frame_buffer;
        let p = fb.pixels_per_scan_line;
        let x0 = self.curs_pos_x * 8 + SIDE_BUFFER;
        let y0 = self.curs_pos_y * self.font.char_size + TOP_BUFFER;
        let g = margin_glyph_drawn(start, fb, x0, y0, glyphs, self.font, c, self.theme.white, self.theme.black);
        assert forall|w: int| 0 <= w < fin.len() implies fin[w] == g[w] by {
            let d = w - (p * y0 + x0);
            if 0 <= d && d / (p as int) < self.font.char_size && d % (p as int) < 8 && fb.draws(
                x0 + d % (p as int),
                y0 + d / (p as int),
            ) {
                crate::graphics::lemma_offset_cell(p, x0, y0, w);
                assert(fin[glyph_cell(p, x0, y0, d / (p as int), d % (p as int))] == g[w]);
            } else if fin[w] != start[w] {
                let (r, k) = choose|r: int, k: int|
                    0 <= r < self.font.char_size && 0 <= k < 8 && fb.draws(x0 + k, y0 + r) && w == glyph_cell(
                        p,
                        x0,
                        y0,
                        r,
                        k,
                    );
                crate::graphics::lemma_cell_offset(p, x0, y0, r, k);
            }
        }
        assert(fin =~= g);
    }

    /// Copies every visible pixel below the first `char_size` lines
    /// `char_size` lines up, line by line from the top.
    #[verifier::rlimit(40)]
    fn scroll_up(&self, video: &mut Vec<u32>)
        requires
            screen_ok(self.frame_buffer, old(video)@.len() as int),
            self.frame_buffer.horizontal_resolution >= 8,
            self.font.char_size > 0,
            self.frame_buffer.vertical_resolution >= self.font.char_size,
        ensures
            final(video)@ == scrolled(old(video)@, self.frame_buffer, self.font.char_size as int),
    {
        let ghost fb = self.frame_buffer;
        let ghost p = fb.pixels_per_scan_line as int;
        let ghost h = fb.horizontal_resolution as int;
        let ghost cs = self.font.char_size as int;
        let ghost start = video@;
        let rows = self.frame_buffer.vertical_resolution - self.font.char_size as u32;
        let mut y: u32 = 0;
        proof {
            assert forall|w: int| 0 <= w < video@.len() implies #[trigger] video@[w] == if w / p < y && w % p < h {
                start[p * (w / p + cs) + w % p]
            } else {
                start[w]
            } by {
                lemma_split(p, w);
            }
        }
        while y < rows
            invariant
                fb == self.frame_buffer,
                p == fb.pixels_per_scan_line,
                h == fb.horizontal_resolution,
                cs == self.font.char_size,
                cs > 0,
                h >= 8,
                rows == fb.vertical_resolution - cs,
                screen_ok(fb, start.len() as int),
                y <= rows,
                video@.len() == start.len(),
                forall|w: int|
                    0 <= w < video@.len() ==> #[trigger] video@[w] == if w / p < y && w % p < h {
                        start[p * (w / p + cs) + w % p]
                    } else {
                        start[w]
                    },
            decreases rows - y,
        {
            let mut x: u32 = 0;
            proof {
                assert forall|w: int| 0 <= w < video@.len() implies #[trigger] video@[w] == if (w / p < y && w % p < h)
                    || (w / p == y && w % p < x) {
                    start[p * (w / p + cs) + w % p]
                } else {
                    start[w]
                } by {
                    lemma_split(p, w);
                }
            }
            while x < self.frame_buffer.horizontal_resolution
                invariant
                    fb == self.frame_buffer,
                    p == fb.pixels_per_scan_line,
                    h == fb.horizontal_resolution,
                    cs == self.font.char_size,
                    cs > 0,
                    h >= 8,
                    rows == fb.vertical_resolution - cs,
                    screen_ok(fb, start.len() as int),
                    y < rows,
                    x <= h,
                    video@.len() == start.len(),
                    forall|w: int|
                        0 <= w < video@.len() ==> #[trigger] video@[w] == if (w / p < y && w % p < h) || (w / p == y
                            && w % p < x) {
                            start[p * (w / p + cs) + w % p]
                        } else {
                            start[w]
                        },
                decreases h - x,
            {
                let ghost src = p * (y + cs) + x;
                let ghost dst = p * y + x;
                proof {
                    assert(p * (y + cs) <= p * (fb.vertical_resolution - 1)) by (nonlinear_arith)
                        requires
                            y + cs <= fb.vertical_resolution - 1,
                            p >= 0,
                    ;
                    assert(p * fb.vertical_resolution == p * (fb.vertical_resolution - 1) + p) by (nonlinear_arith);
                    lemma_row_col(p, y + cs, x as int);
                    lemma_row_col(p, y as int, x as int);
                    assert(video@[src] == start[src]);
                    assert(p * y <= p * (y + cs)) by (nonlinear_arith)
                        requires
                            cs > 0,
                            p >= 0,
                    ;
                    assert(src < start.len());
                    assert(dst < start.len());
                }
                let n = video.len();
                let from: usize = self.frame_buffer.pixels_per_scan_line as usize * (y + self.font.char_size as u32) as usize
                    + x as usize;
                let to: usize = self.frame_buffer.pixels_per_scan_line as usize * y as usize + x as usize;
                let colour = video[from];
                video.set(to, colour);
                proof {
                    assert forall|w: int| 0 <= w < video@.len() implies #[trigger] video@[w] == if (w / p < y && w
                        % p < h) || (w / p == y && w % p < x + 1) {
                        start[p * (w / p + cs) + w % p]
                    } else {
                        start[w]
                    } by {
                        lemma_split(p, w);
                        if w != dst {
                            if w / p == y && w % p == x {
                                assert(w == dst);
                            }
                        }
                    }
                }
                x = x + 1;
            }
            y = y + 1;
        }
        proof {
            assert(video@ =~= scrolled(start, fb, cs));
        }
    }

    /// Puts each character of `string` up to a NUL: carriage return moves
    /// the cursor to the first column, line feed one line down, and any
    /// other character is put as a glyph.
    pub fn put_string(&mut self, video: &mut Vec<u32>, glyphs: &Vec<u8>, string: &str)
        requires
            can_put_string(*old(self), old(video)@, glyphs@, string@),
        ensures
            (*final(self), final(video)@) == after_string(*old(self), old(video)@, glyphs@, string@),
    {
        let ghost t0 = *self;
        let ghost v0 = video@;
        for c in it: string.chars()
            invariant
                it.seq() == string@,
                t0 == *old(self),
                v0 == old(video)@,
                can_put_string(t0, v0, glyphs@, string@),
                (*self, video@) == after_string(t0, v0, glyphs@, string@.take(it.index() as int)),
                !string@.take(it.index() as int).contains('\0'),
        {
            let ghost i = it.index() as int;
            proof {
                lemma_can_put_string_prefix(t0, v0, glyphs@, string@, i + 1);
                assert(string@.take(i + 1).drop_last() =~= string@.take(i));
                assert(string@.take(i + 1).last() == c);
            }
            if c == '\0' {
                proof {
                    self.lemma_string_stops(v0, t0, glyphs@, string@, i);
                    assert(string@.take(string@.len() as int) =~= string@);
                    assert(after_string(t0, v0, glyphs@, string@.take(string@.len() as int)) == after_string(
                        t0,
                        v0,
                        glyphs@,
                        string@.take(i),
                    ));
                }
                return ;
            } else if c == '\r' {
                self.curs_pos_x = 0;
            } else if c == '\n' {
                self.curs_pos_y = self.curs_pos_y + 1;
            } else {
                self.put_char(video, glyphs, c);
            }
            proof {
                assert forall|j: int| 0 <= j < i + 1 implies #[trigger] string@.take(i + 1)[j] != '\0' by {
                    if j < i {
                        assert(string@.take(i + 1)[j] == string@.take(i)[j]);
                    }
                }
                assert(!string@.take(i + 1).contains('\0'));
            }
        }
        proof {
            assert(string@.take(string@.len() as int) =~= string@);
        }
    }

    /// Nothing after a NUL changes what `put_string` does.
    proof fn lemma_string_stops(&self, v0: Seq<u32>, t0: Terminal, glyphs: Seq<u8>, s: Seq<char>, i: int)
        requires
            0 <= i < s.len(),
            s[i] == '\0',
        ensures
            forall|k: int| i < k <= s.len() ==> #[trigger] after_string(t0, v0, glyphs, s.take(k)) == after_string(
                t0,
                v0,
                glyphs,
                s.take(i),
            ),
    {
        assert forall|k: int| i < k <= s.len() implies #[trigger] after_string(t0, v0, glyphs, s.take(k))
            == after_string(t0, v0, glyphs, s.take(i)) by {
            lemma_after_nul(t0, v0, glyphs, s, i, k);
        }
    }

    /// Paints the whole screen in the theme's black.
    pub fn clear_screen(&self, video: &mut Vec<u32>)
        requires
            forall|x: int, y: int|
                self.frame_buffer.on_screen(x, y) ==> self.frame_buffer.draws(x, y) && 0 <= #[trigger] self.frame_buffer.word(
                    x,
                    y,
                ) < old(video)@.len(),
        ensures
            final(video)@.len() == old(video)@.len(),
            forall|x: int, y: int|
                self.frame_buffer.on_screen(x, y) ==> #[trigger] final(video)@[self.frame_buffer.word(x, y)]
                    == self.theme.black,
            forall|w: int|
                0 <= w < final(video)@.len() ==> #[trigger] final(video)@[w] == old(video)@[w] || (final(video)@[w]
                    == self.theme.black && exists|x: int, y: int|
                    self.frame_buffer.on_screen(x, y) && w == self.frame_buffer.word(x, y)),
    {
        self.frame_buffer.clear_screen(video, self.theme.black);
    }
}

/// After a NUL at `i`, every longer prefix ends where the prefix before the NUL did.
pub proof fn lemma_after_nul(t0: Terminal, v0: Seq<u32>, glyphs: Seq<u8>, s: Seq<char>, i: int, k: int)
    requires
        0 <= i < s.len(),
        s[i] == '\0',
        i < k <= s.len(),
    ensures
        after_string(t0, v0, glyphs, s.take(k)) == after_string(t0, v0, glyphs, s.take(i)),
    decreases k - i,
{
    let sk = s.take(k);
    assert(sk.drop_last() =~= s.take(k - 1));
    if k == i + 1 {
        assert(sk.last() == '\0');
    } else {
        lemma_after_nul(t0, v0, glyphs, s, i, k - 1);
        assert(s.take(k - 1)[i] == '\0');
        assert(s.take(k - 1).contains('\0'));
    }
}

/// A cursor above the last line stays above it after a glyph is put: the
/// screen scrolls rather than let it reach the last line.
pub proof fn lemma_cursor_stays_on_screen(t: Terminal, video: Seq<u32>, glyphs: Seq<u8>, c: char)
    requires
        t.font.char_size > 0,
        t.curs_pos_y + 1 < (t.frame_buffer.vertical_resolution as int) / (t.font.char_size as int),
    ensures
        ({
            let t1 = after_glyph(t, video, glyphs, c).0;
            t1.curs_pos_y + 1 < (t.frame_buffer.vertical_resolution as int) / (t.font.char_size as int)
        }),
{
}

/// The terminal with its cursor at `(x, y)`.
pub open spec fn at(t: Terminal, x: int, y: int) -> Terminal {
    Terminal { curs_pos_x: x as u16, curs_pos_y: y as u16, ..t }
}

/// Where the cursor is after `s` has been handled: what `put_string` does to
/// the terminal, leaving the frame buffer aside.
pub open spec fn cursor_after(t: Terminal, s: Seq<char>) -> Terminal
    decreases s.len(),
{
    if s.len() == 0 {
        t
    } else {
        let t1 = cursor_after(t, s.drop_last());
        let c = s.last();
        if s.drop_last().contains('\0') || ends_string(c) {
            t1
        } else if c == '\r' {
            Terminal { curs_pos_x: 0, ..t1 }
        } else if c == '\n' {
            Terminal { curs_pos_y: (t1.curs_pos_y + 1) as u16, ..t1 }
        } else {
            if !wraps(t1) {
                Terminal { curs_pos_x: (t1.curs_pos_x + 1) as u16, ..t1 }
            } else if scrolls(t1) {
                Terminal { curs_pos_x: 0, ..t1 }
            } else {
                Terminal { curs_pos_x: 0, curs_pos_y: (t1.curs_pos_y + 1) as u16, ..t1 }
            }
        }
    }
}

/// `can_put_string` over the lengths alone.
pub open spec fn fits_string(t: Terminal, video_len: int, glyphs_len: int, s: Seq<char>) -> bool
    decreases s.len(),
{
    s.len() == 0 || {
        let t1 = cursor_after(t, s.drop_last());
        let c = s.last();
        &&& fits_string(t, video_len, glyphs_len, s.drop_last())
        &&& !s.drop_last().contains('\0') && !ends_string(c) ==> if c == '\r' {
            true
        } else if c == '\n' {
            t1.curs_pos_y + 1 <= u16::MAX
        } else {
            can_put(t1, c, glyphs_len, video_len)
        }
    }
}

/// `put_string` moves the cursor as `cursor_after` says, keeps the frame
/// buffer's length, and its precondition depends on the lengths alone.
pub proof fn lemma_string_parts(t: Terminal, video: Seq<u32>, glyphs: Seq<u8>, s: Seq<char>)
    ensures
        after_string(t, video, glyphs, s).0 == cursor_after(t, s),
        after_string(t, video, glyphs, s).1.len() == video.len(),
        can_put_string(t, video, glyphs, s) == fits_string(t, video.len() as int, glyphs.len() as int, s),
    decreases s.len(),
{
    if s.len() > 0 {
        lemma_string_parts(t, video, glyphs, s.drop_last());
    }
}

/// Handling a longer string takes at least what its prefixes take.
pub proof fn lemma_fits_prefix(t: Terminal, video_len: int, glyphs_len: int, s: Seq<char>, k: int)
    requires
        0 <= k <= s.len(),
        fits_string(t, video_len, glyphs_len, s),
    ensures
        fits_string(t, video_len, glyphs_len, s.take(k)),
    decreases s.len() - k,
{
    if k < s.len() {
        assert(s.drop_last() =~= s.take(s.len() - 1));
        lemma_fits_prefix(t, video_len, glyphs_len, s.drop_last(), k);
        assert(s.drop_last().take(k) =~= s.take(k));
    } else {
        assert(s.take(k) =~= s);
    }
}

impl Terminal {
    /// Whether a glyph can be put with the cursor at `(x, y)`: `can_put`
    /// of the terminal with that cursor.
    fn fits_at(&self, x: u16, y: u16, c: char, glyphs_len: usize, video_len: usize) -> (ok: bool)
        ensures
            ok == can_put(at(*self, x as int, y as int), c, glyphs_len as int, video_len as int),
    {
        let h = self.frame_buffer.horizontal_resolution as u64;
        let v = self.frame_buffer.vertical_resolution as u64;
        let p = self.frame_buffer.pixels_per_scan_line as u64;
        let cs = self.font.char_size as u64;
        let xx = x as u64;
        let yy = y as u64;
        let code = (c as u32) as u64;
        assert((yy + 1) * cs <= 65536 * 255) by (nonlinear_arith)
            requires
                yy + 1 <= 65536,
                cs <= 255,
        ;
        assert(code * cs <= 0x10ffff * 255) by (nonlinear_arith)
            requires
                code <= 0x10ffff,
                cs <= 255,
        ;
        assert(p * v <= 0xffff_ffff * 0xffff_ffff) by (nonlinear_arith)
            requires
                p <= 0xffff_ffff,
                v <= 0xffff_ffff,
        ;
        let wide_enough = h >= 8;
        let cell_fits = yy + 1 <= 0xffff && (yy + 1) * cs + TOP_BUFFER as u64 <= 0xffff && (xx + 1) * 8
            + SIDE_BUFFER as u64 <= 0xffff;
        let glyph_fits = cs == 0 || code * cs + cs < glyphs_len as u64;
        let screen_fits = p >= h && p * v + h < video_len as u64;
        let wrap = xx + 2 >= h / 8;
        let wrap_fits = !wrap || (cs > 0 && v / cs >= 1);
        proof {
            let t = at(*self, x as int, y as int);
            assert(wraps(t) == wrap);
            assert(glyph_offset(c, t.font.char_size, t.font.char_size) == code * cs + cs);
        }
        wide_enough && cell_fits && glyph_fits && screen_fits && wrap_fits
    }

    /// Whether `put_char` of `c` can be called with `glyphs_len` glyph bytes
    /// and `video_len` words.
    pub fn can_put_char(&self, c: char, glyphs_len: usize, video_len: usize) -> (ok: bool)
        ensures
            ok == can_put(*self, c, glyphs_len as int, video_len as int),
    {
        proof {
            assert(at(*self, self.curs_pos_x as int, self.curs_pos_y as int) == *self);
        }
        self.fits_at(self.curs_pos_x, self.curs_pos_y, c, glyphs_len, video_len)
    }

    /// Whether `put_string` of `string` can be called on these glyphs and words.
    pub fn can_put_string(&self, video: &Vec<u32>, glyphs: &Vec<u8>, string: &str) -> (ok: bool)
        ensures
            ok == can_put_string(*self, video@, glyphs@, string@),
    {
        let ghost t0 = *self;
        let ghost s = string@;
        let ghost vl = video@.len() as int;
        let ghost gl = glyphs@.len() as int;
        let mut x: u16 = self.curs_pos_x;
        let mut y: u16 = self.curs_pos_y;
        let mut stopped: bool = false;
        proof {
            lemma_string_parts(t0, video@, glyphs@, s);
            assert(s.take(0) =~= Seq::<char>::empty());
        }
        for c in it: string.chars()
            invariant
                it.seq() == s,
                t0 == *self,
                s == string@,
                vl == video@.len(),
                gl == glyphs@.len(),
                can_put_string(t0, video@, glyphs@, s) == fits_string(t0, vl, gl, s),
                fits_string(t0, vl, gl, s.take(it.index() as int)),
                cursor_after(t0, s.take(it.index() as int)) == at(t0, x as int, y as int),
                stopped == s.take(it.index() as int).contains('\0'),
        {
            let ghost i = it.index() as int;
            let ghost pre = s.take(i);
            let ghost next = s.take(i + 1);
            proof {
                assert(next.drop_last() =~= pre);
                assert(next.last() == c);
            }
            if !stopped && c != '\0' {
                if c == '\r' {
                    x = 0;
                } else if c == '\n' {
                    if y == 0xffff {
                        proof {
                            if fits_string(t0, vl, gl, s) {
                                lemma_fits_prefix(t0, vl, gl, s, i + 1);
                            }
                        }
                        return false;
                    }
                    y = y + 1;
                } else {
                    if !self.fits_at(x, y, c, glyphs.len(), video.len()) {
                        proof {
                            if fits_string(t0, vl, gl, s) {
                                lemma_fits_prefix(t0, vl, gl, s, i + 1);
                            }
                        }
                        return false;
                    }
                    let h = self.frame_buffer.horizontal_resolution;
                    let v = self.frame_buffer.vertical_resolution;
                    let cs = self.font.char_size as u32;
                    if x as u32 + 2 < h / 8 {
                        x = x + 1;
                    } else {
                        x = 0;
                        if !(y as u32 + 2 >= v / cs) {
                            y = y + 1;
                        }
                    }
                }
            } else {
                stopped = true;
                proof {
                    assert(next.contains('\0')) by {
                        if c == '\0' {
                            assert(next[i] == '\0');
                        } else {
                            let j = choose|j: int| 0 <= j < pre.len() && pre[j] == '\0';
                            assert(next[j] == '\0');
                        }
                    }
                }
            }
            proof {
                if !stopped {
                    assert(!next.contains('\0')) by {
                        if next.contains('\0') {
                            let j = choose|j: int| 0 <= j < next.len() && next[j] == '\0';
                            if j < i {
                                assert(pre[j] == '\0');
                            }
                        }
                    }
                }
            }
        }
        proof {
            assert(s.take(s.len() as int) =~= s);
        }
        true
    }

    /// Whether `clear_screen` can be called on `video_len` words: every
    /// visible pixel lies within them.
    pub fn can_clear(&self, video_len: usize) -> (ok: bool)
        ensures
            ok == forall|x: int, y: int|
                self.frame_buffer.on_screen(x, y) ==> self.frame_buffer.draws(x, y) && 0
                    <= #[trigger] self.frame_buffer.word(x, y) < video_len,
    {
        let h = self.frame_buffer.horizontal_resolution as u64;
        let v = self.frame_buffer.vertical_resolution as u64;
        let p = self.frame_buffer.pixels_per_scan_line as u64;
        if h == 0 || v == 0 {
            return true;
        }
        assert(p * (v - 1) <= 0xffff_ffff * 0xffff_ffff) by (nonlinear_arith)
            requires
                p <= 0xffff_ffff,
                v - 1 <= 0xffff_ffff,
        ;
        let ok = p * (v - 1) + (h - 1) < video_len as u64;
        proof {
            let fb = self.frame_buffer;
            if ok {
                assert forall|x: int, y: int| fb.on_screen(x, y) implies fb.draws(x, y) && 0
                    <= #[trigger] fb.word(x, y) < video_len by {
                    assert(p * y <= p * (v - 1)) by (nonlinear_arith)
                        requires
                            0 <= y <= v - 1,
                            0 <= p,
                    ;
                    assert(0 <= p * y) by (nonlinear_arith)
                        requires
                            0 <= y,
                            0 <= p,
                    ;
                }
            } else {
                assert(fb.on_screen(h - 1, v - 1));
                assert(fb.word(h - 1, v - 1) == p * (v - 1) + (h - 1));
            }
        }
        ok
    }
}

} // verus!
