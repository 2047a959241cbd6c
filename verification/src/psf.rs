//! PC Screen Font (version 1) fonts: the file header, loading the glyphs,
//! and reading a glyph's rows.
use vstd::prelude::*;
use crate::uefi::Status;
use crate::graphics::glyph_bit;
use crate::kernel_graphics::PutPixel;

verus! {

/// The two magic bytes a PSF1 file starts with.
pub const PSF_1_MAG_0: u8 = 0x36;
pub const PSF_1_MAG_1: u8 = 0x04;

/// The header of a PSF1 file: magic bytes, mode, and bytes per glyph.
#[derive(Clone, Copy, Debug)]
pub struct Header {
    pub magic_bytes: [u8; 2],
    pub font_mode: u8,
    pub char_size: u8,
}

/// The header as the boot loader reads it.
pub type Psf1Header = Header;

/// Where the glyphs of the console font lie, and how many bytes (rows) each has.
#[derive(Clone, Copy, PartialEq, Eq, Structural, Debug)]
pub struct FontInfo {
    pub char_size: u8,
    pub glyph_buffer_base_address: u64,
}

/// The number of glyph bytes a font with this mode and glyph size has:
/// mode 1 fonts hold 512 glyphs, the others 256.
pub open spec fn glyph_bytes(font_mode: u8, char_size: u8) -> int {
    if font_mode == 1 {
        char_size * 512
    } else {
        char_size * 256
    }
}

/// Whether a file starts with the PSF1 magic bytes.
pub open spec fn has_magic(file: Seq<u8>) -> bool {
    file[0] == PSF_1_MAG_0 && file[1] == PSF_1_MAG_1
}

impl Header {
    /// The header at the start of a font file.
    pub fn parse(file: &Vec<u8>) -> (header: Self)
        requires
            file@.len() >= 4,
        ensures
            header.magic_bytes@ == seq![file@[0], file@[1]],
            header.font_mode == file@[2],
            header.char_size == file@[3],
    {
        let header = Header { magic_bytes: [file[0], file[1]], font_mode: file[2], char_size: file[3] };
        assert(header.magic_bytes@ =~= seq![file@[0], file@[1]]);
        header
    }

    /// The number of glyph bytes that follow the header.
    pub fn glyph_buffer_size(&self) -> (size: usize)
        ensures
            size == glyph_bytes(self.font_mode, self.char_size),
    {
        if self.font_mode == 1 {
            self.char_size as usize * 512
        } else {
            self.char_size as usize * 256
        }
    }
}

/// Loads a PSF1 font file: a file without the magic bytes is refused with
/// `Aborted`; otherwise the glyph bytes that follow the header are copied
/// into the buffer at `glyph_buffer`, and the font is described by its glyph
/// size and that buffer. The bytes to copy are returned with the description.
pub fn load_font(file: &Vec<u8>, glyph_buffer: u64) -> (res: Result<(FontInfo, Vec<u8>), Status>)
    requires
        file@.len() >= 4,
        has_magic(file@) ==> file@.len() >= 4 + glyph_bytes(file@[2], file@[3]),
    ensures
        match res {
            Ok((info, glyphs)) => {
                &&& has_magic(file@)
                &&& info.char_size == file@[3]
                &&& info.glyph_buffer_base_address == glyph_buffer
                &&& glyphs@ == file@.subrange(4, 4 + glyph_bytes(file@[2], file@[3]))
            },
            Err(status) => !has_magic(file@) && status == Status::Aborted,
        },
{
    let header = Header::parse(file);
    if header.magic_bytes[0] != PSF_1_MAG_0 || header.magic_bytes[1] != PSF_1_MAG_1 {
        return Err(Status::Aborted);
    }
    let glyph_buffer_size: usize = header.glyph_buffer_size();
    let mut glyphs: Vec<u8> = Vec::new();
    let mut i: usize = 0;
    while i < glyph_buffer_size
        invariant
            glyph_buffer_size == glyph_bytes(file@[2], file@[3]),
            file@.len() >= 4 + glyph_buffer_size,
            i <= glyph_buffer_size,
            glyphs@ == file@.subrange(4, 4 + i),
        decreases glyph_buffer_size - i,
    {
        glyphs.push(file[4 + i]);
        i = i + 1;
        assert(glyphs@ =~= file@.subrange(4, 4 + i));
    }
    Ok((FontInfo { char_size: header.char_size, glyph_buffer_base_address: glyph_buffer }, glyphs))
}

/// A loaded PSF1 font holds one glyph of `char_size` bytes for each of its
/// characters: 512 of them when the font mode is 1 (the 512-glyph mode), 256
/// in any other mode; so a mode-1 font loads twice the bytes of another font
/// with the same glyph size, and each glyph of every character the font has
/// lies within the bytes loaded.
pub proof fn lemma_psf1_glyph_count(file: Seq<u8>, glyphs: Seq<u8>, c: int, row: int)
    requires
        file.len() >= 4,
        glyphs == file.subrange(4, 4 + glyph_bytes(file[2], file[3])),
        file.len() >= 4 + glyph_bytes(file[2], file[3]),
    ensures
        file[2] == 1 ==> glyphs.len() == 512 * file[3],
        file[2] != 1 ==> glyphs.len() == 256 * file[3],
        glyph_bytes(1, file[3]) == 2 * glyph_bytes(0, file[3]),
        (0 <= c < 256 || (file[2] == 1 && 0 <= c < 512)) && 0 <= row < file[3] ==> c * file[3] + row
            < glyphs.len(),
{
    if 0 <= row < file[3] {
        if 0 <= c < 256 {
            assert(c * file[3] + row < 256 * file[3]) by (nonlinear_arith)
                requires
                    0 <= c < 256,
                    0 <= row < file[3],
            ;
        }
        if 0 <= c < 512 {
            assert(c * file[3] + row < 512 * file[3]) by (nonlinear_arith)
                requires
                    0 <= c < 512,
                    0 <= row < file[3],
            ;
        }
    }
}

/// The offset from the glyph buffer of row `position` of a character's glyph.
pub open spec fn glyph_offset(c: char, char_size: u8, position: u8) -> int {
    (c as u32) * char_size + position
}

impl FontInfo {
    /// The width of every glyph, in pixels.
    pub const CHAR_WIDTH: u8 = 8;

    /// A font of empty glyphs at address zero.
    pub fn const_default() -> (f: Self)
        ensures
            f.char_size == 0,
            f.glyph_buffer_base_address == 0,
    {
        FontInfo { char_size: 0, glyph_buffer_base_address: 0 }
    }

    /// Row `position` of the glyph of `c`, read from the glyph buffer's bytes `glyphs`.
    pub fn get_char_glyph_from_buffer(&self, glyphs: &Vec<u8>, c: char, position: u8) -> (row: u8)
        requires
            glyph_offset(c, self.char_size, position) < glyphs@.len(),
        ensures
            row == glyphs@[glyph_offset(c, self.char_size, position)],
    {
        let code = (c as u32) as usize;
        let size = self.char_size as usize;
        let n = glyphs.len();
        assert(code * size + position <= n);
        let offset = code * size + position as usize;
        glyphs[offset]
    }
}

/// The column of pixel `n` of a glyph drawn at column `x`, pixels counted row by row.
pub open spec fn cell_x(x: int, n: int) -> int {
    x + n % 8
}

/// The line of pixel `n` of a glyph drawn at line `y`, pixels counted row by row.
pub open spec fn cell_y(y: int, n: int) -> int {
    y + n / 8
}

/// The colour of pixel `n` of the glyph of `c`.
pub open spec fn cell_colour(glyphs: Seq<u8>, font: FontInfo, c: char, n: int, fg: u32, bg: u32) -> u32 {
    if glyph_bit(glyphs, font, c, n / 8, n % 8) {
        fg
    } else {
        bg
    }
}

/// The words after the first `n` pixels of the glyph of `c` drawn at
/// `(x, y)` have been put, the pixels `graphics` does not accept being skipped.
pub open spec fn rendered<T: PutPixel>(
    graphics: T,
    video: Seq<u32>,
    x: int,
    y: int,
    glyphs: Seq<u8>,
    font: FontInfo,
    c: char,
    fg: u32,
    bg: u32,
    n: int,
) -> Seq<u32>
    decreases n,
{
    if n <= 0 {
        video
    } else {
        let prev = rendered(graphics, video, x, y, glyphs, font, c, fg, bg, n - 1);
        let m = n - 1;
        if graphics.accepts(cell_x(x, m), cell_y(y, m)) {
            prev.update(graphics.word(cell_x(x, m), cell_y(y, m)), cell_colour(glyphs, font, c, m, fg, bg))
        } else {
            prev
        }
    }
}

/// Putting accepted pixels leaves the number of words.
pub proof fn lemma_rendered_len<T: PutPixel>(
    graphics: T,
    video: Seq<u32>,
    x: int,
    y: int,
    glyphs: Seq<u8>,
    font: FontInfo,
    c: char,
    fg: u32,
    bg: u32,
    n: int,
)
    requires
        forall|px: int, py: int| graphics.accepts(px, py) ==> 0 <= #[trigger] graphics.word(px, py) < video.len(),
    ensures
        rendered(graphics, video, x, y, glyphs, font, c, fg, bg, n).len() == video.len(),
    decreases n,
{
    if n > 0 {
        lemma_rendered_len(graphics, video, x, y, glyphs, font, c, fg, bg, n - 1);
    }
}

/// Drawing a character through something that puts pixels.
pub trait RenderChar {
    /// Whether the glyph of `c` can be drawn at `(x, y)` with `glyphs_len` glyph bytes.
    spec fn can_render(&self, glyphs_len: int, c: char, x: u32, y: u32) -> bool;

    /// Draws the glyph of `c` with its top left corner at `(x, y)`; stops
    /// with the error of the first pixel that is refused.
    fn put_char<T: PutPixel>(
        &self,
        glyphs: &Vec<u8>,
        graphics: &T,
        video: &mut Vec<u32>,
        x: &u32,
        y: &u32,
        c: char,
        forground_color: u32,
        background_color: u32,
    ) -> (r: Result<(), crate::kernel_graphics::Status>)
        requires
            self.can_render(glyphs@.len() as int, c, *x, *y),
            forall|px: int, py: int| graphics.accepts(px, py) ==> 0 <= #[trigger] graphics.word(px, py) < old(video)@.len(),
    ;
}

impl RenderChar for FontInfo {
    open spec fn can_render(&self, glyphs_len: int, c: char, x: u32, y: u32) -> bool {
        &&& x + 8 <= u32::MAX
        &&& y + self.char_size <= u32::MAX
        &&& glyph_offset(c, self.char_size, self.char_size) < glyphs_len
    }

    /// Draws the glyph row by row, eight pixels to a row: set bits in
    /// `forground_color`, clear ones in `background_color`.
    fn put_char<T: PutPixel>(
        &self,
        glyphs: &Vec<u8>,
        graphics: &T,
        video: &mut Vec<u32>,
        x: &u32,
        y: &u32,
        c: char,
        forground_color: u32,
        background_color: u32,
    ) -> (r: Result<(), crate::kernel_graphics::Status>)
        ensures
            r is Ok <==> forall|n: int|
                0 <= n < 8 * self.char_size ==> #[trigger] graphics.accepts(cell_x(*x as int, n), cell_y(*y as int, n)),
            r is Ok ==> final(video)@ == rendered(
                *graphics,
                old(video)@,
                *x as int,
                *y as int,
                glyphs@,
                *self,
                c,
                forground_color,
                background_color,
                8 * self.char_size,
            ),
            r is Err ==> exists|m: int|
                0 <= m < 8 * self.char_size && !graphics.accepts(cell_x(*x as int, m), cell_y(*y as int, m)) && (
                forall|n: int|
                    0 <= n < m ==> #[trigger] graphics.accepts(cell_x(*x as int, n), cell_y(*y as int, n)))
                    && final(video)@ == #[trigger] rendered(
                    *graphics,
                    old(video)@,
                    *x as int,
                    *y as int,
                    glyphs@,
                    *self,
                    c,
                    forground_color,
                    background_color,
                    m,
                ),
    {
        let ghost start = video@;
        let ghost g = *graphics;
        let ghost x0 = *x as int;
        let ghost y0 = *y as int;
        let ghost cs = self.char_size as int;
        let mut row_bits: u8 = self.get_char_glyph_from_buffer(glyphs, c, 0);
        let end_y = *y + self.char_size as u32;
        let mut py: u32 = *y;
        while py < end_y
            invariant
                g == *graphics,
                start == old(video)@,
                x0 == *x,
                y0 == *y,
                cs == self.char_size,
                end_y == y0 + cs,
                x0 + 8 <= u32::MAX,
                y0 <= py <= end_y,
                glyph_offset(c, self.char_size, self.char_size) < glyphs@.len(),
                py < end_y ==> row_bits == glyphs@[glyph_offset(c, self.char_size, (py - y0) as u8)],
                forall|px: int, qy: int| g.accepts(px, qy) ==> 0 <= #[trigger] g.word(px, qy) < start.len(),
                video@ == rendered(g, start, x0, y0, glyphs@, *self, c, forground_color, background_color, 8 * (py - y0)),
                forall|n: int| 0 <= n < 8 * (py - y0) ==> #[trigger] g.accepts(cell_x(x0, n), cell_y(y0, n)),
            decreases end_y - py,
        {
            let end_x = *x + 8;
            let mut px: u32 = *x;
            while px < end_x
                invariant
                    g == *graphics,
                    start == old(video)@,
                    x0 == *x,
                    y0 == *y,
                    cs == self.char_size,
                    end_y == y0 + cs,
                    end_x == x0 + 8,
                    y0 <= py < end_y,
                    x0 <= px <= end_x,
                    row_bits == glyphs@[glyph_offset(c, self.char_size, (py - y0) as u8)],
                    forall|qx: int, qy: int| g.accepts(qx, qy) ==> 0 <= #[trigger] g.word(qx, qy) < start.len(),
                    video@ == rendered(
                        g,
                        start,
                        x0,
                        y0,
                        glyphs@,
                        *self,
                        c,
                        forground_color,
                        background_color,
                        8 * (py - y0) + (px - x0),
                    ),
                    forall|n: int|
                        0 <= n < 8 * (py - y0) + (px - x0) ==> #[trigger] g.accepts(cell_x(x0, n), cell_y(y0, n)),
                decreases end_x - px,
            {
                let ghost n = 8 * (py - y0) + (px - x0);
                proof {
                    assert(cell_x(x0, n) == px && cell_y(y0, n) == py);
                    assert(n / 8 == py - y0 && n % 8 == px - x0);
                    lemma_rendered_len(g, start, x0, y0, glyphs@, *self, c, forground_color, background_color, n);
                }
                let colour: u32 = if row_bits & (0x80u8 >> ((px - *x) as u8)) != 0 {
                    forground_color
                } else {
                    background_color
                };
                proof {
                    assert(colour == cell_colour(glyphs@, *self, c, n, forground_color, background_color));
                }
                match graphics.put_pixel(video, px, py, colour) {
                    Ok(_) => {},
                    Err(err) => {
                        proof {
                            assert(8 * (py - y0) + (px - x0) < 8 * cs) by (nonlinear_arith)
                                requires
                                    py - y0 < cs,
                                    px - x0 < 8,
                            ;
                            assert(0 <= n < 8 * cs && !g.accepts(cell_x(x0, n), cell_y(y0, n)) && (forall|k: int|
                                0 <= k < n ==> #[trigger] g.accepts(cell_x(x0, k), cell_y(y0, k))) && video@ == rendered(
                                g,
                                start,
                                x0,
                                y0,
                                glyphs@,
                                *self,
                                c,
                                forground_color,
                                background_color,
                                n,
                            ));
                        }
                        return Err(err);
                    },
                }
                px = px + 1;
            }
            row_bits = self.get_char_glyph_from_buffer(glyphs, c, (py - *y + 1) as u8);
            py = py + 1;
        }
        proof {
            assert forall|n: int| 0 <= n < 8 * cs implies #[trigger] g.accepts(cell_x(x0, n), cell_y(y0, n)) by {
                assert(8 * (py - y0) == 8 * cs);
            }
        }
        Ok(())
    }
}

} // verus!
