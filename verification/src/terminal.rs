//! The kernel's text terminal over the graphics driver's frame buffer: a
//! cursor in character cells, the colours of a theme, and printing text and
//! numbers.
use vstd::prelude::*;
use crate::boot::BootInfo;
use crate::colour::{Colour, colour_of_hex};
use crate::graphics::{FrameBuffer, Functions, PsfFontFunctions, glyph_cell, glyph_drawn, hex_of, screen_filled};
use crate::psf::{FontInfo, glyph_offset};

verus! {

/// The colours of the terminal, and whether it is dark.
#[derive(Clone, Copy)]
pub struct Theme {
    pub dark_mode: bool,
    pub white: Colour,
    pub black: Colour,
    pub red: Colour,
    pub green: Colour,
    pub blue: Colour,
    pub yellow: Colour,
    pub orange: Colour,
    pub purple: Colour,
    pub gray: Colour,
    pub dark_gray: Colour,
    pub light_red: Colour,
    pub light_green: Colour,
    pub light_blue: Colour,
    pub light_yellow: Colour,
    pub light_orange: Colour,
    pub light_purple: Colour,
}

/// A text terminal: the cursor (in character cells), the theme, the font,
/// the frame buffer and the colours text is drawn in.
pub struct Terminal {
    pub pos_x: u32,
    pub pos_y: u32,
    pub theme: Theme,
    pub font: FontInfo,
    pub frame_buffer: FrameBuffer,
    pub fg_colour: Colour,
    pub bg_colour: Colour,
}

/// Whether a character is drawn (all but space, tab, carriage return and line feed).
pub open spec fn prints(c: char) -> bool {
    c != ' ' && c != '\t' && c != '\r' && c != '\n'
}

/// The cursor after `c`, before it wraps: space and drawn characters move
/// one cell right, tab four, carriage return back to the first column, line
/// feed one line down.
pub open spec fn cursor_moved(pos_x: int, pos_y: int, c: char) -> (int, int) {
    if c == ' ' {
        (pos_x + 1, pos_y)
    } else if c == '\t' {
        (pos_x + 4, pos_y)
    } else if c == '\r' {
        (0, pos_y)
    } else if c == '\n' {
        (pos_x, pos_y + 1)
    } else {
        (pos_x + 1, pos_y)
    }
}

/// The cursor after `c` on a screen `h` pixels wide: a cursor whose cell
/// starts at or past the right edge goes to the start of the next line.
pub open spec fn cursor_after(pos_x: int, pos_y: int, c: char, h: int) -> (int, int) {
    let (x, y) = cursor_moved(pos_x, pos_y, c);
    if x * 8 >= h {
        (0, y + 1)
    } else {
        (x, y)
    }
}

/// What putting `c` takes: the cursor stays within 32 bits, and a drawn
/// glyph lies within the font's bytes and the frame buffer's words.
pub open spec fn can_put(t: Terminal, c: char, glyphs_len: int, video_len: int) -> bool {
    let (x, y) = cursor_moved(t.pos_x as int, t.pos_y as int, c);
    let cs = t.font.char_size as int;
    &&& x * 8 <= u32::MAX
    &&& y + 1 <= u32::MAX
    &&& prints(c) ==> {
        &&& t.pos_x * 8 + 8 <= u32::MAX
        &&& t.pos_y * cs + cs <= u32::MAX
        &&& glyph_offset(c, t.font.char_size, t.font.char_size) < glyphs_len
        &&& cs > 0 ==> glyph_cell(t.frame_buffer.pixels_per_scan_line, t.pos_x * 8, t.pos_y * cs, cs - 1, 7)
            < video_len
    }
}

/// The terminal and the frame buffer's words after putting `c`.
pub open spec fn after_put(t: Terminal, video: Seq<u32>, glyphs: Seq<u8>, c: char) -> (Terminal, Seq<u32>) {
    let (x, y) = cursor_after(t.pos_x as int, t.pos_y as int, c, t.frame_buffer.horizontal_resolution as int);
    let v = if prints(c) {
        glyph_drawn(
            video,
            t.frame_buffer.pixels_per_scan_line,
            t.pos_x * 8,
            t.pos_y * t.font.char_size,
            glyphs,
            t.font,
            c,
            hex_of(t.fg_colour),
            hex_of(t.bg_colour),
        )
    } else {
        video
    };
    (Terminal { pos_x: x as u32, pos_y: y as u32, ..t }, v)
}

/// The terminal and the frame buffer's words after putting each character of `s` in turn.
pub open spec fn after_print(t: Terminal, video: Seq<u32>, glyphs: Seq<u8>, s: Seq<char>) -> (Terminal, Seq<u32>)
    decreases s.len(),
{
    if s.len() == 0 {
        (t, video)
    } else {
        let (t1, v1) = after_print(t, video, glyphs, s.drop_last());
        after_put(t1, v1, glyphs, s.last())
    }
}

/// Whether each character of `s` can be put in turn.
pub open spec fn can_print(t: Terminal, video: Seq<u32>, glyphs: Seq<u8>, s: Seq<char>) -> bool
    decreases s.len(),
{
    s.len() == 0 || {
        &&& can_print(t, video, glyphs, s.drop_last())
        &&& can_put(
            after_print(t, video, glyphs, s.drop_last()).0,
            s.last(),
            glyphs.len() as int,
            after_print(t, video, glyphs, s.drop_last()).1.len() as int,
        )
    }
}

/// Fully transparent black, the colour of a terminal not yet set up.
pub open spec fn no_colour() -> Colour {
    Colour { red: 0, green: 0, blue: 0, alpha: 0 }
}

/// The character of a decimal digit.
pub open spec fn digit_char(d: int) -> char {
    (48 + d) as char
}

/// The decimal digits of `n`, most significant first.
pub open spec fn decimal(n: nat) -> Seq<char>
    decreases n,
{
    if n < 10 {
        seq![digit_char(n as int)]
    } else {
        decimal(n / 10).push(digit_char((n % 10) as int))
    }
}

/// Ten to the power `k`.
pub open spec fn pow10(k: nat) -> nat
    decreases k,
{
    if k == 0 {
        1
    } else {
        10 * pow10((k - 1) as nat)
    }
}

/// Printing a prefix of what can be printed can be done.
pub proof fn lemma_can_print_prefix(t: Terminal, video: Seq<u32>, glyphs: Seq<u8>, s: Seq<char>, k: int)
    requires
        can_print(t, video, glyphs, s),
        0 <= k <= s.len(),
    ensures
        can_print(t, video, glyphs, s.take(k)),
    decreases s.len(),
{
    if k == s.len() {
        assert(s.take(k) =~= s);
    } else {
        lemma_can_print_prefix(t, video, glyphs, s.drop_last(), k);
        assert(s.drop_last().take(k) =~= s.take(k));
    }
}

/// Putting a character leaves the length of the frame buffer's words.
pub proof fn lemma_after_print_len(t: Terminal, video: Seq<u32>, glyphs: Seq<u8>, s: Seq<char>)
    ensures
        after_print(t, video, glyphs, s).1.len() == video.len(),
    decreases s.len(),
{
    if s.len() > 0 {
        lemma_after_print_len(t, video, glyphs, s.drop_last());
    }
}

/// Ten to a power is at least one, and at least ten for a positive power.
pub proof fn lemma_pow10_pos(k: nat)
    ensures
        pow10(k) >= 1,
        k > 0 ==> pow10(k) >= 10,
    decreases k,
{
    if k > 0 {
        lemma_pow10_pos((k - 1) as nat);
    }
}

/// Ten to a power grows with the power, at least tenfold for a larger one.
pub proof fn lemma_pow10_mono(k: nat, m: nat)
    requires
        k < m,
    ensures
        10 * pow10(k) <= pow10(m),
    decreases m,
{
    lemma_pow10_pos((m - 1) as nat);
    if k + 1 < m {
        lemma_pow10_mono(k, (m - 1) as nat);
    }
}

/// Digit `q` of a number is read the same from its last digits.
pub proof fn lemma_digit_step(n: nat, q: nat)
    requires
        q >= 1,
    ensures
        (n % (10 * q)) / q == (n / q) % 10,
        (n % (10 * q)) % q == n % q,
        (n / q) % 10 < 10,
{
    vstd::arithmetic::div_mod::lemma_breakdown(n as int, q as int, 10);
    vstd::arithmetic::div_mod::lemma_mod_bound(n as int, q as int);
    vstd::arithmetic::div_mod::lemma_mod_bound(n as int / q as int, 10);
    assert(q * ((n / q) % 10) == ((n / q) % 10) * q) by (nonlinear_arith);
    assert(q * 10 == 10 * q);
    vstd::arithmetic::div_mod::lemma_fundamental_div_mod_converse(
        (n % (10 * q)) as int,
        q as int,
        ((n / q) % 10) as int,
        (n % q) as int,
    );
    vstd::arithmetic::div_mod::lemma_mod_mod(n as int, q as int, 10);
}

/// `n` has `decimal(n).len()` digits, and digit `j` of it is the last digit
/// of `n / 10^(len - 1 - j)`.
pub proof fn lemma_decimal(n: nat)
    ensures
        decimal(n).len() >= 1,
        n < pow10(decimal(n).len()),
        decimal(n).len() > 1 ==> pow10((decimal(n).len() - 1) as nat) <= n,
        forall|j: int|
            0 <= j < decimal(n).len() ==> #[trigger] decimal(n)[j] == digit_char(
                ((n / pow10((decimal(n).len() - 1 - j) as nat)) % 10) as int,
            ),
    decreases n,
{
    assert(pow10(0) == 1);
    vstd::arithmetic::div_mod::lemma_div_basics(n as int);
    if n >= 10 {
        let m = n / 10;
        lemma_decimal(m);
        let l = decimal(m).len();
        assert(decimal(n) == decimal(m).push(digit_char((n % 10) as int)));
        assert forall|j: int| 0 <= j < l + 1 implies #[trigger] decimal(n)[j] == digit_char(
            ((n / pow10((l - j) as nat)) % 10) as int,
        ) by {
            if j < l {
                let k = (l - 1 - j) as nat;
                lemma_pow10_pos(k);
                vstd::arithmetic::div_mod::lemma_div_denominator(n as int, 10, pow10(k) as int);
                assert(pow10((k + 1) as nat) == 10 * pow10(k));
                assert(decimal(n)[j] == decimal(m)[j]);
            }
        }
        assert(pow10((l + 1) as nat) == 10 * pow10(l));
        assert(pow10(l) == 10 * pow10((l - 1) as nat));
    } else {
        assert(pow10(1) == 10 * pow10(0));
    }
}

impl Terminal {
    /// A terminal of no size, with every colour transparent black.
    pub fn const_default() -> (t: Self)
        ensures
            t.pos_x == 0 && t.pos_y == 0,
            t.frame_buffer == (FrameBuffer {
                base_address: 0,
                pixels_per_scan_line: 0,
                horizontal_resolution: 0,
                vertical_resolution: 0,
            }),
            t.font.char_size == 0 && t.font.glyph_buffer_base_address == 0,
            t.fg_colour == no_colour(),
            t.bg_colour == no_colour(),
            t.theme.dark_mode,
            t.theme.white == no_colour(),
            t.theme.black == no_colour(),
            t.theme.red == no_colour(),
            t.theme.green == no_colour(),
            t.theme.blue == no_colour(),
            t.theme.yellow == no_colour(),
            t.theme.orange == no_colour(),
            t.theme.purple == no_colour(),
            t.theme.gray == no_colour(),
            t.theme.dark_gray == no_colour(),
            t.theme.light_red == no_colour(),
            t.theme.light_green == no_colour(),
            t.theme.light_blue == no_colour(),
            t.theme.light_yellow == no_colour(),
            t.theme.light_orange == no_colour(),
            t.theme.light_purple == no_colour(),
    {
        Terminal {
            pos_x: 0,
            pos_y: 0,
            frame_buffer: FrameBuffer::const_default(),
            font: FontInfo::const_default(),
            fg_colour: Colour::const_default(),
            bg_colour: Colour::const_default(),
            theme: Theme {
                dark_mode: true,
                white: Colour::const_default(),
                black: Colour::const_default(),
                red: Colour::const_default(),
                green: Colour::const_default(),
                blue: Colour::const_default(),
                yellow: Colour::const_default(),
                orange: Colour::const_default(),
                purple: Colour::const_default(),
                gray: Colour::const_default(),
                dark_gray: Colour::const_default(),
                light_red: Colour::const_default(),
                light_green: Colour::const_default(),
                light_blue: Colour::const_default(),
                light_yellow: Colour::const_default(),
                light_orange: Colour::const_default(),
                light_purple: Colour::const_default(),
            },
        }
    }

    /// A terminal at the top left of `frame_buffer`, with the boot loader's
    /// font and theme: light text on dark in dark mode, dark on light otherwise.
    pub fn new(boot_info: &BootInfo, frame_buffer: FrameBuffer) -> (t: Self)
        ensures
            t.pos_x == 0 && t.pos_y == 0,
            t.frame_buffer == frame_buffer,
            t.font == boot_info.font,
            t.fg_colour == colour_of_hex(
                if boot_info.graphics.theme.dark_mode {
                    boot_info.graphics.theme.white
                } else {
                    boot_info.graphics.theme.black
                },
            ),
            t.bg_colour == colour_of_hex(
                if boot_info.graphics.theme.dark_mode {
                    boot_info.graphics.theme.black
                } else {
                    boot_info.graphics.theme.white
                },
            ),
            t.theme.dark_mode == boot_info.graphics.theme.dark_mode,
            t.theme.white == colour_of_hex(boot_info.graphics.theme.white),
            t.theme.black == colour_of_hex(boot_info.graphics.theme.black),
            t.theme.red == colour_of_hex(boot_info.graphics.theme.red),
            t.theme.green == colour_of_hex(boot_info.graphics.theme.green),
            t.theme.blue == colour_of_hex(boot_info.graphics.theme.blue),
            t.theme.yellow == colour_of_hex(boot_info.graphics.theme.yellow),
            t.theme.orange == colour_of_hex(boot_info.graphics.theme.orange),
            t.theme.purple == colour_of_hex(boot_info.graphics.theme.purple),
            t.theme.gray == colour_of_hex(boot_info.graphics.theme.gray),
            t.theme.dark_gray == colour_of_hex(boot_info.graphics.theme.dark_gray),
            t.theme.light_red == colour_of_hex(boot_info.graphics.theme.light_red),
            t.theme.light_green == colour_of_hex(boot_info.graphics.theme.light_green),
            t.theme.light_blue == colour_of_hex(boot_info.graphics.theme.light_blue),
            t.theme.light_yellow == colour_of_hex(boot_info.graphics.theme.light_yellow),
            t.theme.light_orange == colour_of_hex(boot_info.graphics.theme.light_orange),
            t.theme.light_purple == colour_of_hex(boot_info.graphics.theme.light_purple),
    {
        let theme = &boot_info.graphics.theme;
        Terminal {
            pos_x: 0,
            pos_y: 0,
            frame_buffer,
            font: boot_info.font,
            fg_colour: if theme.dark_mode {
                Colour::from_hex(theme.white)
            } else {
                Colour::from_hex(theme.black)
            },
            bg_colour: if theme.dark_mode {
                Colour::from_hex(theme.black)
            } else {
                Colour::from_hex(theme.white)
            },
            theme: Theme {
                dark_mode: theme.dark_mode,
                white: Colour::from_hex(theme.white),
                black: Colour::from_hex(theme.black),
                red: Colour::from_hex(theme.red),
                green: Colour::from_hex(theme.green),
                blue: Colour::from_hex(theme.blue),
                yellow: Colour::from_hex(theme.yellow),
                orange: Colour::from_hex(theme.orange),
                purple: Colour::from_hex(theme.purple),
                gray: Colour::from_hex(theme.gray),
                dark_gray: Colour::from_hex(theme.dark_gray),
                light_red: Colour::from_hex(theme.light_red),
                light_green: Colour::from_hex(theme.light_green),
                light_blue: Colour::from_hex(theme.light_blue),
                light_yellow: Colour::from_hex(theme.light_yellow),
                light_orange: Colour::from_hex(theme.light_orange),
                light_purple: Colour::from_hex(theme.light_purple),
            },
        }
    }

    /// Puts `c` at the cursor: space, tab, carriage return and line feed
    /// move the cursor, any other character is drawn in the terminal's
    /// colours and moves it one cell right; a cursor past the right edge
    /// wraps to the next line. `video` holds the frame buffer's words,
    /// `glyphs` the font's glyph bytes.
    pub fn put_char(&mut self, video: &mut Vec<u32>, glyphs: &Vec<u8>, c: char)
        requires
            can_put(*old(self), c, glyphs@.len() as int, old(video)@.len() as int),
        ensures
            (*final(self), final(video)@) == after_put(*old(self), old(video)@, glyphs@, c),
    {
        if c == ' ' {
            self.pos_x = self.pos_x + 1;
        } else if c == '\t' {
            self.pos_x = self.pos_x + 4;
        } else if c == '\r' {
            self.pos_x = 0;
        } else if c == '\n' {
            self.pos_y = self.pos_y + 1;
        } else {
            let x = self.pos_x * FontInfo::CHAR_WIDTH as u32;
            let y = self.pos_y * self.font.char_size as u32;
            self.frame_buffer.put_char(video, glyphs, &self.font, x, y, c, &self.fg_colour, &self.bg_colour);
            self.pos_x = self.pos_x + 1;
        }
        if self.pos_x * FontInfo::CHAR_WIDTH as u32 >= self.frame_buffer.horizontal_resolution {
            self.pos_x = 0;
            self.pos_y = self.pos_y + 1;
        }
    }

    /// Prints each character of `string` in turn.
    pub fn print(&mut self, video: &mut Vec<u32>, glyphs: &Vec<u8>, string: &str)
        requires
            can_print(*old(self), old(video)@, glyphs@, string@),
        ensures
            (*final(self), final(video)@) == after_print(*old(self), old(video)@, glyphs@, string@),
    {
        let ghost t0 = *self;
        let ghost v0 = video@;
        for c in it: string.chars()
            invariant
                it.seq() == string@,
                can_print(t0, v0, glyphs@, string@),
                (*self, video@) == after_print(t0, v0, glyphs@, string@.take(it.index() as int)),
        {
            let ghost i = it.index() as int;
            proof {
                lemma_can_print_prefix(t0, v0, glyphs@, string@, i + 1);
                assert(string@.take(i + 1).drop_last() =~= string@.take(i));
                assert(string@.take(i + 1).last() == c);
            }
            self.put_char(video, glyphs, c);
        }
        proof {
            assert(string@.take(string@.len() as int) =~= string@);
        }
    }

    /// Prints `num` in decimal, at most its first 17 digits.
    pub fn put_num(&mut self, video: &mut Vec<u32>, glyphs: &Vec<u8>, num: usize)
        requires
            can_print(
                *old(self),
                old(video)@,
                glyphs@,
                decimal(num as nat).take(if decimal(num as nat).len() < 17 { decimal(num as nat).len() as int } else { 17 }),
            ),
        ensures
            (*final(self), final(video)@) == after_print(
                *old(self),
                old(video)@,
                glyphs@,
                decimal(num as nat).take(if decimal(num as nat).len() < 17 { decimal(num as nat).len() as int } else { 17 }),
            ),
    {
        let ghost t0 = *self;
        let ghost v0 = video@;
        let ghost n = num as nat;
        let ghost ds = decimal(n);
        let ghost l = ds.len() as int;
        let ghost shown = ds.take(if l < 17 { l } else { 17 });
        proof {
            lemma_decimal(n);
        }
        // the largest power of ten that is at most `num` (one for a single digit)
        let mut i: usize = 1;
        let ghost mut e: nat = 0;
        if i <= num / 10 {
            while i <= num / 10
                invariant
                    i == pow10(e),
                    1 <= i <= num,
                decreases num - i,
            {
                i = i * 10;
                proof {
                    e = e + 1;
                }
            }
        }
        proof {
            assert(n < 10 * pow10(e));
            assert(n >= 1 ==> pow10(e) <= n);
            assert(pow10((e + 1) as nat) == 10 * pow10(e));
            if e + 1 < l {
                lemma_pow10_mono((e + 1) as nat, (l - 1) as nat);
                lemma_pow10_pos((e + 1) as nat);
            }
            if e + 1 > l {
                lemma_pow10_mono((l - 1) as nat, e);
                assert(pow10(l as nat) == 10 * pow10((l - 1) as nat));
                if l - 1 + 1 < e {
                    lemma_pow10_mono(l as nat, e);
                }
            }
            assert(e == l - 1);
            vstd::arithmetic::div_mod::lemma_small_mod(n, pow10(l as nat));
        }
        let mut temp: usize = num;
        let mut k: usize = 0;
        while k < 17
            invariant_except_break
                k < l,
                i == pow10((l - 1 - k) as nat),
                temp == n % pow10((l - k) as nat),
            invariant
                n == num,
                ds == decimal(n),
                l == ds.len(),
                0 <= k <= 17,
                k <= l,
                (*self, video@) == after_print(t0, v0, glyphs@, ds.take(k as int)),
                can_print(t0, v0, glyphs@, shown),
                shown == ds.take(if l < 17 { l } else { 17 }),
                forall|j: int|
                    0 <= j < l ==> #[trigger] ds[j] == digit_char(((n / pow10((l - 1 - j) as nat)) % 10) as int),
            ensures
                k == (if l < 17 { l } else { 17 }),
                (*self, video@) == after_print(t0, v0, glyphs@, ds.take(k as int)),
            decreases 17 - k,
        {
            let ghost q = pow10((l - 1 - k) as nat);
            proof {
                lemma_pow10_pos((l - 1 - k) as nat);
                assert(pow10((l - k) as nat) == 10 * q);
                lemma_digit_step(n, q);
            }
            let d: usize = temp / i;
            let c = ((48u8 + d as u8) as char);
            proof {
                assert(c == ds[k as int]);
                lemma_can_print_prefix(t0, v0, glyphs@, shown, k + 1);
                assert(shown.take(k + 1) =~= ds.take(k + 1));
                assert(ds.take(k + 1).drop_last() =~= ds.take(k as int));
            }
            self.put_char(video, glyphs, c);
            temp = temp % i;
            i = i / 10;
            k = k + 1;
            if i == 0 {
                proof {
                    if l - 1 - (k - 1) > 0 {
                        lemma_pow10_pos((l - k) as nat);
                    }
                }
                break;
            }
            proof {
                if l - k == 0 {
                    assert(q == 1);
                }
                assert(q == 10 * pow10((l - 1 - k) as nat));
            }
        }
    }

    /// Paints the whole screen in the theme's background: black in dark mode, white otherwise.
    pub fn clear_screen(&self, video: &mut Vec<u32>)
        requires
            self.frame_buffer.fits(old(video)@.len() as int),
        ensures
            screen_filled(
                old(video)@,
                final(video)@,
                self.frame_buffer,
                hex_of(
                    if self.theme.dark_mode {
                        self.theme.black
                    } else {
                        self.theme.white
                    },
                ),
            ),
    {
        let colour = if self.theme.dark_mode {
            self.theme.black
        } else {
            self.theme.white
        };
        self.frame_buffer.clear_screen(video, &colour);
    }

    /// Paints the whole screen in `colour`.
    pub fn fill_screen(&self, video: &mut Vec<u32>, colour: &Colour)
        requires
            self.frame_buffer.fits(old(video)@.len() as int),
        ensures
            screen_filled(old(video)@, final(video)@, self.frame_buffer, hex_of(*colour)),
    {
        self.frame_buffer.clear_screen(video, colour);
    }
}

/// Printing one text after another is printing the two joined.
pub proof fn lemma_print_concat(t: Terminal, video: Seq<u32>, glyphs: Seq<u8>, a: Seq<char>, b: Seq<char>)
    ensures
        after_print(t, video, glyphs, a + b) == after_print(
            after_print(t, video, glyphs, a).0,
            after_print(t, video, glyphs, a).1,
            glyphs,
            b,
        ),
    decreases b.len(),
{
    if b.len() == 0 {
        assert(a + b =~= a);
    } else {
        lemma_print_concat(t, video, glyphs, a, b.drop_last());
        assert((a + b).drop_last() =~= a + b.drop_last());
        assert((a + b).last() == b.last());
    }
}

/// After any character the cursor rests inside the line: its cell starts
/// left of the right edge, or it is at the first column.
pub proof fn lemma_cursor_in_line(t: Terminal, video: Seq<u32>, glyphs: Seq<u8>, c: char)
    ensures
        ({
            let t1 = after_put(t, video, glyphs, c).0;
            t1.pos_x * 8 < t.frame_buffer.horizontal_resolution || t1.pos_x == 0
        }),
{
}

} // verus!
