//! Pixels on the firmware's frame buffer that report when they fall outside
//! it, and painting the screen with them.
use vstd::prelude::*;
use crate::efi_graphics_output::Info;
use crate::graphics::pixel_index;

verus! {

/// Why drawing failed.
#[derive(Clone, Copy, PartialEq, Eq, Structural, Debug)]
pub enum Status {
    /// The pixel lies outside the frame buffer.
    OutOfBounds,
}

/// Writing single pixels to a frame buffer whose words are held as `video`.
pub trait PutPixel {
    /// Whether the pixel at `(x, y)` is accepted.
    spec fn accepts(&self, x: int, y: int) -> bool;

    /// The word the pixel at `(x, y)` is.
    spec fn word(&self, x: int, y: int) -> int;

    /// Writes `color` to the pixel at `(x, y)` if it is accepted, and
    /// reports `OutOfBounds` otherwise.
    fn put_pixel(&self, video: &mut Vec<u32>, x: u32, y: u32, color: u32) -> (r: Result<(), Status>)
        requires
            self.accepts(x as int, y as int) ==> 0 <= self.word(x as int, y as int) < old(video)@.len(),
        ensures
            r is Ok <==> self.accepts(x as int, y as int),
            final(video)@ == if self.accepts(x as int, y as int) {
                old(video)@.update(self.word(x as int, y as int), color)
            } else {
                old(video)@
            },
    ;
}

/// Painting a whole screen.
pub trait Functions {
    /// Whether `(x, y)` is a pixel of the visible screen.
    spec fn on_screen(&self, x: int, y: int) -> bool;

    /// The word the pixel at `(x, y)` is.
    spec fn screen_word(&self, x: int, y: int) -> int;

    /// Paints every visible pixel with `color`.
    fn clear_screen(&self, video: &mut Vec<u32>, color: u32)
        requires
            forall|x: int, y: int| self.on_screen(x, y) ==> 0 <= #[trigger] self.screen_word(x, y) < old(video)@.len(),
        ensures
            final(video)@.len() == old(video)@.len(),
            forall|x: int, y: int| self.on_screen(x, y) ==> #[trigger] final(video)@[self.screen_word(x, y)] == color,
            forall|w: int|
                0 <= w < final(video)@.len() ==> #[trigger] final(video)@[w] == old(video)@[w] || (final(video)@[w]
                    == color && exists|x: int, y: int| self.on_screen(x, y) && w == self.screen_word(x, y)),
    ;
}

impl PutPixel for Info {
    /// Pixels up to and including the resolution in each direction are accepted.
    open spec fn accepts(&self, x: int, y: int) -> bool {
        0 <= x <= self.horizontal_resolution && 0 <= y <= self.vertical_resolution
    }

    open spec fn word(&self, x: int, y: int) -> int {
        pixel_index(self.pixels_per_scan_line, x, y)
    }

    fn put_pixel(&self, video: &mut Vec<u32>, x: u32, y: u32, color: u32) -> (r: Result<(), Status>) {
        if x > self.horizontal_resolution || y > self.vertical_resolution {
            return Err(Status::OutOfBounds);
        }
        let n = video.len();
        let row = self.pixels_per_scan_line as usize * y as usize;
        let index = row + x as usize;
        assert(index < n);
        video.set(index, color);
        Ok(())
    }
}

impl Functions for Info {
    open spec fn on_screen(&self, x: int, y: int) -> bool {
        0 <= x < self.horizontal_resolution && 0 <= y < self.vertical_resolution
    }

    open spec fn screen_word(&self, x: int, y: int) -> int {
        pixel_index(self.pixels_per_scan_line, x, y)
    }

    /// Paints the screen column by column; a column stops at the first
    /// pixel that is not accepted, which never happens on the screen.
    fn clear_screen(&self, video: &mut Vec<u32>, color: u32) {
        let ghost start = video@;
        let ghost p = self.pixels_per_scan_line;
        let ghost h = self.horizontal_resolution as int;
        let ghost v = self.vertical_resolution as int;
        let mut x: u32 = 0;
        while x < self.horizontal_resolution
            invariant
                p == self.pixels_per_scan_line,
                h == self.horizontal_resolution,
                v == self.vertical_resolution,
                x <= h,
                video@.len() == start.len(),
                forall|xx: int, yy: int| self.on_screen(xx, yy) ==> 0 <= #[trigger] self.screen_word(xx, yy) < start.len(),
                forall|xx: int, yy: int|
                    0 <= xx < x && 0 <= yy < v ==> #[trigger] video@[pixel_index(p, xx, yy)] == color,
                forall|w: int|
                    0 <= w < video@.len() ==> #[trigger] video@[w] == start[w] || (video@[w] == color && exists|
                        xx: int,
                        yy: int,
                    | self.on_screen(xx, yy) && w == self.screen_word(xx, yy)),
            decreases h - x,
        {
            let mut y: u32 = 0;
            while y < self.vertical_resolution
                invariant
                    p == self.pixels_per_scan_line,
                    h == self.horizontal_resolution,
                    v == self.vertical_resolution,
                    x < h,
                    y <= v,
                    video@.len() == start.len(),
                    forall|xx: int, yy: int|
                        self.on_screen(xx, yy) ==> 0 <= #[trigger] self.screen_word(xx, yy) < start.len(),
                    forall|xx: int, yy: int|
                        0 <= xx < x && 0 <= yy < v ==> #[trigger] video@[pixel_index(p, xx, yy)] == color,
                    forall|yy: int| 0 <= yy < y ==> #[trigger] video@[pixel_index(p, x as int, yy)] == color,
                    forall|w: int|
                        0 <= w < video@.len() ==> #[trigger] video@[w] == start[w] || (video@[w] == color && exists|
                            xx: int,
                            yy: int,
                        | self.on_screen(xx, yy) && w == self.screen_word(xx, yy)),
                ensures
                    y == v,
                decreases v - y,
            {
                let ghost idx = pixel_index(p, x as int, y as int);
                let ghost before = video@;
                proof {
                    assert(self.on_screen(x as int, y as int));
                    assert(0 <= self.screen_word(x as int, y as int) < start.len());
                }
                let r = PutPixel::put_pixel(self, video, x, y, color);
                if r.is_err() {
                    break;
                }
                proof {
                    assert(video@ == before.update(idx, color));
                    assert forall|xx: int, yy: int| 0 <= xx < x && 0 <= yy < v implies #[trigger] video@[pixel_index(
                        p,
                        xx,
                        yy,
                    )] == color by {
                        assert(0 <= self.screen_word(xx, yy) < start.len());
                    }
                    assert forall|yy: int| 0 <= yy < y + 1 implies #[trigger] video@[pixel_index(p, x as int, yy)]
                        == color by {
                        assert(0 <= self.screen_word(x as int, yy) < start.len());
                    }
                    assert forall|w: int| 0 <= w < video@.len() implies #[trigger] video@[w] == start[w] || (
                    video@[w] == color && exists|xx: int, yy: int| self.on_screen(xx, yy) && w == self.screen_word(xx, yy)) by {
                        if w == idx {
                            assert(self.on_screen(x as int, y as int) && w == self.screen_word(x as int, y as int));
                        } else {
                            assert(video@[w] == before[w]);
                        }
                    }
                }
                y = y + 1;
            }
            x = x + 1;
        }
    }
}

} // verus!
