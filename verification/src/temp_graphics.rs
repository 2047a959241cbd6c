//! Pixels on the frame buffer the boot loader describes: writing one, and
//! painting the screen.
use vstd::prelude::*;
use crate::boot::GraphicsInfo;
use crate::graphics::pixel_index;

verus! {

/// Drawing on a frame buffer whose words are held as `video`.
pub trait FrameBufferTrait {
    /// Whether `put_pixel` writes the pixel at `(x, y)`.
    spec fn draws(&self, x: int, y: int) -> bool;

    /// The word the pixel at `(x, y)` is.
    spec fn word(&self, x: int, y: int) -> int;

    /// Whether `(x, y)` is a pixel of the visible screen.
    spec fn on_screen(&self, x: int, y: int) -> bool;

    /// Writes `colour` to the pixel at `(pos_x, pos_y)` if it is one `put_pixel` draws.
    fn put_pixel(&self, video: &mut Vec<u32>, pos_x: u32, pos_y: u32, colour: u32)
        requires
            self.draws(pos_x as int, pos_y as int) ==> 0 <= self.word(pos_x as int, pos_y as int) < old(
                video,
            )@.len(),
        ensures
            final(video)@ == if self.draws(pos_x as int, pos_y as int) {
                old(video)@.update(self.word(pos_x as int, pos_y as int), colour)
            } else {
                old(video)@
            },
    ;

    /// Paints every pixel of the visible screen with `colour`.
    fn clear_screen(&self, video: &mut Vec<u32>, colour: u32)
        requires
            forall|x: int, y: int|
                self.on_screen(x, y) ==> self.draws(x, y) && 0 <= #[trigger] self.word(x, y) < old(video)@.len(),
        ensures
            final(video)@.len() == old(video)@.len(),
            forall|x: int, y: int| self.on_screen(x, y) ==> #[trigger] final(video)@[self.word(x, y)] == colour,
            forall|w: int|
                0 <= w < final(video)@.len() ==> #[trigger] final(video)@[w] == old(video)@[w] || (final(video)@[w]
                    == colour && exists|x: int, y: int| self.on_screen(x, y) && w == self.word(x, y)),
    ;
}

impl FrameBufferTrait for GraphicsInfo {
    /// Pixels up to and including the resolution in each direction are drawn.
    open spec fn draws(&self, x: int, y: int) -> bool {
        0 <= x <= self.horizontal_resolution && 0 <= y <= self.vertical_resolution
    }

    open spec fn word(&self, x: int, y: int) -> int {
        pixel_index(self.pixels_per_scan_line, x, y)
    }

    open spec fn on_screen(&self, x: int, y: int) -> bool {
        0 <= x < self.horizontal_resolution && 0 <= y < self.vertical_resolution
    }

    fn put_pixel(&self, video: &mut Vec<u32>, pos_x: u32, pos_y: u32, colour: u32) {
        if pos_x > self.horizontal_resolution || pos_y > self.vertical_resolution {
            return ;
        }
        let n = video.len();
        let row = self.pixels_per_scan_line as usize * pos_y as usize;
        let index = row + pos_x as usize;
        assert(index < n);
        video.set(index, colour);
    }

    fn clear_screen(&self, video: &mut Vec<u32>, colour: u32) {
        let ghost start = video@;
        let ghost p = self.pixels_per_scan_line;
        let ghost h = self.horizontal_resolution as int;
        let ghost v = self.vertical_resolution as int;
        let mut y: u32 = 0;
        while y < self.vertical_resolution
            invariant
                p == self.pixels_per_scan_line,
                h == self.horizontal_resolution,
                v == self.vertical_resolution,
                y <= v,
                video@.len() == start.len(),
                forall|xx: int, yy: int|
                    self.on_screen(xx, yy) ==> self.draws(xx, yy) && 0 <= #[trigger] self.word(xx, yy) < start.len(),
                forall|xx: int, yy: int|
                    0 <= xx < h && 0 <= yy < y ==> #[trigger] video@[pixel_index(p, xx, yy)] == colour,
                forall|w: int|
                    0 <= w < video@.len() ==> #[trigger] video@[w] == start[w] || (video@[w] == colour && exists|
                        xx: int,
                        yy: int,
                    | self.on_screen(xx, yy) && w == self.word(xx, yy)),
            decreases v - y,
        {
            let mut x: u32 = 0;
            while x < self.horizontal_resolution
                invariant
                    p == self.pixels_per_scan_line,
                    h == self.horizontal_resolution,
                    v == self.vertical_resolution,
                    y < v,
                    x <= h,
                    video@.len() == start.len(),
                    forall|xx: int, yy: int|
                        self.on_screen(xx, yy) ==> self.draws(xx, yy) && 0 <= #[trigger] self.word(xx, yy)
                            < start.len(),
                    forall|xx: int, yy: int|
                        0 <= xx < h && 0 <= yy < y ==> #[trigger] video@[pixel_index(p, xx, yy)] == colour,
                    forall|xx: int| 0 <= xx < x ==> #[trigger] video@[pixel_index(p, xx, y as int)] == colour,
                    forall|w: int|
                        0 <= w < video@.len() ==> #[trigger] video@[w] == start[w] || (video@[w] == colour && exists|
                            xx: int,
                            yy: int,
                        | self.on_screen(xx, yy) && w == self.word(xx, yy)),
                decreases h - x,
            {
                let ghost idx = pixel_index(p, x as int, y as int);
                let ghost before = video@;
                proof {
                    assert(self.on_screen(x as int, y as int));
                    assert(0 <= self.word(x as int, y as int) < start.len());
                }
                self.put_pixel(video, x, y, colour);
                proof {
                    assert(video@ == before.update(idx, colour));
                    assert forall|xx: int, yy: int| 0 <= xx < h && 0 <= yy < y implies #[trigger] video@[pixel_index(
                        p,
                        xx,
                        yy,
                    )] == colour by {
                        assert(0 <= self.word(xx, yy) < start.len());
                    }
                    assert forall|xx: int| 0 <= xx < x + 1 implies #[trigger] video@[pixel_index(p, xx, y as int)]
                        == colour by {
                        assert(0 <= self.word(xx, y as int) < start.len());
                    }
                    assert forall|w: int| 0 <= w < video@.len() implies #[trigger] video@[w] == start[w] || (
                    video@[w] == colour && exists|xx: int, yy: int| self.on_screen(xx, yy) && w == self.word(xx, yy)) by {
                        if w == idx {
                            assert(self.on_screen(x as int, y as int) && w == self.word(x as int, y as int));
                        } else {
                            assert(video@[w] == before[w]);
                        }
                    }
                }
                x = x + 1;
            }
            y = y + 1;
        }
    }
}

} // verus!
