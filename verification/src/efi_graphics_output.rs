//! The frame buffer that the firmware's graphics output protocol set up.
use vstd::prelude::*;
use crate::data_types::Point;
use crate::graphics::pixel_index;

verus! {

/// Where the frame buffer lies and how its pixels are laid out: each pixel
/// is a 32-bit word, and each scan line is `pixels_per_scan_line` words.
#[derive(Clone, Copy, PartialEq, Eq, Structural, Debug)]
pub struct Info {
    pub frame_buffer_base_address: u64,
    pub frame_buffer_size: usize,
    pub horizontal_resolution: u32,
    pub vertical_resolution: u32,
    pub pixels_per_scan_line: u32,
}

impl Info {
    /// Whether `(x, y)` lies on the screen.
    pub open spec fn visible(&self, x: int, y: int) -> bool {
        0 <= x < self.horizontal_resolution && 0 <= y < self.vertical_resolution
    }

    /// Writes `colour` to the pixel at `position` if it lies on the screen;
    /// `video` holds the frame buffer's words.
    pub fn put_pixel(&self, video: &mut Vec<u32>, colour: u32, position: Point<u32>)
        requires
            self.visible(position.x as int, position.y as int) ==> pixel_index(
                self.pixels_per_scan_line,
                position.x as int,
                position.y as int,
            ) < old(video)@.len(),
        ensures
            final(video)@ == if self.visible(position.x as int, position.y as int) {
                old(video)@.update(
                    pixel_index(self.pixels_per_scan_line, position.x as int, position.y as int),
                    colour,
                )
            } else {
                old(video)@
            },
    {
        if position.x < self.horizontal_resolution && position.y < self.vertical_resolution {
            let n = video.len();
            let row = self.pixels_per_scan_line as usize * position.y as usize;
            let index = row + position.x as usize;
            assert(index < n);
            video.set(index, colour);
        }
    }
}

} // verus!
