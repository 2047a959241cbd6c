//! A point on the screen, and a bitmap whose `size` counts bytes, indexed up
//! to and including `size * 8`.
use vstd::prelude::*;
use crate::bits::{bits_of, read_bit, write_bit, toggle_bit, lemma_zero_bytes};
use crate::bitmap::zeroed_bytes;

verus! {

/// A point on the screen.
pub struct Point<T> {
    pub x: T,
    pub y: T,
}

/// A bitmap of `size` bytes over the memory at `address`; the bytes it
/// reaches (indices `0..=size * 8`) are held in `bytes`.
pub struct Bitmap {
    pub size: usize,
    pub address: u64,
    pub bytes: Vec<u8>,
}

impl View for Bitmap {
    type V = Seq<bool>;

    open spec fn view(&self) -> Seq<bool> {
        bits_of(self.bytes@)
    }
}

impl Bitmap {
    /// The bitmap covers the bytes that indices `0..=size * 8` fall in.
    pub open spec fn wf(&self) -> bool {
        &&& self@.len() == (self.size + 1) * 8
        &&& self.size * 8 <= usize::MAX
    }

    /// A bitmap of `size` bytes over the memory at `address`. The bitmap's
    /// bytes are held here, and start cleared: the memory at `address` is
    /// taken to be clear, as making the bitmap writes nothing there (the
    /// allocator then clears its first `size` bytes, not the last one, which
    /// holds the bit at index `size * 8`).
    pub fn new(size: usize, address: u64) -> (bitmap: Self)
        requires
            size * 8 <= usize::MAX,
        ensures
            bitmap.wf(),
            bitmap.size == size,
            bitmap.address == address,
            forall|i: int| 0 <= i < bitmap@.len() ==> !#[trigger] bitmap@[i],
    {
        let bytes = zeroed_bytes(size + 1);
        proof {
            lemma_zero_bytes(bytes@);
        }
        Bitmap { size, address, bytes }
    }

    /// Writes `value` at `index`: the bit is first flipped, then set again
    /// for a true value. Indices past `size * 8` are refused.
    pub fn set(&mut self, index: usize, value: bool) -> (done: bool)
        requires
            old(self).wf(),
        ensures
            final(self).wf(),
            final(self).size == old(self).size,
            final(self).address == old(self).address,
            done == (index <= old(self).size * 8),
            final(self)@ == if !done {
                old(self)@
            } else if value {
                old(self)@.update(index as int, true)
            } else {
                old(self)@.update(index as int, !old(self)@[index as int])
            },
    {
        if index > self.size * 8 {
            return false;
        }
        toggle_bit(&mut self.bytes, index);
        if value {
            write_bit(&mut self.bytes, index, true);
            proof {
                let s = old(self)@;
                assert(s.update(index as int, !s[index as int]).update(index as int, true) =~= s.update(
                    index as int,
                    true,
                ));
            }
        }
        true
    }

    /// The bit at `index`; false past `size * 8`.
    pub fn index(&self, index: usize) -> (bit: bool)
        requires
            self.wf(),
        ensures
            bit == (index <= self.size * 8 && self@[index as int]),
    {
        if index > self.size * 8 {
            return false;
        }
        read_bit(&self.bytes, index)
    }
}

} // verus!
