//! The kernel's small shared data types: a point on the screen and a bitmap
//! over `size` bits.
use vstd::prelude::*;
use crate::bits::{bits_of, read_bit, write_bit, toggle_bit, lemma_zero_bytes};
use crate::bitmap::zeroed_bytes;

verus! {

/// A point on the screen.
pub struct Point<T> {
    pub x: T,
    pub y: T,
}

/// A bitmap of `size` bits over the memory at `address`, whose bytes are held in `bytes`.
pub struct Bitmap {
    pub size: usize,
    pub address: u64,
    pub bytes: Vec<u8>,
}

impl View for Bitmap {
    type V = Seq<bool>;

    open spec fn view(&self) -> Seq<bool> {
        bits_of(self.bytes@)
    }
}

impl Bitmap {
    /// The bitmap covers the bytes that its `size` bits fall in.
    pub open spec fn wf(&self) -> bool {
        self@.len() == (self.size as int / 8 + 1) * 8
    }

    /// A bitmap of `size` bits over the memory at `address`. The bitmap's
    /// bytes are held here, and start cleared: the memory at `address` is
    /// taken to be clear, as the kernel writes nothing there when it makes
    /// the bitmap.
    pub fn new(size: usize, address: u64) -> (bitmap: Self)
        ensures
            bitmap.wf(),
            bitmap.size == size,
            bitmap.address == address,
            forall|i: int| 0 <= i < bitmap@.len() ==> !#[trigger] bitmap@[i],
    {
        let bytes = zeroed_bytes(size / 8 + 1);
        proof {
            lemma_zero_bytes(bytes@);
        }
        Bitmap { size, address, bytes }
    }

    /// Writes `value` at `index`: the bit is first flipped, then set again
    /// for a true value, so a true value sets it and a false one flips it.
    /// Indices from `size` on are ignored.
    pub fn set(&mut self, index: usize, value: bool)
        requires
            old(self).wf(),
            old(self).size > 0,
        ensures
            final(self).wf(),
            final(self).size == old(self).size,
            final(self).address == old(self).address,
            final(self)@ == if index > old(self).size - 1 {
                old(self)@
            } else if value {
                old(self)@.update(index as int, true)
            } else {
                old(self)@.update(index as int, !old(self)@[index as int])
            },
    {
        if index > self.size - 1 {
            return;
        }
        toggle_bit(&mut self.bytes, index);
        if value {
            write_bit(&mut self.bytes, index, true);
            proof {
                let s = old(self)@;
                assert(s.update(index as int, !s[index as int]).update(index as int, true) =~= s.update(
                    index as int,
                    true,
                ));
            }
        }
    }

    /// The bit at `index`.
    pub fn index(&self, index: usize) -> (bit: bool)
        requires
            index < self@.len(),
        ensures
            bit == self@[index as int],
    {
        read_bit(&self.bytes, index)
    }
}

} // verus!
