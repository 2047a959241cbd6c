//! The byte-backed bitmap that the page frame allocator keeps its page
//! states in. `size` is the highest index the bitmap writes.
use vstd::prelude::*;
use crate::bits::{bits_of, read_bit, write_bit, toggle_bit, lemma_zero_bytes};

verus! {

/// A bitmap over the memory at `addr`; the bytes it covers are held in `bytes`.
pub struct Bitmap {
    pub size: usize,
    pub addr: u64,
    pub bytes: Vec<u8>,
}

impl View for Bitmap {
    type V = Seq<bool>;

    open spec fn view(&self) -> Seq<bool> {
        bits_of(self.bytes@)
    }
}

/// A run of `n` zero bytes.
pub fn zeroed_bytes(n: usize) -> (bytes: Vec<u8>)
    ensures
        bytes@.len() == n,
        forall|k: int| 0 <= k < n ==> bytes@[k] == 0u8,
{
    let mut bytes: Vec<u8> = Vec::new();
    let mut i: usize = 0;
    while i < n
        invariant
            i <= n,
            bytes@.len() == i,
            forall|k: int| 0 <= k < i ==> bytes@[k] == 0u8,
        decreases n - i,
    {
        bytes.push(0u8);
        i = i + 1;
    }
    bytes
}

impl Bitmap {
    /// The bitmap covers exactly the bytes that indices `0..=size` fall in.
    pub open spec fn wf(&self) -> bool {
        self@.len() == (self.size as int / 8 + 1) * 8
    }

    /// A bitmap of `size` over the memory at `addr`, its bytes held here and
    /// cleared. (The kernel clears the first `size / 8 + size % 8` bytes at
    /// `addr`: when `size` is a multiple of 8 that leaves the byte of the bit
    /// at index `size`, which the memory is here taken to hold clear; for
    /// other sizes it clears bytes past the bitmap, whose memory is not held.)
    pub fn new(size: usize, addr: u64) -> (bitmap: Self)
        ensures
            bitmap.wf(),
            bitmap.size == size,
            bitmap.addr == addr,
            forall|i: int| 0 <= i < bitmap@.len() ==> !#[trigger] bitmap@[i],
    {
        let bytes = zeroed_bytes(size / 8 + 1);
        proof {
            lemma_zero_bytes(bytes@);
        }
        Bitmap { size, addr, bytes }
    }

    /// Writes `value` at `index`: a true value sets the bit, a false one flips it.
    /// Indices past `size` are refused and leave the bitmap as it was.
    pub fn set(&mut self, index: usize, value: bool) -> (done: bool)
        requires
            old(self).wf(),
        ensures
            final(self).wf(),
            final(self).size == old(self).size,
            final(self).addr == old(self).addr,
            done == (index <= old(self).size),
            final(self)@ == if !done {
                old(self)@
            } else if value {
                old(self)@.update(index as int, true)
            } else {
                old(self)@.update(index as int, !old(self)@[index as int])
            },
    {
        if index > self.size {
            return false;
        }
        if value {
            write_bit(&mut self.bytes, index, true);
        } else {
            toggle_bit(&mut self.bytes, index);
        }
        true
    }

    /// The bit at `index`.
    pub fn index(&self, index: usize) -> (bit: bool)
        requires
            index < self@.len(),
        ensures
            bit == self@[index as int],
    {
        read_bit(&self.bytes, index)
    }
}

/// Setting an index reads back as set; clearing one that was set reads back
/// as clear. (Clearing flips the bit, so clearing one that was clear sets it.)
pub proof fn lemma_set_then_index(pre: Seq<bool>, post: Seq<bool>, index: int, value: bool)
    requires
        0 <= index < pre.len(),
        value || pre[index],
        post == (if value {
            pre.update(index, true)
        } else {
            pre.update(index, !pre[index])
        }),
    ensures
        post[index] == value,
        forall|j: int| 0 <= j < pre.len() && j != index ==> post[j] == pre[j],
{
}

} // verus!
