//! The bitmap of the kernel's page frame allocator: one bit per page frame,
//! `capacity` bits in all, with indices past the capacity refused.
use vstd::prelude::*;
use vstd::string::StringExecFns;
use crate::bits::{bits_of, read_bit, write_bit, lemma_zero_bytes};
use crate::bitmap::zeroed_bytes;

verus! {

/// A bitmap of `capacity` bits over the memory at `addr`, whose bytes are held in `bytes`.
pub struct Bitmap {
    pub capacity: usize,
    pub addr: u64,
    pub bytes: Vec<u8>,
}

impl View for Bitmap {
    type V = Seq<bool>;

    open spec fn view(&self) -> Seq<bool> {
        bits_of(self.bytes@)
    }
}

/// The character that shows a bit: `'1'` for a set one, `'0'` for a clear one.
pub open spec fn bit_char(bit: bool) -> char {
    if bit {
        '1'
    } else {
        '0'
    }
}

impl Bitmap {
    /// The bitmap covers exactly the bytes that its first `capacity` bits need.
    pub open spec fn wf(&self) -> bool {
        self@.len() == (self.capacity as int / 8 + 1) * 8
    }

    /// What `get` answers for `index`.
    pub open spec fn lookup(&self, index: int) -> Option<bool> {
        if 0 <= index < self.capacity {
            Some(self@[index])
        } else {
            None
        }
    }

    /// A cleared bitmap of `capacity` bits over the memory at `addr`.
    pub fn new(capacity: usize, addr: u64) -> (bitmap: Self)
        ensures
            bitmap.wf(),
            bitmap.capacity == capacity,
            bitmap.addr == addr,
            forall|i: int| 0 <= i < bitmap@.len() ==> !#[trigger] bitmap@[i],
    {
        let bytes = zeroed_bytes(capacity / 8 + 1);
        proof {
            lemma_zero_bytes(bytes@);
        }
        Bitmap { capacity, addr, bytes }
    }

    /// The bit at `index`, or `None` past the capacity.
    pub fn get(&self, index: usize) -> (bit: Option<bool>)
        requires
            self.wf(),
        ensures
            bit == self.lookup(index as int),
    {
        if index >= self.capacity {
            return None;
        }
        Some(read_bit(&self.bytes, index))
    }

    /// Writes `value` at `index`; an index past the capacity is refused.
    pub fn set(&mut self, index: usize, value: bool) -> (done: bool)
        requires
            old(self).wf(),
        ensures
            final(self).wf(),
            final(self).capacity == old(self).capacity,
            final(self).addr == old(self).addr,
            done == (index < old(self).capacity),
            final(self)@ == if done {
                old(self)@.update(index as int, value)
            } else {
                old(self)@
            },
    {
        if index >= self.capacity {
            return false;
        }
        write_bit(&mut self.bytes, index, value);
        true
    }

    /// The bit at `index`, or `None` past the capacity.
    pub fn index(&self, index: usize) -> (bit: Option<bool>)
        requires
            self.wf(),
        ensures
            bit == self.lookup(index as int),
    {
        self.get(index)
    }

    /// The bits as text, `'1'` or `'0'` for each index below the capacity.
    pub fn to_string(&self) -> (text: String)
        requires
            self.wf(),
        ensures
            text@.len() == self.capacity,
            forall|i: int| 0 <= i < self.capacity ==> text@[i] == bit_char(#[trigger] self@[i]),
    {
        let mut text = String::new();
        let mut index: usize = 0;
        while index < self.capacity
            invariant
                self.wf(),
                index <= self.capacity,
                text@.len() == index,
                forall|i: int| 0 <= i < index ==> text@[i] == bit_char(#[trigger] self@[i]),
            decreases self.capacity - index,
        {
            let bit = self.index(index);
            proof {
                reveal_strlit("1");
                reveal_strlit("0");
            }
            match bit {
                Some(true) => text.append("1"),
                _ => text.append("0"),
            }
            index = index + 1;
        }
        text
    }
}

/// What a write stores is what a read of that index gives back, and no
/// other index changes.
pub proof fn lemma_set_then_get(pre: Bitmap, post: Bitmap, index: int, value: bool, other: int)
    requires
        pre.wf(),
        0 <= index < pre.capacity,
        post.capacity == pre.capacity,
        post@ == pre@.update(index, value),
        other != index,
    ensures
        post.lookup(index) == Some(value),
        post.lookup(other) == pre.lookup(other),
{
}

} // verus!
