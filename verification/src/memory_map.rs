//! The firmware memory map with its key and descriptor version, and the
//! memory size counted from it.
use vstd::prelude::*;
use crate::boot::{MemoryDescriptor, pages_sum, lemma_pages_sum_mono};

verus! {

/// One entry of the firmware memory map.
pub type Descriptor = MemoryDescriptor;

/// The firmware memory map: its descriptors in order, with the key and the
/// descriptor version the firmware gave.
pub struct Info {
    pub descriptors: Vec<Descriptor>,
    pub key: usize,
    pub map_descriptor_version: u32,
}

impl Info {
    /// The number of bytes that all descriptors but the last two describe.
    pub fn get_memory_size(&self) -> (size: usize)
        requires
            self.descriptors@.len() >= 2,
            pages_sum(self.descriptors@, self.descriptors@.len() - 2) * 4096 <= usize::MAX,
        ensures
            size == pages_sum(self.descriptors@, self.descriptors@.len() - 2) * 4096,
    {
        let mut size: usize = 0;
        let count = self.descriptors.len() - 2;
        let mut i: usize = 0;
        while i < count
            invariant
                count == self.descriptors@.len() - 2,
                i <= count,
                size == pages_sum(self.descriptors@, i as int) * 4096,
                pages_sum(self.descriptors@, count as int) * 4096 <= usize::MAX,
            decreases count - i,
        {
            proof {
                lemma_pages_sum_mono(self.descriptors@, i as int + 1, count as int);
            }
            size = size + self.descriptors[i].number_of_pages as usize * 4096;
            i = i + 1;
        }
        size
    }
}

} // verus!
