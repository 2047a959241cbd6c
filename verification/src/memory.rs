//! What the firmware memory map adds up to.
use vstd::prelude::*;
use crate::boot::{MemoryMapInfo, PAGE_SIZE, pages_sum, lemma_pages_sum_mono};

verus! {

/// Counting the memory that a memory map describes.
pub trait GetPages {
    /// The number of pages the map describes.
    spec fn total_pages(&self) -> nat;

    /// The number of pages that the whole map describes.
    fn get_pages(&self) -> (pages: usize)
        requires
            self.total_pages() <= usize::MAX,
        ensures
            pages == self.total_pages(),
    ;

    /// The number of bytes that the whole map describes.
    fn get_available_memory_bytes(&self) -> (bytes: usize)
        requires
            self.total_pages() * PAGE_SIZE <= usize::MAX,
        ensures
            bytes == self.total_pages() * PAGE_SIZE,
    ;
}

impl GetPages for MemoryMapInfo {
    open spec fn total_pages(&self) -> nat {
        pages_sum(self.descriptors@, self.descriptors@.len() as int)
    }

    fn get_available_memory_bytes(&self) -> (bytes: usize) {
        self.get_pages() * PAGE_SIZE
    }

    fn get_pages(&self) -> (pages: usize) {
        let mut pages: usize = 0;
        let mut i: usize = 0;
        while i < self.descriptors.len()
            invariant
                i <= self.descriptors@.len(),
                pages == pages_sum(self.descriptors@, i as int),
                pages_sum(self.descriptors@, self.descriptors@.len() as int) <= usize::MAX,
            decreases self.descriptors@.len() - i,
        {
            proof {
                lemma_pages_sum_mono(self.descriptors@, i as int + 1, self.descriptors@.len() as int);
            }
            pages = pages + self.descriptors[i].number_of_pages as usize;
            i = i + 1;
        }
        pages
    }
}

} // verus!
