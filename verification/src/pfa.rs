//! The page frame allocator of the kernel's memory driver: one bit per page
//! frame, and byte counters of the memory that is free, in use and reserved.
use vstd::prelude::*;
use crate::bitmap::Bitmap;
use crate::bits::{
    fill, zeros_in, ones, popcount, lemma_popcount_none, lemma_popcount_set, lemma_fill_step,
    lemma_zeros_in_mono, lemma_ones_zeros, lemma_ones_clear_tail, lemma_popcount_fill,
};
use crate::boot::{
    BootInfo, MemoryDescriptor, pages_sum, descriptors_in_range, PHYSICAL_LIMIT, CONVENTIONAL_MEMORY, LOADER_DATA,
};

use crate::memory::GetPages;

verus! {

/// The size of a page frame in bytes.
pub const PAGE_SIZE: usize = 0x1000;

/// What to do with each page of a run (the allocator's per-page operations).
#[derive(Clone, Copy, PartialEq, Eq, Structural, Debug)]
pub enum PageAction {
    Lock,
    Reserve,
}

pub struct PageFrameAllocator {
    pub total_mem: usize,
    pub free_mem: usize,
    pub used_mem: usize,
    pub reserved_mem: usize,
    pub page_bitmap: Bitmap,
    pub first_free_page_index: usize,
}

/// The smaller of two integers.
pub open spec fn min(a: int, b: int) -> int {
    if a <= b {
        a
    } else {
        b
    }
}

/// The address and page count of the largest conventional-memory descriptor
/// among the first `n` (the first of equal ones wins; `(0, 0)` if none).
pub open spec fn largest_conventional(descs: Seq<MemoryDescriptor>, n: int) -> (u64, u64)
    decreases n,
{
    if n <= 0 {
        (0, 0)
    } else {
        let (addr, pages) = largest_conventional(descs, n - 1);
        let d = descs[n - 1];
        if d.memory_type == CONVENTIONAL_MEMORY && d.number_of_pages > pages {
            (d.physical_start, d.number_of_pages)
        } else {
            (addr, pages)
        }
    }
}

/// Whether the memory a descriptor covers gets reserved at start-up.
pub open spec fn reserved_kind(d: MemoryDescriptor) -> bool {
    d.memory_type != CONVENTIONAL_MEMORY && d.memory_type != LOADER_DATA
}

/// `s` after the runs of all descriptors among the first `n` that get
/// reserved have been set, in a bitmap of highest index `size`.
pub open spec fn reserve_fill(s: Seq<bool>, descs: Seq<MemoryDescriptor>, n: int, size: int) -> Seq<
    bool,
>
    decreases n,
{
    if n <= 0 {
        s
    } else {
        let prev = reserve_fill(s, descs, n - 1, size);
        let d = descs[n - 1];
        if reserved_kind(d) {
            let lo = d.physical_start as int / PAGE_SIZE as int;
            fill(prev, lo, min(lo + d.number_of_pages, size + 1))
        } else {
            prev
        }
    }
}

/// The pages that start-up locks: the bitmap's own, the kernel image's, the
/// frame buffer's and the font's, in a cleared bitmap of highest index `size`.
pub open spec fn locked_at_start(
    len: int,
    size: int,
    bitmap_addr: int,
    k_start: int,
    k_end: int,
    fb_base: int,
    fb_size: int,
    font: int,
) -> Seq<bool> {
    let v0 = Seq::new(len as nat, |j: int| false);
    let b = bitmap_addr / PAGE_SIZE as int;
    let v1 = fill(v0, b, min(b + size / PAGE_SIZE as int + 1, size + 1));
    let k = k_start / PAGE_SIZE as int;
    let v2 = fill(v1, k, min(k + (k_end - k_start) / PAGE_SIZE as int + 1, size + 1));
    let f = fb_base / PAGE_SIZE as int;
    let v3 = fill(v2, f, min(f + fb_size / PAGE_SIZE as int + 1, size + 1));
    let g = font / PAGE_SIZE as int;
    fill(v3, g, min(g + 1, size + 1))
}

impl PageFrameAllocator {
    /// The counters and the bitmap agree: every set bit stands for one page
    /// frame in use or reserved, and bits past `size` stay clear.
    pub open spec fn inv(&self) -> bool {
        &&& self.page_bitmap.wf()
        &&& self.free_mem + self.used_mem + self.reserved_mem == self.total_mem
        &&& self.used_mem + self.reserved_mem == PAGE_SIZE * popcount(self.page_bitmap@)
        &&& forall|j: int|
            self.page_bitmap.size < j < self.page_bitmap@.len() ==> !#[trigger] self.page_bitmap@[j]
    }

    /// The bitmap has no more entries than the memory has page frames.
    pub open spec fn bounded(&self) -> bool {
        (self.page_bitmap.size + 1) * PAGE_SIZE <= self.total_mem
    }

    /// Whether the page frame with this index can still be taken.
    pub open spec fn takeable(&self, index: int) -> bool {
        0 <= index <= self.page_bitmap.size && !self.page_bitmap@[index]
    }

    /// The counter that an action moves memory into.
    pub open spec fn counter(&self, action: PageAction) -> int {
        match action {
            PageAction::Lock => self.used_mem as int,
            PageAction::Reserve => self.reserved_mem as int,
        }
    }

    /// `post` is `pre` after the frames whose indices lie in `[lo, hi)` have
    /// been taken by `action`: `PAGE_SIZE` bytes move from free to the
    /// action's counter for each of them that was still clear.
    pub open spec fn run_taken(pre: &Self, post: &Self, action: PageAction, lo: int, hi: int) -> bool {
        let z = zeros_in(pre.page_bitmap@, lo, hi) as int;
        &&& post.page_bitmap.wf()
        &&& post.page_bitmap.size == pre.page_bitmap.size
        &&& post.page_bitmap.addr == pre.page_bitmap.addr
        &&& post.page_bitmap@ == fill(pre.page_bitmap@, lo, hi)
        &&& post.total_mem == pre.total_mem
        &&& post.first_free_page_index == pre.first_free_page_index
        &&& post.free_mem == pre.free_mem - PAGE_SIZE * z
        &&& post.used_mem == pre.used_mem + if action == PageAction::Lock {
            PAGE_SIZE * z
        } else {
            0
        }
        &&& post.reserved_mem == pre.reserved_mem + if action == PageAction::Reserve {
            PAGE_SIZE * z
        } else {
            0
        }
    }

    /// The end of the run of `pages` frames from `start_addr`, cut at the bitmap's end.
    pub open spec fn run_end(&self, start_addr: int, pages: int) -> int {
        min(start_addr as int / PAGE_SIZE as int + pages, self.page_bitmap.size + 1)
    }

    /// An allocator over no memory.
    pub fn const_default() -> (res: Self)
        ensures
            res.total_mem == 0,
            res.free_mem == 0,
            res.used_mem == 0,
            res.reserved_mem == 0,
            res.page_bitmap.size == 0,
            res.page_bitmap.addr == 0,
            res.first_free_page_index == 0,
            res.inv(),
    {
        let page_bitmap = Bitmap::new(0, 0);
        proof {
            lemma_popcount_none(page_bitmap@, page_bitmap@.len() as int);
        }
        PageFrameAllocator {
            total_mem: 0,
            free_mem: 0,
            used_mem: 0,
            reserved_mem: 0,
            page_bitmap,
            first_free_page_index: 0,
        }
    }

    fn take_page(&mut self, action: PageAction, page_addr: usize) -> (taken: bool)
        requires
            old(self).page_bitmap.wf(),
            old(self).takeable((page_addr / PAGE_SIZE) as int) ==> PAGE_SIZE <= old(self).free_mem
                && old(self).counter(action) + PAGE_SIZE <= usize::MAX,
        ensures
            taken == old(self).takeable((page_addr / PAGE_SIZE) as int),
            Self::run_taken(
                old(self),
                final(self),
                action,
                (page_addr / PAGE_SIZE) as int,
                min((page_addr / PAGE_SIZE) as int + 1, old(self).page_bitmap.size + 1),
            ),
            old(self).inv() ==> final(self).inv(),
    {
        let index = page_addr / PAGE_SIZE;
        let ghost pre = self.page_bitmap@;
        proof {
            if index <= self.page_bitmap.size {
                lemma_fill_step(pre, index as int, index as int);
                assert(fill(pre, index as int, index as int) =~= pre);
                if pre[index as int] {
                    assert(pre.update(index as int, true) =~= pre);
                }
            } else {
                assert(fill(pre, index as int, self.page_bitmap.size + 1) =~= pre);
            }
        }
        if index > self.page_bitmap.size || self.page_bitmap.index(index) {
            return false;
        }
        self.page_bitmap.set(index, true);
        self.free_mem = self.free_mem - PAGE_SIZE;
        match action {
            PageAction::Lock => {
                self.used_mem = self.used_mem + PAGE_SIZE;
            },
            PageAction::Reserve => {
                self.reserved_mem = self.reserved_mem + PAGE_SIZE;
            },
        }
        proof {
            lemma_popcount_set(pre, index as int);
        }
        true
    }

    /// Marks the page frame at `page_addr` as in use; refuses a frame that is
    /// taken already or lies past the bitmap.
    pub fn lock_page(&mut self, page_addr: usize) -> (locked: bool)
        requires
            old(self).page_bitmap.wf(),
            old(self).takeable((page_addr / PAGE_SIZE) as int) ==> PAGE_SIZE <= old(self).free_mem
                && old(self).used_mem + PAGE_SIZE <= usize::MAX,
        ensures
            locked == old(self).takeable((page_addr / PAGE_SIZE) as int),
            Self::run_taken(
                old(self),
                final(self),
                PageAction::Lock,
                (page_addr / PAGE_SIZE) as int,
                min((page_addr / PAGE_SIZE) as int + 1, old(self).page_bitmap.size + 1),
            ),
            old(self).inv() ==> final(self).inv(),
    {
        self.take_page(PageAction::Lock, page_addr)
    }

    /// Marks the page frame at `page_addr` as reserved; refuses a frame that
    /// is taken already or lies past the bitmap.
    pub fn reserve_page(&mut self, page_addr: usize) -> (reserved: bool)
        requires
            old(self).page_bitmap.wf(),
            old(self).takeable((page_addr / PAGE_SIZE) as int) ==> PAGE_SIZE <= old(self).free_mem
                && old(self).reserved_mem + PAGE_SIZE <= usize::MAX,
        ensures
            reserved == old(self).takeable((page_addr / PAGE_SIZE) as int),
            Self::run_taken(
                old(self),
                final(self),
                PageAction::Reserve,
                (page_addr / PAGE_SIZE) as int,
                min((page_addr / PAGE_SIZE) as int + 1, old(self).page_bitmap.size + 1),
            ),
            old(self).inv() ==> final(self).inv(),
    {
        self.take_page(PageAction::Reserve, page_addr)
    }

    /// Applies `action` to the `pages` page frames from `start_addr` on.
    pub fn iter_action(&mut self, action: PageAction, start_addr: usize, pages: usize) -> (done: bool)
        requires
            old(self).page_bitmap.wf(),
            pages > 0 ==> start_addr + (pages - 1) * PAGE_SIZE <= usize::MAX,
            PAGE_SIZE * zeros_in(
                old(self).page_bitmap@,
                start_addr as int / PAGE_SIZE as int,
                old(self).run_end(start_addr as int, pages as int),
            ) <= old(self).free_mem,
            old(self).counter(action) + PAGE_SIZE * zeros_in(
                old(self).page_bitmap@,
                start_addr as int / PAGE_SIZE as int,
                old(self).run_end(start_addr as int, pages as int),
            ) <= usize::MAX,
        ensures
            done,
            Self::run_taken(
                old(self),
                final(self),
                action,
                start_addr as int / PAGE_SIZE as int,
                old(self).run_end(start_addr as int, pages as int),
            ),
            old(self).inv() ==> final(self).inv(),
    {
        let ghost pre = *self;
        let ghost v0 = self.page_bitmap@;
        let ghost lo: int = start_addr as int / PAGE_SIZE as int;
        let ghost size: int = self.page_bitmap.size as int;
        let ghost end: int = pre.run_end(start_addr as int, pages as int);
        proof {
            assert(fill(v0, lo, min(lo, size + 1)) =~= v0);
        }
        let mut i: usize = 0;
        while i < pages
            invariant
                i <= pages,
                lo == start_addr as int / PAGE_SIZE as int,
                size == pre.page_bitmap.size,
                v0 == pre.page_bitmap@,
                end == min(lo + pages, size + 1),
                pre.page_bitmap.wf(),
                pages > 0 ==> start_addr + (pages - 1) * PAGE_SIZE <= usize::MAX,
                PAGE_SIZE * zeros_in(v0, lo, end) <= pre.free_mem,
                pre.counter(action) + PAGE_SIZE * zeros_in(v0, lo, end) <= usize::MAX,
                Self::run_taken(&pre, self, action, lo, min(lo + i, size + 1)),
                pre.inv() ==> self.inv(),
            decreases pages - i,
        {
            let addr = start_addr + i * PAGE_SIZE;
            let ghost cur = *self;
            proof {
                vstd::arithmetic::div_mod::lemma_hoist_over_denominator(
                    start_addr as int,
                    i as int,
                    PAGE_SIZE as nat,
                );
                assert((addr / PAGE_SIZE) as int == lo + i);
                if lo + i <= size {
                    lemma_fill_step(v0, lo, lo + i);
                    lemma_zeros_in_mono(v0, lo, lo + i + 1, lo, end);
                }
            }
            self.take_page(action, addr);
            proof {
                if lo + i <= size {
                    lemma_fill_step(cur.page_bitmap@, lo + i, lo + i);
                    assert(fill(cur.page_bitmap@, lo + i, lo + i) =~= cur.page_bitmap@);
                    assert(zeros_in(cur.page_bitmap@, lo + i, lo + i + 1) == zeros_in(v0, lo, lo + i + 1) - zeros_in(v0, lo, lo + i));
                    assert(fill(cur.page_bitmap@, lo + i, min(lo + i + 1, size + 1)) =~= fill(
                        v0,
                        lo,
                        min(lo + i + 1, size + 1),
                    ));
                } else {
                    assert(fill(cur.page_bitmap@, lo + i, min(lo + i + 1, size + 1))
                        =~= cur.page_bitmap@);
                }
            }
            i = i + 1;
        }
        true
    }

    /// The first page frame that is clear, marked as in use; `None` when every
    /// frame below `size` is taken. (The caller clears the frame's memory.)
    pub fn get_free_page(&mut self) -> (page: Option<u64>)
        requires
            old(self).page_bitmap.wf(),
            forall|i: int|
                #![trigger old(self).page_bitmap@[i]]
                0 <= i < old(self).page_bitmap.size && !old(self).page_bitmap@[i] && (forall|j: int|
                    0 <= j < i ==> old(self).page_bitmap@[j]) ==> i * PAGE_SIZE <= usize::MAX
                    && PAGE_SIZE <= old(self).free_mem && old(self).used_mem + PAGE_SIZE
                    <= usize::MAX,
        ensures
            match page {
                Some(addr) => {
                    let i = addr as int / PAGE_SIZE as int;
                    &&& addr as int % PAGE_SIZE as int == 0
                    &&& 0 <= i < old(self).page_bitmap.size
                    &&& !old(self).page_bitmap@[i]
                    &&& forall|j: int| 0 <= j < i ==> old(self).page_bitmap@[j]
                    &&& Self::run_taken(old(self), final(self), PageAction::Lock, i, i + 1)
                },
                None => {
                    &&& forall|j: int| 0 <= j < old(self).page_bitmap.size ==> old(self).page_bitmap@[j]
                    &&& Self::run_taken(old(self), final(self), PageAction::Lock, 0, 0)
                },
            },
            old(self).inv() ==> final(self).inv(),
    {
        let i = self.first_clear();
        if i < self.page_bitmap.size {
            proof {
                vstd::arithmetic::div_mod::lemma_hoist_over_denominator(0, i as int, PAGE_SIZE as nat);
                vstd::arithmetic::div_mod::lemma_mod_multiples_basic(i as int, PAGE_SIZE as int);
            }
            let addr = i * PAGE_SIZE;
            assert(addr / PAGE_SIZE == i);
            assert(addr % PAGE_SIZE == 0);
            self.lock_page(addr);
            Some(addr as u64)
        } else {
            proof {
                assert(fill(self.page_bitmap@, 0, 0) =~= self.page_bitmap@);
            }
            None
        }
    }

    /// The index of the first clear bit below `size`, or `size` if there is none.
    fn first_clear(&self) -> (i: usize)
        requires
            self.page_bitmap.wf(),
        ensures
            i <= self.page_bitmap.size,
            forall|j: int| 0 <= j < i ==> self.page_bitmap@[j],
            i < self.page_bitmap.size ==> !self.page_bitmap@[i as int],
    {
        let mut i: usize = 0;
        while i < self.page_bitmap.size
            invariant
                i <= self.page_bitmap.size,
                self.page_bitmap.wf(),
                forall|j: int| 0 <= j < i ==> self.page_bitmap@[j],
            decreases self.page_bitmap.size - i,
        {
            if !self.page_bitmap.index(i) {
                return i;
            }
            i = i + 1;
        }
        i
    }

    /// A consistent allocator with no more bits than page frames has room to
    /// take every clear frame of any run inside the bitmap.
    pub proof fn lemma_room(&self, lo: int, hi: int)
        requires
            self.inv(),
            self.bounded(),
            0 <= lo,
            hi <= self.page_bitmap.size + 1,
        ensures
            PAGE_SIZE * zeros_in(self.page_bitmap@, lo, hi) <= self.free_mem,
            self.used_mem + PAGE_SIZE * zeros_in(self.page_bitmap@, lo, hi) <= self.total_mem,
            self.reserved_mem + PAGE_SIZE * zeros_in(self.page_bitmap@, lo, hi) <= self.total_mem,
    {
        let v = self.page_bitmap@;
        let n = self.page_bitmap.size + 1;
        lemma_zeros_in_mono(v, lo, hi, 0, n);
        lemma_ones_zeros(v, n);
        lemma_ones_clear_tail(v, n, v.len() as int);
        assert(PAGE_SIZE * zeros_in(v, 0, n) + PAGE_SIZE * ones(v, n) == PAGE_SIZE * n);
    }

    /// Sets the allocator up from the boot information: the bitmap goes into
    /// the largest conventional segment; the bitmap's own pages, the kernel
    /// image `k_start..k_end`, the frame buffer and the font are locked; every
    /// segment that is neither conventional memory nor loader data is reserved.
    /// A memory map of fewer than two pages is left out: its bitmap of
    /// `pages / 8 + 1` bytes then indexes more frames than the map holds, and
    /// locking those frames can take the free counter below zero.
    pub fn init(&mut self, boot_info: &BootInfo, k_start: u64, k_end: u64)
        requires
            usize::BITS == 64,
            pages_sum(
                boot_info.memory_map_info.descriptors@,
                boot_info.memory_map_info.descriptors@.len() as int,
            ) >= 2,
            pages_sum(
                boot_info.memory_map_info.descriptors@,
                boot_info.memory_map_info.descriptors@.len() as int,
            ) * PAGE_SIZE <= PHYSICAL_LIMIT,
            descriptors_in_range(boot_info.memory_map_info.descriptors@),
            k_start <= k_end,
            boot_info.graphics.frame_buffer_base_address + boot_info.graphics.frame_buffer_size
                <= usize::MAX,
        ensures
            ({
                let descs = boot_info.memory_map_info.descriptors@;
                let n = descs.len() as int;
                let pages = pages_sum(descs, n) as int;
                let size: int = pages / 8 + 1;
                let addr = largest_conventional(descs, n).0;
                let locked = locked_at_start(
                    (size / 8 + 1) * 8,
                    size,
                    addr as int,
                    k_start as int,
                    k_end as int,
                    boot_info.graphics.frame_buffer_base_address as int,
                    boot_info.graphics.frame_buffer_size as int,
                    boot_info.font.glyph_buffer_base_address as int,
                );
                &&& final(self).inv()
                &&& final(self).bounded()
                &&& final(self).total_mem == pages * PAGE_SIZE
                &&& final(self).page_bitmap.size == size
                &&& final(self).page_bitmap.addr == addr
                &&& final(self).first_free_page_index == 0
                &&& final(self).page_bitmap@ == reserve_fill(locked, descs, n, size)
                &&& final(self).used_mem == PAGE_SIZE * popcount(locked)
                &&& final(self).reserved_mem == PAGE_SIZE * popcount(final(self).page_bitmap@)
                    - PAGE_SIZE * popcount(locked)
            }),
    {
        let descs = &boot_info.memory_map_info.descriptors;
        let ghost n = descs@.len() as int;
        let mut largest_addr: u64 = 0;
        let mut largest_size: u64 = 0;
        let mut i: usize = 0;
        while i < descs.len()
            invariant
                i <= descs@.len(),
                (largest_addr, largest_size) == largest_conventional(descs@, i as int),
            decreases descs@.len() - i,
        {
            let desc = descs[i];
            if desc.memory_type == CONVENTIONAL_MEMORY && desc.number_of_pages > largest_size {
                largest_addr = desc.physical_start;
                largest_size = desc.number_of_pages;
            }
            i = i + 1;
        }
        proof {
            let lc = largest_conventional(descs@, n);
            lemma_largest_in_range(descs@, n);
        }
        self.total_mem = boot_info.memory_map_info.get_available_memory_bytes();
        self.free_mem = self.total_mem;
        self.used_mem = 0;
        self.reserved_mem = 0;
        self.page_bitmap = Bitmap::new(boot_info.memory_map_info.get_pages() / 8 + 1, largest_addr);
        self.first_free_page_index = 0;
        let ghost pages: int = pages_sum(descs@, n) as int;
        let ghost size: int = pages / 8 + 1;
        let ghost v0 = Seq::new(((size / 8 + 1) * 8) as nat, |j: int| false);
        proof {
            assert(self.page_bitmap@ =~= v0);
            lemma_popcount_none(v0, v0.len() as int);
            assert(self.inv());
            assert(self.bounded());
        }
        let ghost s0 = *self;
        let bitmap_start = self.page_bitmap.addr as usize;
        let bitmap_pages = self.page_bitmap.size / PAGE_SIZE + 1;
        proof {
            s0.lemma_room(bitmap_start as int / PAGE_SIZE as int, s0.run_end(bitmap_start as int, bitmap_pages as int));
        }
        self.iter_action(PageAction::Lock, bitmap_start, bitmap_pages);
        let ghost s1 = *self;
        let kernel_start = k_start as usize;
        let kernel_pages = ((k_end - k_start) as usize) / PAGE_SIZE + 1;
        proof {
            s1.lemma_room(kernel_start as int / PAGE_SIZE as int, s1.run_end(kernel_start as int, kernel_pages as int));
        }
        self.iter_action(PageAction::Lock, kernel_start, kernel_pages);
        let ghost s2 = *self;
        let fb_start = boot_info.graphics.frame_buffer_base_address as usize;
        let fb_pages = boot_info.graphics.frame_buffer_size / PAGE_SIZE + 1;
        proof {
            s2.lemma_room(fb_start as int / PAGE_SIZE as int, s2.run_end(fb_start as int, fb_pages as int));
        }
        self.iter_action(PageAction::Lock, fb_start, fb_pages);
        let ghost s3 = *self;
        let font_addr = boot_info.font.glyph_buffer_base_address as usize;
        proof {
            s3.lemma_room((font_addr / PAGE_SIZE) as int, min((font_addr / PAGE_SIZE) as int + 1, size + 1));
        }
        self.lock_page(font_addr);
        let ghost locked = self.page_bitmap@;
        proof {
            let lk = locked_at_start(
                (size / 8 + 1) * 8,
                size,
                largest_addr as int,
                k_start as int,
                k_end as int,
                boot_info.graphics.frame_buffer_base_address as int,
                boot_info.graphics.frame_buffer_size as int,
                boot_info.font.glyph_buffer_base_address as int,
            );
            assert(locked =~= lk);
            lemma_popcount_none(v0, v0.len() as int);
            assert(self.used_mem == PAGE_SIZE * popcount(locked));
            assert(reserve_fill(locked, descs@, 0, size) == locked);
        }
        let mut k: usize = 0;
        while k < descs.len()
            invariant
                k <= descs@.len(),
                n == descs@.len(),
                descriptors_in_range(descs@),
                usize::BITS == 64,
                self.inv(),
                self.bounded(),
                self.page_bitmap.size == size,
                self.page_bitmap.addr == largest_addr,
                self.total_mem == pages * PAGE_SIZE,
                self.first_free_page_index == 0,
                self.page_bitmap@ == reserve_fill(locked, descs@, k as int, size),
                self.used_mem == PAGE_SIZE * popcount(locked),
                self.reserved_mem == PAGE_SIZE * popcount(self.page_bitmap@) - PAGE_SIZE * popcount(
                    locked,
                ),
            decreases descs@.len() - k,
        {
            let desc = descs[k];
            if desc.memory_type != CONVENTIONAL_MEMORY && desc.memory_type != LOADER_DATA {
                let start = desc.physical_start as usize;
                let count = desc.number_of_pages as usize;
                let ghost cur = *self;
                proof {
                    assert(descs@[k as int] == desc);
                    cur.lemma_room(start as int / PAGE_SIZE as int, cur.run_end(start as int, count as int));
                    lemma_popcount_fill(cur.page_bitmap@, start as int / PAGE_SIZE as int, cur.run_end(start as int, count as int));
                }
                self.iter_action(PageAction::Reserve, start, count);
            }
            k = k + 1;
        }
    }
}

/// The largest conventional segment lies below the physical address limit.
pub proof fn lemma_largest_in_range(descs: Seq<MemoryDescriptor>, n: int)
    requires
        0 <= n <= descs.len(),
        descriptors_in_range(descs),
    ensures
        largest_conventional(descs, n).0 < PHYSICAL_LIMIT,
    decreases n,
{
    if n > 0 {
        lemma_largest_in_range(descs, n - 1);
        assert(descs[n - 1].physical_start + descs[n - 1].number_of_pages * PAGE_SIZE <= PHYSICAL_LIMIT);
    }
}

/// The segment picked for the bitmap among the first `n` descriptors is the
/// largest conventional one: no conventional descriptor has more pages, and
/// when some conventional descriptor has pages, the pick is the first
/// conventional descriptor of that largest size (its start and page count);
/// with none, the pick is address 0 with no pages.
pub proof fn lemma_largest_is_largest(descs: Seq<MemoryDescriptor>, n: int)
    requires
        0 <= n <= descs.len(),
    ensures
        forall|j: int|
            0 <= j < n && (#[trigger] descs[j]).memory_type == CONVENTIONAL_MEMORY ==> descs[j].number_of_pages
                <= largest_conventional(descs, n).1,
        largest_conventional(descs, n).1 == 0 ==> largest_conventional(descs, n).0 == 0,
        largest_conventional(descs, n).1 > 0 ==> exists|j: int|
            0 <= j < n && (#[trigger] descs[j]).memory_type == CONVENTIONAL_MEMORY && descs[j].physical_start
                == largest_conventional(descs, n).0 && descs[j].number_of_pages == largest_conventional(
                descs,
                n,
            ).1 && forall|k: int|
                0 <= k < j && (#[trigger] descs[k]).memory_type == CONVENTIONAL_MEMORY
                    ==> descs[k].number_of_pages < descs[j].number_of_pages,
    decreases n,
{
    if n > 0 {
        lemma_largest_is_largest(descs, n - 1);
        let (addr, pages) = largest_conventional(descs, n - 1);
        let d = descs[n - 1];
        if d.memory_type == CONVENTIONAL_MEMORY && d.number_of_pages > pages {
            assert(descs[n - 1] == d);
            assert forall|k: int|
                0 <= k < n - 1 && (#[trigger] descs[k]).memory_type == CONVENTIONAL_MEMORY implies descs[k].number_of_pages
                    < descs[n - 1].number_of_pages by {}
        } else if pages > 0 {
            let j = choose|j: int|
                0 <= j < n - 1 && (#[trigger] descs[j]).memory_type == CONVENTIONAL_MEMORY && descs[j].physical_start
                    == addr && descs[j].number_of_pages == pages && forall|k: int|
                    0 <= k < j && (#[trigger] descs[k]).memory_type == CONVENTIONAL_MEMORY
                        ==> descs[k].number_of_pages < descs[j].number_of_pages;
            assert(descs[j].memory_type == CONVENTIONAL_MEMORY);
        }
    }
}

/// A frame `get_free_page` hands out is locked, so a later call hands out another one.
pub proof fn lemma_page_handed_out_once(a0: &PageFrameAllocator, a1: &PageFrameAllocator, first: int, second: int)
    requires
        a0.page_bitmap.wf(),
        0 <= first < a0.page_bitmap.size,
        PageFrameAllocator::run_taken(a0, a1, PageAction::Lock, first, first + 1),
        0 <= second < a1.page_bitmap.size,
        !a1.page_bitmap@[second],
    ensures
        first != second,
{
    assert(a1.page_bitmap@[first]);
}

/// A frame that `lock_page` or `reserve_page` has taken cannot be taken
/// again: a second `lock_page` or `reserve_page` of it returns false and
/// leaves the allocator as it was.
pub proof fn lemma_taken_page_refused(
    a0: &PageFrameAllocator,
    a1: &PageFrameAllocator,
    a2: &PageFrameAllocator,
    first: PageAction,
    second: PageAction,
    index: int,
)
    requires
        a0.page_bitmap.wf(),
        0 <= index,
        PageFrameAllocator::run_taken(a0, a1, first, index, min(index + 1, a0.page_bitmap.size + 1)),
        PageFrameAllocator::run_taken(a1, a2, second, index, min(index + 1, a1.page_bitmap.size + 1)),
    ensures
        !a1.takeable(index),
        a2.page_bitmap@ == a1.page_bitmap@,
        a2.free_mem == a1.free_mem,
        a2.used_mem == a1.used_mem,
        a2.reserved_mem == a1.reserved_mem,
        a2.total_mem == a1.total_mem,
{
    let v = a1.page_bitmap@;
    let hi = min(index + 1, a1.page_bitmap.size + 1);
    if index < hi {
        assert(v[index]);
        crate::bits::lemma_zeros_in_uniform(v, index, hi, true);
    }
    assert(fill(v, index, hi) =~= v);
}

} // verus!
