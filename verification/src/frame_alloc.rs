//! The kernel's page frame allocator: one bit per page frame, and counts of
//! the frames that are free, in use and reserved.
use vstd::prelude::*;
use crate::frame_bitmap::Bitmap;
use crate::bits::{
    popcount, ones, zeros_in, lemma_popcount_none, lemma_popcount_set, lemma_popcount_clear,
    lemma_ones_zeros, lemma_ones_clear_tail, lemma_zeros_in_split,
    lemma_zeros_in_bound, lemma_zeros_in_uniform,
};
use crate::boot::{BootInfo, MemoryDescriptor, pages_sum, descriptors_in_range, PHYSICAL_LIMIT, CONVENTIONAL_MEMORY};
use crate::pfa::largest_conventional;

use crate::memory::GetPages;

verus! {

/// The size of a page frame in bytes.
pub const PAGE_SIZE: usize = 4096;

pub struct PageFrameAllocator {
    pub pages: usize,
    pub free_pages: usize,
    pub used_pages: usize,
    pub reserved_pages: usize,
    pub bitmap: Bitmap,
}

/// The outcome of an operation on one page frame.
#[derive(Clone, Copy, PartialEq, Eq, Structural, Debug)]
pub enum PageFameAllocStatus {
    Success,
    AllocErr,
    ReserveErr,
    UnREserveErr,
}

/// The per-frame operations that a run of frames can be put through.
#[derive(Clone, Copy, PartialEq, Eq, Structural, Debug)]
pub enum FrameAction {
    Alloc,
    Reserve,
    Unreserve,
}

/// Whether `action` refuses the frame with this index in a bitmap whose bits
/// are `v` and whose capacity is `cap`: allocating and reserving need a clear
/// bit, unreserving a set one, and all need an index below the capacity.
pub open spec fn fails(v: Seq<bool>, cap: int, action: FrameAction, index: int) -> bool {
    index < 0 || index >= cap || (if action == FrameAction::Unreserve {
        !v[index]
    } else {
        v[index]
    })
}

/// How many frames of the run of `n` from index `lo` an action takes before
/// the first that it refuses.
pub open spec fn run_len(v: Seq<bool>, cap: int, action: FrameAction, lo: int, n: int) -> int
    decreases n,
{
    if n <= 0 {
        0
    } else {
        let r = run_len(v, cap, action, lo, n - 1);
        if r < n - 1 {
            r
        } else if fails(v, cap, action, lo + n - 1) {
            n - 1
        } else {
            n
        }
    }
}

/// The bit value an action leaves behind.
pub open spec fn action_value(action: FrameAction) -> bool {
    action != FrameAction::Unreserve
}

/// The status an action reports when it refuses a frame.
pub open spec fn refusal(action: FrameAction) -> PageFameAllocStatus {
    match action {
        FrameAction::Alloc => PageFameAllocStatus::AllocErr,
        FrameAction::Reserve => PageFameAllocStatus::ReserveErr,
        FrameAction::Unreserve => PageFameAllocStatus::UnREserveErr,
    }
}

/// `v` with every entry in `[lo, hi)` set to `value`.
pub open spec fn flip(v: Seq<bool>, lo: int, hi: int, value: bool) -> Seq<bool> {
    Seq::new(v.len(), |j: int| if lo <= j < hi { value } else { v[j] })
}

/// `v` after an action has gone through the run of `n` frames from `lo`.
pub open spec fn apply_run(v: Seq<bool>, cap: int, action: FrameAction, lo: int, n: int) -> Seq<bool> {
    flip(v, lo, lo + run_len(v, cap, action, lo, n), action_value(action))
}

/// `run_len` counts the frames before the first refusal.
pub proof fn lemma_run_len(v: Seq<bool>, cap: int, action: FrameAction, lo: int, n: int)
    requires
        0 <= n,
    ensures
        0 <= run_len(v, cap, action, lo, n) <= n,
        forall|i: int|
            0 <= i < run_len(v, cap, action, lo, n) ==> !fails(v, cap, action, #[trigger] (lo + i)),
        run_len(v, cap, action, lo, n) < n ==> fails(v, cap, action, lo + run_len(v, cap, action, lo, n)),
    decreases n,
{
    if n > 0 {
        lemma_run_len(v, cap, action, lo, n - 1);
    }
}

/// A frame count that has no refusal before it and a refusal (or the end) at
/// it is the one `run_len` gives.
pub proof fn lemma_run_len_unique(v: Seq<bool>, cap: int, action: FrameAction, lo: int, n: int, i: int)
    requires
        0 <= i <= n,
        forall|k: int| 0 <= k < i ==> !fails(v, cap, action, #[trigger] (lo + k)),
        i == n || fails(v, cap, action, lo + i),
    ensures
        run_len(v, cap, action, lo, n) == i,
{
    lemma_run_len(v, cap, action, lo, n);
    let r = run_len(v, cap, action, lo, n);
    if r < i {
        assert(!fails(v, cap, action, lo + r));
    } else if i < r {
        assert(!fails(v, cap, action, lo + i));
    }
}

impl PageFrameAllocator {
    /// The counters agree with the bitmap: each set bit is a frame in use or
    /// reserved, each clear bit below the capacity a free one.
    pub open spec fn inv(&self) -> bool {
        &&& self.bitmap.wf()
        &&& self.bitmap.capacity == self.pages
        &&& self.free_pages + self.used_pages + self.reserved_pages == self.pages
        &&& self.used_pages + self.reserved_pages == popcount(self.bitmap@)
        &&& forall|j: int| self.bitmap.capacity <= j < self.bitmap@.len() ==> !#[trigger] self.bitmap@[j]
    }

    /// The counter an action draws from or adds to, besides the free one.
    pub open spec fn counter(&self, action: FrameAction) -> int {
        match action {
            FrameAction::Alloc => self.used_pages as int,
            FrameAction::Reserve => self.reserved_pages as int,
            FrameAction::Unreserve => self.reserved_pages as int,
        }
    }

    /// Whether the counters can take `r` more frames of `action` without
    /// running out or past their range.
    pub open spec fn has_room(&self, action: FrameAction, r: int) -> bool {
        if action == FrameAction::Unreserve {
            r <= self.reserved_pages && self.free_pages + r <= usize::MAX
        } else {
            r <= self.free_pages && self.counter(action) + r <= usize::MAX
        }
    }

    /// `post` is `pre` after `action` went through `r` frames from `lo`.
    pub open spec fn run_done(pre: &Self, post: &Self, action: FrameAction, lo: int, r: int) -> bool {
        &&& post.bitmap.wf()
        &&& post.bitmap.capacity == pre.bitmap.capacity
        &&& post.bitmap.addr == pre.bitmap.addr
        &&& post.pages == pre.pages
        &&& post.bitmap@ == flip(pre.bitmap@, lo, lo + r, action_value(action))
        &&& post.free_pages == if action == FrameAction::Unreserve {
            pre.free_pages + r
        } else {
            pre.free_pages - r
        }
        &&& post.used_pages == pre.used_pages + if action == FrameAction::Alloc {
            r
        } else {
            0
        }
        &&& post.reserved_pages == pre.reserved_pages + match action {
            FrameAction::Alloc => 0,
            FrameAction::Reserve => r,
            FrameAction::Unreserve => -r,
        }
    }

    /// What one step of `action` on the frame at `addr` does: it reports
    /// `status` and leaves `post` from `pre`.
    pub open spec fn stepped(pre: &Self, post: &Self, action: FrameAction, addr: int, status: PageFameAllocStatus) -> bool {
        let i = addr / (PAGE_SIZE as int);
        let refused = fails(pre.bitmap@, pre.bitmap.capacity as int, action, i);
        &&& status == if refused {
            refusal(action)
        } else {
            PageFameAllocStatus::Success
        }
        &&& Self::run_done(pre, post, action, i, if refused { 0 } else { 1 })
    }

    /// What a step of `action` at `addr` needs: room in the counters where
    /// the frame is taken.
    pub open spec fn can_step(&self, action: FrameAction, addr: int) -> bool {
        &&& self.bitmap.wf()
        &&& !fails(self.bitmap@, self.bitmap.capacity as int, action, addr / (PAGE_SIZE as int))
            ==> self.has_room(action, 1)
    }

    fn act(&mut self, action: FrameAction, addr: usize) -> (status: PageFameAllocStatus)
        requires
            old(self).can_step(action, addr as int),
        ensures
            Self::stepped(old(self), final(self), action, addr as int, status),
            old(self).inv() ==> final(self).inv(),
    {
        match action {
            FrameAction::Alloc => self.alloc_page(addr),
            FrameAction::Reserve => self.reserve_page(addr),
            FrameAction::Unreserve => self.unreserve_page(addr),
        }
    }

    /// Marks the free frame at `addr` as in use.
    fn alloc_page(&mut self, addr: usize) -> (status: PageFameAllocStatus)
        requires
            old(self).can_step(FrameAction::Alloc, addr as int),
        ensures
            Self::stepped(old(self), final(self), FrameAction::Alloc, addr as int, status),
            old(self).inv() ==> final(self).inv(),
    {
        let index = addr / PAGE_SIZE;
        let ghost pre = self.bitmap@;
        match self.bitmap.index(index) {
            None | Some(true) => {
                proof {
                    assert(flip(pre, index as int, index as int, true) =~= pre);
                }
                return PageFameAllocStatus::AllocErr;
            },
            Some(false) => {},
        }
        self.free_pages = self.free_pages - 1;
        self.used_pages = self.used_pages + 1;
        self.bitmap.set(index, true);
        proof {
            lemma_popcount_set(pre, index as int);
            assert(flip(pre, index as int, index as int + 1, true) =~= pre.update(index as int, true));
        }
        PageFameAllocStatus::Success
    }

    /// Marks the free frame at `addr` as reserved.
    fn reserve_page(&mut self, addr: usize) -> (status: PageFameAllocStatus)
        requires
            old(self).can_step(FrameAction::Reserve, addr as int),
        ensures
            Self::stepped(old(self), final(self), FrameAction::Reserve, addr as int, status),
            old(self).inv() ==> final(self).inv(),
    {
        let index = addr / PAGE_SIZE;
        let ghost pre = self.bitmap@;
        match self.bitmap.index(index) {
            None | Some(true) => {
                proof {
                    assert(flip(pre, index as int, index as int, true) =~= pre);
                }
                return PageFameAllocStatus::ReserveErr;
            },
            Some(false) => {},
        }
        self.free_pages = self.free_pages - 1;
        self.reserved_pages = self.reserved_pages + 1;
        self.bitmap.set(index, true);
        proof {
            lemma_popcount_set(pre, index as int);
            assert(flip(pre, index as int, index as int + 1, true) =~= pre.update(index as int, true));
        }
        PageFameAllocStatus::Success
    }

    /// Gives the reserved frame at `addr` back to the free ones.
    fn unreserve_page(&mut self, addr: usize) -> (status: PageFameAllocStatus)
        requires
            old(self).can_step(FrameAction::Unreserve, addr as int),
        ensures
            Self::stepped(old(self), final(self), FrameAction::Unreserve, addr as int, status),
            old(self).inv() ==> final(self).inv(),
    {
        let index = addr / PAGE_SIZE;
        let ghost pre = self.bitmap@;
        match self.bitmap.index(index) {
            None | Some(false) => {
                proof {
                    assert(flip(pre, index as int, index as int, false) =~= pre);
                }
                return PageFameAllocStatus::UnREserveErr;
            },
            Some(true) => {},
        }
        self.free_pages = self.free_pages + 1;
        self.reserved_pages = self.reserved_pages - 1;
        self.bitmap.set(index, false);
        proof {
            lemma_popcount_clear(pre, index as int);
            assert(flip(pre, index as int, index as int + 1, false) =~= pre.update(index as int, false));
        }
        PageFameAllocStatus::Success
    }

    /// Goes through the `pages` frames from `start_addr` with `action`, and
    /// stops at the first frame the action refuses, reporting its status and
    /// its position in the run.
    pub fn iter_action(&mut self, action: FrameAction, start_addr: usize, pages: usize) -> (res: Result<
        PageFameAllocStatus,
        (PageFameAllocStatus, usize),
    >)
        requires
            old(self).bitmap.wf(),
            ({
                let r = run_len(
                    old(self).bitmap@,
                    old(self).bitmap.capacity as int,
                    action,
                    start_addr as int / PAGE_SIZE as int,
                    pages as int,
                );
                &&& old(self).has_room(action, r)
                &&& pages > 0 ==> start_addr + (if r < pages { r } else { pages - 1 }) * PAGE_SIZE
                    <= usize::MAX
            }),
        ensures
            ({
                let lo = start_addr as int / PAGE_SIZE as int;
                let r = run_len(old(self).bitmap@, old(self).bitmap.capacity as int, action, lo, pages as int);
                &&& res == if r == pages {
                    Ok::<PageFameAllocStatus, (PageFameAllocStatus, usize)>(PageFameAllocStatus::Success)
                } else {
                    Err((refusal(action), r as usize))
                }
                &&& Self::run_done(old(self), final(self), action, lo, r)
            }),
            old(self).inv() ==> final(self).inv(),
    {
        let ghost pre = *self;
        let ghost v0 = self.bitmap@;
        let ghost cap = self.bitmap.capacity as int;
        let ghost lo: int = start_addr as int / PAGE_SIZE as int;
        let ghost r = run_len(v0, cap, action, lo, pages as int);
        proof {
            lemma_run_len(v0, cap, action, lo, pages as int);
            assert(flip(v0, lo, lo, action_value(action)) =~= v0);
        }
        let mut i: usize = 0;
        while i < pages
            invariant
                pre == *old(self),
                i <= r,
                r <= pages,
                lo == start_addr as int / PAGE_SIZE as int,
                v0 == pre.bitmap@,
                cap == pre.bitmap.capacity,
                pre.bitmap.wf(),
                r == run_len(v0, cap, action, lo, pages as int),
                forall|k: int| 0 <= k < r ==> !fails(v0, cap, action, #[trigger] (lo + k)),
                r < pages ==> fails(v0, cap, action, lo + r),
                pre.has_room(action, r),
                pages > 0 ==> start_addr + (if r < pages { r } else { pages - 1 }) * PAGE_SIZE
                    <= usize::MAX,
                Self::run_done(&pre, self, action, lo, i as int),
                pre.inv() ==> self.inv(),
            decreases pages - i,
        {
            let addr = start_addr + i * PAGE_SIZE;
            let ghost cur = *self;
            proof {
                vstd::arithmetic::div_mod::lemma_hoist_over_denominator(
                    start_addr as int,
                    i as int,
                    PAGE_SIZE as nat,
                );
                assert((addr / PAGE_SIZE) as int == lo + i);
                assert(cur.bitmap@[lo + i] == v0[lo + i] || lo + i < 0 || lo + i >= cur.bitmap@.len());
            }
            let status = self.act(action, addr);
            match status {
                PageFameAllocStatus::Success => {
                    proof {
                        assert(flip(cur.bitmap@, lo + i, lo + i + 1, action_value(action)) =~= flip(
                            v0,
                            lo,
                            lo + i + 1,
                            action_value(action),
                        ));
                    }
                },
                err => {
                    proof {
                        assert(fails(v0, cap, action, lo + i));
                        assert(flip(cur.bitmap@, lo + i, lo + i, action_value(action)) =~= cur.bitmap@);
                    }
                    return Err((err, i));
                },
            }
            i = i + 1;
        }
        Ok(PageFameAllocStatus::Success)
    }

    /// A consistent allocator has room for every frame that a run takes
    /// (for releasing, when no frame is in use).
    pub proof fn lemma_run_room(&self, action: FrameAction, lo: int, n: int)
        requires
            self.inv(),
            0 <= n,
            action == FrameAction::Unreserve ==> self.used_pages == 0,
        ensures
            self.has_room(action, run_len(self.bitmap@, self.pages as int, action, lo, n)),
    {
        let v = self.bitmap@;
        let cap = self.pages as int;
        lemma_run_len(v, cap, action, lo, n);
        let r = run_len(v, cap, action, lo, n);
        lemma_ones_zeros(v, cap);
        lemma_ones_clear_tail(v, cap, v.len() as int);
        assert(popcount(v) == ones(v, cap));
        assert(zeros_in(v, 0, cap) == cap - popcount(v));
        if r > 0 {
            assert(!fails(v, cap, action, lo + 0));
            assert(!fails(v, cap, action, lo + (r - 1)));
            assert(0 <= lo && lo + r <= cap);
            assert forall|j: int| lo <= j < lo + r implies v[j] == !action_value(action) by {
                assert(!fails(v, cap, action, lo + (j - lo)));
            }
            lemma_zeros_in_uniform(v, lo, lo + r, !action_value(action));
            lemma_zeros_in_split(v, 0, lo, lo + r);
            lemma_zeros_in_split(v, 0, lo + r, cap);
            lemma_zeros_in_bound(v, 0, lo);
            lemma_zeros_in_bound(v, lo + r, cap);
            if action == FrameAction::Unreserve {
                assert(zeros_in(v, 0, cap) <= cap - r);
                assert(r <= self.reserved_pages);
            } else {
                assert(r <= zeros_in(v, 0, cap));
                assert(r <= self.free_pages);
            }
        }
    }

    /// The first clear frame, now allocated; `None` when every frame is taken.
    /// (The caller clears the frame's memory.)
    pub fn get_free_page(&mut self) -> (page: Option<usize>)
        requires
            old(self).bitmap.wf(),
            forall|i: int|
                #![trigger old(self).bitmap@[i]]
                0 <= i < old(self).bitmap.capacity && !old(self).bitmap@[i] && (forall|j: int|
                    0 <= j < i ==> old(self).bitmap@[j]) ==> i * PAGE_SIZE <= usize::MAX
                    && old(self).has_room(FrameAction::Alloc, 1),
        ensures
            match page {
                Some(addr) => {
                    let i = addr as int / PAGE_SIZE as int;
                    &&& addr as int % PAGE_SIZE as int == 0
                    &&& 0 <= i < old(self).bitmap.capacity
                    &&& !old(self).bitmap@[i]
                    &&& forall|j: int| 0 <= j < i ==> old(self).bitmap@[j]
                    &&& Self::run_done(old(self), final(self), FrameAction::Alloc, i, 1)
                },
                None => {
                    &&& forall|j: int| 0 <= j < old(self).bitmap.capacity ==> old(self).bitmap@[j]
                    &&& Self::run_done(old(self), final(self), FrameAction::Alloc, 0, 0)
                },
            },
            old(self).inv() ==> final(self).inv(),
    {
        let index = self.first_clear();
        if index < self.bitmap.capacity {
            proof {
                vstd::arithmetic::div_mod::lemma_hoist_over_denominator(0, index as int, PAGE_SIZE as nat);
                vstd::arithmetic::div_mod::lemma_mod_multiples_basic(index as int, PAGE_SIZE as int);
            }
            let addr = index * PAGE_SIZE;
            assert(addr / PAGE_SIZE == index);
            assert(addr % PAGE_SIZE == 0);
            self.act(FrameAction::Alloc, addr);
            Some(addr)
        } else {
            proof {
                assert(flip(self.bitmap@, 0, 0, true) =~= self.bitmap@);
            }
            None
        }
    }

    fn first_clear(&self) -> (i: usize)
        requires
            self.bitmap.wf(),
        ensures
            i <= self.bitmap.capacity,
            forall|j: int| 0 <= j < i ==> self.bitmap@[j],
            i < self.bitmap.capacity ==> !self.bitmap@[i as int],
    {
        let mut index: usize = 0;
        while index < self.bitmap.capacity
            invariant
                index <= self.bitmap.capacity,
                self.bitmap.wf(),
                forall|j: int| 0 <= j < index ==> self.bitmap@[j],
            decreases self.bitmap.capacity - index,
        {
            match self.bitmap.index(index) {
                Some(true) => {},
                _ => {
                    return index;
                },
            }
            index = index + 1;
        }
        index
    }

    /// Sets the allocator up from the boot information: the bitmap goes into
    /// the largest conventional segment and starts with every frame reserved;
    /// the conventional segments (but the map's last entry) are released; then
    /// the kernel image `k_start..k_end`, the bitmap's own frames and the
    /// font's frame are allocated.
    pub fn new(boot_info: &BootInfo, k_start: usize, k_end: usize) -> (res: Self)
        requires
            usize::BITS == 64,
            boot_info.memory_map_info.descriptors@.len() >= 1,
            pages_sum(
                boot_info.memory_map_info.descriptors@,
                boot_info.memory_map_info.descriptors@.len() as int,
            ) * PAGE_SIZE <= PHYSICAL_LIMIT,
            descriptors_in_range(boot_info.memory_map_info.descriptors@),
            k_start <= k_end,
        ensures
            ({
                let descs = boot_info.memory_map_info.descriptors@;
                let n = descs.len() as int;
                let pages = pages_sum(descs, n) as int;
                let addr = largest_conventional(descs, n).0;
                let all = Seq::new(((pages / 8 + 1) * 8) as nat, |j: int| j < pages);
                let released = unreserve_stage(all, pages, descs, n - 1);
                let kernel = apply_run(
                    released,
                    pages,
                    FrameAction::Alloc,
                    k_start as int / PAGE_SIZE as int,
                    (k_end - k_start) / PAGE_SIZE as int + 1,
                );
                let own = apply_run(
                    kernel,
                    pages,
                    FrameAction::Alloc,
                    addr as int / PAGE_SIZE as int,
                    pages / 8 / PAGE_SIZE as int,
                );
                let font = apply_run(
                    own,
                    pages,
                    FrameAction::Alloc,
                    boot_info.font.glyph_buffer_base_address as int / PAGE_SIZE as int,
                    1,
                );
                &&& res.inv()
                &&& res.pages == pages
                &&& res.bitmap.addr == addr
                &&& res.bitmap@ == font
                &&& res.reserved_pages == popcount(released)
                &&& res.used_pages == popcount(font) - popcount(released)
            }),
    {
        let descs = &boot_info.memory_map_info.descriptors;
        let ghost n = descs@.len() as int;
        let mut largest_page_addr: u64 = 0;
        let mut largest_page_size: u64 = 0;
        let mut index: usize = 0;
        while index < descs.len()
            invariant
                index <= descs@.len(),
                (largest_page_addr, largest_page_size) == largest_conventional(descs@, index as int),
            decreases descs@.len() - index,
        {
            let descriptor = descs[index];
            if descriptor.memory_type == CONVENTIONAL_MEMORY && descriptor.number_of_pages
                > largest_page_size {
                largest_page_size = descriptor.number_of_pages;
                largest_page_addr = descriptor.physical_start;
            }
            index = index + 1;
        }
        proof {
            crate::pfa::lemma_largest_in_range(descs@, n);
        }
        let pages: usize = boot_info.memory_map_info.get_pages();
        let mut res = PageFrameAllocator {
            pages,
            free_pages: pages,
            used_pages: 0,
            reserved_pages: 0,
            bitmap: Bitmap::new(pages, largest_page_addr),
        };
        let ghost v0 = res.bitmap@;
        let ghost all = Seq::new(((pages as int / 8 + 1) * 8) as nat, |j: int| j < pages);
        proof {
            lemma_popcount_none(v0, v0.len() as int);
            assert(res.inv());
            assert forall|k: int| 0 <= k < pages implies !fails(v0, pages as int, FrameAction::Reserve, #[trigger] (0 + k)) by {}
            lemma_run_len_unique(v0, pages as int, FrameAction::Reserve, 0, pages as int, pages as int);
            res.lemma_run_room(FrameAction::Reserve, 0, pages as int);
        }
        let _ = res.iter_action(FrameAction::Reserve, 0, pages);
        proof {
            assert(res.bitmap@ =~= all);
            assert(unreserve_stage(all, pages as int, descs@, 0) == all);
        }
        let mut index: usize = 0;
        while index < descs.len() - 1
            invariant
                index <= descs@.len() - 1,
                n == descs@.len(),
                n >= 1,
                descriptors_in_range(descs@),
                usize::BITS == 64,
                res.inv(),
                res.pages == pages,
                res.bitmap.addr == largest_page_addr,
                res.used_pages == 0,
                res.bitmap@ == unreserve_stage(all, pages as int, descs@, index as int),
            decreases descs@.len() - 1 - index,
        {
            let descriptor = descs[index];
            if descriptor.memory_type == CONVENTIONAL_MEMORY {
                let start = descriptor.physical_start as usize;
                let count = descriptor.number_of_pages as usize;
                proof {
                    assert(descs@[index as int] == descriptor);
                    res.lemma_run_room(FrameAction::Unreserve, start as int / PAGE_SIZE as int, count as int);
                    lemma_run_len(res.bitmap@, pages as int, FrameAction::Unreserve, start as int / PAGE_SIZE as int, count as int);
                }
                let _ = res.iter_action(FrameAction::Unreserve, start, count);
            }
            index = index + 1;
        }
        let ghost released = res.bitmap@;
        let kernel_pages = (k_end - k_start) / PAGE_SIZE + 1;
        proof {
            res.lemma_run_room(FrameAction::Alloc, k_start as int / PAGE_SIZE as int, kernel_pages as int);
            lemma_run_len(res.bitmap@, pages as int, FrameAction::Alloc, k_start as int / PAGE_SIZE as int, kernel_pages as int);
        }
        let _ = res.iter_action(FrameAction::Alloc, k_start, kernel_pages);
        let bitmap_start = res.bitmap.addr as usize;
        let bitmap_pages = res.bitmap.capacity / 8 / PAGE_SIZE;
        proof {
            res.lemma_run_room(FrameAction::Alloc, bitmap_start as int / PAGE_SIZE as int, bitmap_pages as int);
            lemma_run_len(res.bitmap@, pages as int, FrameAction::Alloc, bitmap_start as int / PAGE_SIZE as int, bitmap_pages as int);
        }
        let _ = res.iter_action(FrameAction::Alloc, bitmap_start, bitmap_pages);
        let font_start = boot_info.font.glyph_buffer_base_address as usize;
        proof {
            res.lemma_run_room(FrameAction::Alloc, font_start as int / PAGE_SIZE as int, 1);
        }
        let _ = res.iter_action(FrameAction::Alloc, font_start, 1);
        res
    }
}

/// The status an action reports when it refuses a frame.
/// `v` after every conventional segment among the first `n` descriptors has
/// been released, in a bitmap of capacity `cap`.
pub open spec fn unreserve_stage(v: Seq<bool>, cap: int, descs: Seq<MemoryDescriptor>, n: int) -> Seq<bool>
    decreases n,
{
    if n <= 0 {
        v
    } else {
        let prev = unreserve_stage(v, cap, descs, n - 1);
        let d = descs[n - 1];
        if d.memory_type == CONVENTIONAL_MEMORY {
            apply_run(prev, cap, FrameAction::Unreserve, d.physical_start as int / PAGE_SIZE as int, d.number_of_pages as int)
        } else {
            prev
        }
    }
}

/// A frame `get_free_page` hands out is taken, so a later call hands out another one.
pub proof fn lemma_frame_handed_out_once(a0: &PageFrameAllocator, a1: &PageFrameAllocator, first: int, second: int)
    requires
        a0.bitmap.wf(),
        0 <= first < a0.bitmap.capacity,
        PageFrameAllocator::run_done(a0, a1, FrameAction::Alloc, first, 1),
        0 <= second < a1.bitmap.capacity,
        !a1.bitmap@[second],
    ensures
        first != second,
{
    assert(a1.bitmap@[first]);
}

} // verus!
