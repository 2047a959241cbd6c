//! A page frame allocator over a byte-sized bitmap of page
//! frames and byte counters of memory in use, reserved and free.
use vstd::prelude::*;
use crate::byte_data_types::Bitmap;
use crate::bits::{
    fill, clear, zeros_in, ones_in, popcount, lemma_popcount_none, lemma_fill_step, lemma_clear_step,
    lemma_popcount_fill, lemma_zeros_in_bound,
};
use crate::boot::{self, MemoryDescriptor, pages_sum, descriptors_in_range, PHYSICAL_LIMIT, CONVENTIONAL_MEMORY};
use crate::pfa::{min, largest_conventional, lemma_largest_in_range};

verus! {

/// The size of a page frame in bytes.
pub const FRAME_SIZE: u64 = 4096;

pub struct PageFrameAllocator {
    pub total_mem: u64,
    pub used_mem: u64,
    pub free_mem: u64,
    pub resv_mem: u64,
    pub initialised: bool,
    pub page_bitmap: Bitmap,
    pub i: usize,
}

/// The operations on a page frame.
#[derive(Clone, Copy, PartialEq, Eq, Structural, Debug)]
pub enum PageOp {
    Lock,
    Reserve,
    Free,
    Unreserve,
}

/// Whether an operation sets bits (taking frames) rather than clearing them.
pub open spec fn takes(op: PageOp) -> bool {
    op == PageOp::Lock || op == PageOp::Reserve
}

/// Whether the memory a descriptor covers is reserved at start-up
/// (unusable memory, ACPI reclaimable memory and memory-mapped I/O).
pub open spec fn reserved_at_start(d: MemoryDescriptor) -> bool {
    d.memory_type == 8 || d.memory_type == 9 || d.memory_type == 11
}

/// `s` after the runs of the descriptors among the first `n` that get
/// reserved have been set, in a bitmap of highest index `top`.
pub open spec fn reserve_runs(s: Seq<bool>, descs: Seq<MemoryDescriptor>, n: int, top: int) -> Seq<bool>
    decreases n,
{
    if n <= 0 {
        s
    } else {
        let prev = reserve_runs(s, descs, n - 1, top);
        let d = descs[n - 1];
        if reserved_at_start(d) {
            let lo = d.physical_start as int / 4096;
            fill(prev, lo, min(lo + d.number_of_pages, top + 1))
        } else {
            prev
        }
    }
}

/// The bytes of memory counted from the map: all descriptors but the last two.
pub open spec fn counted_bytes(info: &boot::Info) -> int {
    pages_sum(info.mem_map_info.descriptors@, info.mem_map_info.descriptors@.len() - 2) * 4096int
}

/// The bitmap size (in bytes) for a memory of `total` bytes.
pub open spec fn bitmap_bytes(total: int) -> int {
    total / 4096 / 8 + 1
}

/// The frames that start-up locks, in a cleared bitmap of `len` bits and highest index `top`:
/// the bitmap's own, the kernel image's, the font's and the 800 frames from 0x10000.
pub open spec fn locked_runs(len: int, top: int, bitmap_addr: int, size: int, info: &boot::Info) -> Seq<bool> {
    let v0 = Seq::new(len as nat, |j: int| false);
    let b = bitmap_addr / 4096;
    let v1 = fill(v0, b, min(b + size / 4096 + 1, top + 1));
    let k = info.kernel_entry_address as int / 4096;
    let v2 = fill(v1, k, min(k + info.kernel_file_size / 4096 + 1, top + 1));
    let f = info.font.glyph_buffer_base_address as int / 4096;
    let v3 = fill(v2, f, min(f + 1, top + 1));
    fill(v3, 16, min(816int, top + 1))
}

impl PageFrameAllocator {
    /// The highest index the bitmap takes.
    pub open spec fn top(&self) -> int {
        self.page_bitmap.size * 8
    }

    /// The counters agree with the bitmap.
    pub open spec fn inv(&self) -> bool {
        &&& self.page_bitmap.wf()
        &&& self.free_mem + self.used_mem + self.resv_mem == self.total_mem
        &&& self.used_mem + self.resv_mem == 4096 * popcount(self.page_bitmap@)
        &&& forall|j: int| self.top() < j < self.page_bitmap@.len() ==> !#[trigger] self.page_bitmap@[j]
    }

    /// How many frames of `[lo, hi)` an operation changes.
    pub open spec fn changed(&self, op: PageOp, lo: int, hi: int) -> int {
        if takes(op) {
            zeros_in(self.page_bitmap@, lo, hi) as int
        } else {
            ones_in(self.page_bitmap@, lo, hi) as int
        }
    }

    /// Whether the counters can move `c` frames for an operation.
    pub open spec fn room(&self, op: PageOp, c: int) -> bool {
        match op {
            PageOp::Lock => 4096 * c <= self.free_mem && self.used_mem + 4096 * c <= u64::MAX,
            PageOp::Reserve => 4096 * c <= self.free_mem && self.resv_mem + 4096 * c <= u64::MAX,
            PageOp::Free => 4096 * c <= self.used_mem && self.free_mem + 4096 * c <= u64::MAX,
            PageOp::Unreserve => 4096 * c <= self.resv_mem && self.free_mem + 4096 * c <= u64::MAX,
        }
    }

    /// `post` is `pre` after `op` went over the frames with indices in `[lo, hi)`.
    pub open spec fn moved(pre: &Self, post: &Self, op: PageOp, lo: int, hi: int) -> bool {
        let c = pre.changed(op, lo, hi);
        &&& post.page_bitmap.wf()
        &&& post.page_bitmap.size == pre.page_bitmap.size
        &&& post.page_bitmap.address == pre.page_bitmap.address
        &&& post.page_bitmap@ == if takes(op) {
            fill(pre.page_bitmap@, lo, hi)
        } else {
            clear(pre.page_bitmap@, lo, hi)
        }
        &&& post.total_mem == pre.total_mem
        &&& post.initialised == pre.initialised
        &&& post.i == pre.i
        &&& post.free_mem == if takes(op) {
            pre.free_mem - 4096 * c
        } else {
            pre.free_mem + 4096 * c
        }
        &&& post.used_mem == match op {
            PageOp::Lock => pre.used_mem + 4096 * c,
            PageOp::Free => pre.used_mem - 4096 * c,
            _ => pre.used_mem as int,
        }
        &&& post.resv_mem == match op {
            PageOp::Reserve => pre.resv_mem + 4096 * c,
            PageOp::Unreserve => pre.resv_mem - 4096 * c,
            _ => pre.resv_mem as int,
        }
    }

    /// The run of one frame at an address.
    pub open spec fn one(&self, address: u64) -> (int, int) {
        let idx = (address as usize) as int / 4096;
        (idx, min(idx + 1, self.top() + 1))
    }

    /// The run of `pages` frames from an address.
    pub open spec fn run(&self, address: u64, pages: int) -> (int, int) {
        let lo = address as int / 4096;
        (lo, min(lo + pages, self.top() + 1))
    }

    /// An allocator that has not been set up.
    pub fn empty() -> (res: Self)
        ensures
            res.total_mem == 0 && res.used_mem == 0 && res.free_mem == 0 && res.resv_mem == 0,
            !res.initialised,
            res.i == 0,
            res.page_bitmap.size == 0,
            res.page_bitmap.address == 0,
            res.inv(),
    {
        let page_bitmap = Bitmap::new(0, 0);
        proof {
            lemma_popcount_none(page_bitmap@, page_bitmap@.len() as int);
        }
        PageFrameAllocator {
            total_mem: 0,
            used_mem: 0,
            free_mem: 0,
            resv_mem: 0,
            initialised: false,
            page_bitmap,
            i: 0,
        }
    }

    fn mark(&mut self, op: PageOp, address: u64)
        requires
            old(self).page_bitmap.wf(),
            old(self).room(op, old(self).changed(op, old(self).one(address).0, old(self).one(address).1)),
        ensures
            Self::moved(old(self), final(self), op, old(self).one(address).0, old(self).one(address).1),
            old(self).inv() ==> final(self).inv(),
    {
        let index = address as usize / 4096;
        let ghost pre = self.page_bitmap@;
        let ghost top = self.top();
        let bit = self.page_bitmap.index(index);
        proof {
            if index <= top {
                lemma_fill_step(pre, index as int, index as int);
                lemma_clear_step(pre, index as int, index as int);
                assert(fill(pre, index as int, index as int) =~= pre);
                assert(clear(pre, index as int, index as int) =~= pre);
                assert(pre.update(index as int, pre[index as int]) =~= pre);
            } else {
                assert(fill(pre, index as int, top + 1) =~= pre);
                assert(clear(pre, index as int, top + 1) =~= pre);
            }
        }
        match op {
            PageOp::Lock | PageOp::Reserve => {
                if bit {
                    return;
                }
                if self.page_bitmap.set(index, true) {
                    self.free_mem = self.free_mem - 4096;
                    match op {
                        PageOp::Lock => {
                            self.used_mem = self.used_mem + 4096;
                        },
                        _ => {
                            self.resv_mem = self.resv_mem + 4096;
                        },
                    }
                    proof {
                        crate::bits::lemma_popcount_set(pre, index as int);
                    }
                }
            },
            PageOp::Free | PageOp::Unreserve => {
                if !bit {
                    return;
                }
                if self.page_bitmap.set(index, false) {
                    self.free_mem = self.free_mem + 4096;
                    match op {
                        PageOp::Free => {
                            self.used_mem = self.used_mem - 4096;
                        },
                        _ => {
                            self.resv_mem = self.resv_mem - 4096;
                        },
                    }
                    proof {
                        crate::bits::lemma_popcount_clear(pre, index as int);
                    }
                }
            },
        }
    }

    fn mark_pages(&mut self, op: PageOp, address: u64, pages: usize)
        requires
            usize::BITS == 64,
            old(self).page_bitmap.wf(),
            pages > 0 ==> address + (pages - 1) * 4096 <= u64::MAX,
            old(self).room(op, old(self).changed(op, old(self).run(address, pages as int).0, old(self).run(address, pages as int).1)),
        ensures
            Self::moved(old(self), final(self), op, old(self).run(address, pages as int).0, old(self).run(address, pages as int).1),
            old(self).inv() ==> final(self).inv(),
    {
        let ghost pre = *self;
        let ghost v0 = self.page_bitmap@;
        let ghost top = self.top();
        let ghost lo: int = address as int / 4096;
        let ghost end: int = pre.run(address, pages as int).1;
        proof {
            assert(fill(v0, lo, min(lo, top + 1)) =~= v0);
            assert(clear(v0, lo, min(lo, top + 1)) =~= v0);
        }
        let count = pages as u64;
        let mut i: u64 = 0;
        while i < count
            invariant
                usize::BITS == 64,
                count == pages,
                i <= count,
                lo == address as int / 4096,
                top == pre.top(),
                v0 == pre.page_bitmap@,
                end == min(lo + pages, top + 1),
                pre.page_bitmap.wf(),
                pages > 0 ==> address + (pages - 1) * 4096 <= u64::MAX,
                pre.room(op, pre.changed(op, lo, end)),
                Self::moved(&pre, self, op, lo, min(lo + i, top + 1)),
                pre.inv() ==> self.inv(),
            decreases count - i,
        {
            let addr = address + i * 4096;
            let ghost cur = *self;
            proof {
                vstd::arithmetic::div_mod::lemma_hoist_over_denominator(address as int, i as int, 4096);
                assert((addr as usize) as int / 4096 == lo + i);
                if lo + i <= top {
                    lemma_fill_step(v0, lo, lo + i);
                    lemma_clear_step(v0, lo, lo + i);
                    crate::bits::lemma_zeros_in_mono(v0, lo, lo + i + 1, lo, end);
                    crate::bits::lemma_zeros_in_mono(crate::bits::negate(v0), lo, lo + i + 1, lo, end);
                    lemma_fill_step(cur.page_bitmap@, lo + i, lo + i);
                    lemma_clear_step(cur.page_bitmap@, lo + i, lo + i);
                    assert(fill(cur.page_bitmap@, lo + i, lo + i) =~= cur.page_bitmap@);
                    assert(clear(cur.page_bitmap@, lo + i, lo + i) =~= cur.page_bitmap@);
                    assert(crate::bits::negate(cur.page_bitmap@)[lo + i] == crate::bits::negate(v0)[lo + i]);
                }
            }
            self.mark(op, addr);
            proof {
                if lo + i <= top {
                    if takes(op) {
                        assert(fill(cur.page_bitmap@, lo + i, min(lo + i + 1, top + 1)) =~= fill(
                            v0,
                            lo,
                            min(lo + i + 1, top + 1),
                        ));
                    } else {
                        assert(clear(cur.page_bitmap@, lo + i, min(lo + i + 1, top + 1)) =~= clear(
                            v0,
                            lo,
                            min(lo + i + 1, top + 1),
                        ));
                    }
                } else {
                    assert(fill(cur.page_bitmap@, lo + i, min(lo + i + 1, top + 1)) =~= cur.page_bitmap@);
                    assert(clear(cur.page_bitmap@, lo + i, min(lo + i + 1, top + 1)) =~= cur.page_bitmap@);
                }
            }
            i = i + 1;
        }
    }

    /// Marks the frame at `address` as in use, if it is clear and inside the bitmap.
    pub fn lock_page(&mut self, address: u64)
        requires
            old(self).page_bitmap.wf(),
            old(self).room(PageOp::Lock, old(self).changed(PageOp::Lock, old(self).one(address).0, old(self).one(address).1)),
        ensures
            Self::moved(old(self), final(self), PageOp::Lock, old(self).one(address).0, old(self).one(address).1),
            old(self).inv() ==> final(self).inv(),
    {
        self.mark(PageOp::Lock, address);
    }

    /// Marks the frame at `address` as reserved, if it is clear and inside the bitmap.
    pub fn reserve_page(&mut self, address: u64)
        requires
            old(self).page_bitmap.wf(),
            old(self).room(PageOp::Reserve, old(self).changed(PageOp::Reserve, old(self).one(address).0, old(self).one(address).1)),
        ensures
            Self::moved(old(self), final(self), PageOp::Reserve, old(self).one(address).0, old(self).one(address).1),
            old(self).inv() ==> final(self).inv(),
    {
        self.mark(PageOp::Reserve, address);
    }

    /// Gives the frame at `address` back from use, if it is set and inside the bitmap.
    pub fn free_page(&mut self, address: u64)
        requires
            old(self).page_bitmap.wf(),
            old(self).room(PageOp::Free, old(self).changed(PageOp::Free, old(self).one(address).0, old(self).one(address).1)),
        ensures
            Self::moved(old(self), final(self), PageOp::Free, old(self).one(address).0, old(self).one(address).1),
            old(self).inv() ==> final(self).inv(),
    {
        self.mark(PageOp::Free, address);
    }

    /// Gives the reserved frame at `address` back, if it is set and inside the bitmap.
    pub fn unreserve_page(&mut self, address: u64)
        requires
            old(self).page_bitmap.wf(),
            old(self).room(PageOp::Unreserve, old(self).changed(PageOp::Unreserve, old(self).one(address).0, old(self).one(address).1)),
        ensures
            Self::moved(old(self), final(self), PageOp::Unreserve, old(self).one(address).0, old(self).one(address).1),
            old(self).inv() ==> final(self).inv(),
    {
        self.mark(PageOp::Unreserve, address);
    }

    /// Locks the `pages` frames from `address` on.
    pub fn lock_pages(&mut self, address: u64, pages: usize)
        requires
            usize::BITS == 64,
            old(self).page_bitmap.wf(),
            pages > 0 ==> address + (pages - 1) * 4096 <= u64::MAX,
            old(self).room(PageOp::Lock, old(self).changed(PageOp::Lock, old(self).run(address, pages as int).0, old(self).run(address, pages as int).1)),
        ensures
            Self::moved(old(self), final(self), PageOp::Lock, old(self).run(address, pages as int).0, old(self).run(address, pages as int).1),
            old(self).inv() ==> final(self).inv(),
    {
        self.mark_pages(PageOp::Lock, address, pages);
    }

    /// Reserves the `pages` frames from `address` on.
    pub fn reserve_pages(&mut self, address: u64, pages: usize)
        requires
            usize::BITS == 64,
            old(self).page_bitmap.wf(),
            pages > 0 ==> address + (pages - 1) * 4096 <= u64::MAX,
            old(self).room(PageOp::Reserve, old(self).changed(PageOp::Reserve, old(self).run(address, pages as int).0, old(self).run(address, pages as int).1)),
        ensures
            Self::moved(old(self), final(self), PageOp::Reserve, old(self).run(address, pages as int).0, old(self).run(address, pages as int).1),
            old(self).inv() ==> final(self).inv(),
    {
        self.mark_pages(PageOp::Reserve, address, pages);
    }

    /// Frees the `pages` frames from `address` on.
    pub fn free_pages(&mut self, address: u64, pages: usize)
        requires
            usize::BITS == 64,
            old(self).page_bitmap.wf(),
            pages > 0 ==> address + (pages - 1) * 4096 <= u64::MAX,
            old(self).room(PageOp::Free, old(self).changed(PageOp::Free, old(self).run(address, pages as int).0, old(self).run(address, pages as int).1)),
        ensures
            Self::moved(old(self), final(self), PageOp::Free, old(self).run(address, pages as int).0, old(self).run(address, pages as int).1),
            old(self).inv() ==> final(self).inv(),
    {
        self.mark_pages(PageOp::Free, address, pages);
    }

    /// Unreserves the `pages` frames from `address` on.
    pub fn unreserve_pages(&mut self, address: u64, pages: usize)
        requires
            usize::BITS == 64,
            old(self).page_bitmap.wf(),
            pages > 0 ==> address + (pages - 1) * 4096 <= u64::MAX,
            old(self).room(PageOp::Unreserve, old(self).changed(PageOp::Unreserve, old(self).run(address, pages as int).0, old(self).run(address, pages as int).1)),
        ensures
            Self::moved(old(self), final(self), PageOp::Unreserve, old(self).run(address, pages as int).0, old(self).run(address, pages as int).1),
            old(self).inv() ==> final(self).inv(),
    {
        self.mark_pages(PageOp::Unreserve, address, pages);
    }

    fn first_clear(&self) -> (i: usize)
        requires
            self.page_bitmap.wf(),
        ensures
            i <= self.top(),
            forall|j: int| 0 <= j < i ==> self.page_bitmap@[j],
            i < self.top() ==> !self.page_bitmap@[i as int],
    {
        let limit = self.page_bitmap.size * 8;
        let mut i: usize = 0;
        while i < limit
            invariant
                limit == self.top(),
                i <= limit,
                self.page_bitmap.wf(),
                forall|j: int| 0 <= j < i ==> self.page_bitmap@[j],
            decreases limit - i,
        {
            if !self.page_bitmap.index(i) {
                return i;
            }
            i = i + 1;
        }
        i
    }

    /// The first clear frame below index `size * 8`, now locked; `None` when
    /// there is none. Counts the frames it hands out in `i`.
    pub fn get_free_page(&mut self) -> (page: Option<u64>)
        requires
            usize::BITS == 64,
            old(self).page_bitmap.wf(),
            forall|k: int|
                #![trigger old(self).page_bitmap@[k]]
                0 <= k < old(self).top() && !old(self).page_bitmap@[k] && (forall|j: int|
                    0 <= j < k ==> old(self).page_bitmap@[j]) ==> k * 4096 <= u64::MAX && old(self).i
                    < usize::MAX && old(self).room(PageOp::Lock, 1),
        ensures
            match page {
                Some(address) => {
                    let k = address as int / 4096;
                    &&& address as int % 4096 == 0
                    &&& 0 <= k < old(self).top()
                    &&& !old(self).page_bitmap@[k]
                    &&& forall|j: int| 0 <= j < k ==> old(self).page_bitmap@[j]
                    &&& final(self).i == old(self).i + 1
                    &&& Self::moved(old(self), &PageFrameAllocator { i: old(self).i, ..*final(self) }, PageOp::Lock, k, k + 1)
                },
                None => {
                    &&& forall|j: int| 0 <= j < old(self).top() ==> old(self).page_bitmap@[j]
                    &&& Self::moved(old(self), final(self), PageOp::Lock, 0, 0)
                },
            },
            old(self).inv() ==> final(self).inv(),
    {
        let k = self.first_clear();
        if k < self.page_bitmap.size * 8 {
            proof {
                vstd::arithmetic::div_mod::lemma_hoist_over_denominator(0, k as int, 4096);
                vstd::arithmetic::div_mod::lemma_mod_multiples_basic(k as int, 4096);
                assert(!old(self).page_bitmap@[k as int]);
                lemma_fill_step(self.page_bitmap@, k as int, k as int);
            }
            let address = k as u64 * 4096;
            assert((address as usize) as int / 4096 == k);
            assert(address % 4096 == 0);
            self.i = self.i + 1;
            self.mark(PageOp::Lock, address);
            Some(address)
        } else {
            proof {
                assert(fill(self.page_bitmap@, 0, 0) =~= self.page_bitmap@);
            }
            None
        }
    }

    fn set_page_bitmap(&mut self, buffer_address: u64)
        requires
            usize::BITS == 64,
            old(self).total_mem as int / 4096 / 8 + 1 <= usize::MAX / 8,
        ensures
            final(self).page_bitmap.wf(),
            final(self).page_bitmap.size == bitmap_bytes(old(self).total_mem as int),
            final(self).page_bitmap.address == buffer_address,
            forall|j: int| 0 <= j < final(self).page_bitmap@.len() ==> !#[trigger] final(self).page_bitmap@[j],
            final(self).total_mem == old(self).total_mem,
            final(self).used_mem == old(self).used_mem,
            final(self).free_mem == old(self).free_mem,
            final(self).resv_mem == old(self).resv_mem,
            final(self).initialised == old(self).initialised,
            final(self).i == old(self).i,
    {
        self.page_bitmap = Bitmap::new(self.total_mem as usize / 4096 / 8 + 1, buffer_address);
    }

    /// Sets the allocator up once from the boot information: the bitmap goes
    /// into the largest conventional segment (the map's last entry aside); the
    /// bitmap's own frames, the kernel image, the font's frame and the 800
    /// frames from 0x10000 are locked; unusable, ACPI-reclaimable and
    /// memory-mapped I/O segments are reserved. A second call does nothing.
    #[verifier::rlimit(60)]
    pub fn initialise(&mut self, boot_info: &boot::Info)
        requires
            usize::BITS == 64,
            !old(self).initialised ==> {
                let descs = boot_info.mem_map_info.descriptors@;
                &&& descs.len() >= 2
                &&& descriptors_in_range(descs)
                &&& counted_bytes(boot_info) <= PHYSICAL_LIMIT
                &&& boot_info.kernel_entry_address + boot_info.kernel_file_size <= u64::MAX
                &&& {
                    let total = counted_bytes(boot_info);
                    let size = bitmap_bytes(total);
                    let top = size * 8;
                    let addr = largest_conventional(descs, descs.len() - 1).0;
                    let locked = locked_runs((size + 1) * 8, top, addr as int, size, boot_info);
                    let all = reserve_runs(locked, descs, descs.len() as int, top);
                    &&& 4096 * popcount(all) <= total
                    &&& old(self).used_mem + 4096 * popcount(locked) <= u64::MAX
                    &&& old(self).resv_mem + 4096 * popcount(all) - 4096 * popcount(locked) <= u64::MAX
                }
            },
        ensures
            old(self).initialised ==> *final(self) == *old(self),
            !old(self).initialised ==> {
                let descs = boot_info.mem_map_info.descriptors@;
                let total = counted_bytes(boot_info);
                let size = bitmap_bytes(total);
                let top = size * 8;
                let addr = largest_conventional(descs, descs.len() - 1).0;
                let locked = locked_runs((size + 1) * 8, top, addr as int, size, boot_info);
                let all = reserve_runs(locked, descs, descs.len() as int, top);
                &&& final(self).initialised
                &&& final(self).i == 0
                &&& final(self).total_mem == total
                &&& final(self).page_bitmap.wf()
                &&& final(self).page_bitmap.size == size
                &&& final(self).page_bitmap.address == addr
                &&& final(self).page_bitmap@ == all
                &&& final(self).used_mem == old(self).used_mem + 4096 * popcount(locked)
                &&& final(self).resv_mem == old(self).resv_mem + 4096 * popcount(all) - 4096 * popcount(locked)
                &&& final(self).free_mem == total - 4096 * popcount(all)
            },
    {
        if self.initialised {
            return;
        }
        let ghost old_used = self.used_mem;
        let ghost old_resv = self.resv_mem;
        self.initialised = true;
        self.i = 0;
        let descs = &boot_info.mem_map_info.descriptors;
        let ghost n = descs@.len() as int;
        let mut largest_addr: u64 = 0;
        let mut largest_size: usize = 0;
        let mut k: usize = 0;
        while k < descs.len() - 1
            invariant
                n == descs@.len(),
                n >= 2,
                descriptors_in_range(descs@),
                k <= n - 1,
                largest_addr == largest_conventional(descs@, k as int).0,
                largest_size == largest_conventional(descs@, k as int).1 * 4096,
                largest_conventional(descs@, k as int).1 * 4096 <= PHYSICAL_LIMIT,
                usize::BITS == 64,
            decreases n - 1 - k,
        {
            let d = descs[k];
            proof {
                assert(descs@[k as int] == d);
                assert(d.physical_start + d.number_of_pages * 4096 <= PHYSICAL_LIMIT);
            }
            if d.memory_type == CONVENTIONAL_MEMORY && d.number_of_pages * 4096 > largest_size as u64 {
                largest_addr = d.physical_start;
                largest_size = d.number_of_pages as usize * 4096;
            }
            k = k + 1;
        }
        proof {
            lemma_largest_in_range(descs@, n - 1);
            crate::boot::lemma_pages_sum_mono(descs@, n - 2, n);
        }
        self.total_mem = boot_info.mem_map_info.get_memory_size() as u64;
        self.free_mem = self.total_mem;
        self.set_page_bitmap(largest_addr);
        let ghost total: int = self.total_mem as int;
        let ghost size: int = bitmap_bytes(total);
        let ghost top: int = size * 8;
        let ghost v0 = Seq::new(((size + 1) * 8) as nat, |j: int| false);
        let ghost b0 = largest_addr as int / 4096;
        let ghost s1 = fill(v0, b0, min(b0 + size / 4096 + 1, top + 1));
        let ghost k0 = boot_info.kernel_entry_address as int / 4096;
        let ghost s2 = fill(s1, k0, min(k0 + boot_info.kernel_file_size / 4096 + 1, top + 1));
        let ghost f0 = boot_info.font.glyph_buffer_base_address as int / 4096;
        let ghost s3 = fill(s2, f0, min(f0 + 1, top + 1));
        let ghost s4 = fill(s3, 16, min(816int, top + 1));
        let ghost all = reserve_runs(s4, descs@, n, top);
        proof {
            assert(self.page_bitmap@ =~= v0);
            lemma_popcount_none(v0, v0.len() as int);
            assert(s4 =~= locked_runs((size + 1) * 8, top, largest_addr as int, size, boot_info));
            lemma_reserve_runs_grow(s4, descs@, 0, n, top);
            assert(reserve_runs(s4, descs@, 0, top) == s4);
            assert forall|j: int| 0 <= j < s4.len() && #[trigger] s1[j] implies all[j] by {
                assert(s4[j]);
            }
            assert forall|j: int| 0 <= j < s4.len() && #[trigger] s2[j] implies all[j] by {
                assert(s4[j]);
            }
            assert forall|j: int| 0 <= j < s4.len() && #[trigger] s3[j] implies all[j] by {
                assert(s4[j]);
            }
            crate::bits::lemma_ones_sub(s1, all, s4.len() as int);
            crate::bits::lemma_ones_sub(s2, all, s4.len() as int);
            crate::bits::lemma_ones_sub(s3, all, s4.len() as int);
            crate::bits::lemma_ones_sub(s4, all, s4.len() as int);
            assert forall|j: int| 0 <= j < s4.len() && #[trigger] s1[j] implies s4[j] by {}
            assert forall|j: int| 0 <= j < s4.len() && #[trigger] s2[j] implies s4[j] by {}
            assert forall|j: int| 0 <= j < s4.len() && #[trigger] s3[j] implies s4[j] by {}
            crate::bits::lemma_ones_sub(s1, s4, s4.len() as int);
            crate::bits::lemma_ones_sub(s2, s4, s4.len() as int);
            crate::bits::lemma_ones_sub(s3, s4, s4.len() as int);
        }
        let bitmap_address = self.page_bitmap.address;
        let bitmap_pages = self.page_bitmap.size / 4096 + 1;
        proof {
            let r = self.run(bitmap_address, bitmap_pages as int);
            lemma_popcount_fill(self.page_bitmap@, r.0, r.1);
            assert(fill(self.page_bitmap@, r.0, r.1) =~= s1);
        }
        self.lock_pages(bitmap_address, bitmap_pages);
        let kernel_pages = boot_info.kernel_file_size / 4096 + 1;
        proof {
            assert(self.page_bitmap@ =~= s1);
            let r = self.run(boot_info.kernel_entry_address, kernel_pages as int);
            lemma_popcount_fill(self.page_bitmap@, r.0, r.1);
            assert(fill(self.page_bitmap@, r.0, r.1) =~= s2);
        }
        self.lock_pages(boot_info.kernel_entry_address, kernel_pages);
        proof {
            assert(self.page_bitmap@ =~= s2);
            let r = self.run(boot_info.font.glyph_buffer_base_address, 1);
            lemma_popcount_fill(self.page_bitmap@, r.0, r.1);
            assert(fill(self.page_bitmap@, r.0, r.1) =~= s3);
        }
        self.lock_pages(boot_info.font.glyph_buffer_base_address, 1);
        proof {
            assert(self.page_bitmap@ =~= s3);
            let r = self.run(0x10000, 800);
            lemma_popcount_fill(self.page_bitmap@, r.0, r.1);
            assert(fill(self.page_bitmap@, r.0, r.1) =~= s4);
        }
        self.lock_pages(0x10000, 800);
        let ghost locked = self.page_bitmap@;
        proof {
            assert(locked =~= s4);
            assert(reserve_runs(locked, descs@, 0, top) == locked);
        }
        let mut k: usize = 0;
        while k < descs.len()
            invariant
                usize::BITS == 64,
                n == descs@.len(),
                k <= n,
                descriptors_in_range(descs@),
                self.page_bitmap.wf(),
                self.page_bitmap.size == size,
                top == size * 8,
                self.page_bitmap.address == largest_addr,
                self.total_mem == total,
                self.initialised,
                self.i == 0,
                locked == s4,
                all == reserve_runs(locked, descs@, n, top),
                self.page_bitmap@ == reserve_runs(locked, descs@, k as int, top),
                4096 * popcount(all) <= total,
                old_resv + 4096 * popcount(all) - 4096 * popcount(locked) <= u64::MAX,
                self.used_mem == old_used + 4096 * popcount(locked),
                self.resv_mem == old_resv + 4096 * popcount(self.page_bitmap@) - 4096 * popcount(locked),
                self.free_mem == total - 4096 * popcount(self.page_bitmap@),
                popcount(locked) <= popcount(self.page_bitmap@),
            decreases n - k,
        {
            let d = descs[k];
            proof {
                assert(descs@[k as int] == d);
                lemma_reserve_runs_grow(locked, descs@, k as int + 1, n, top);
                crate::bits::lemma_ones_sub(
                    reserve_runs(locked, descs@, k as int + 1, top),
                    all,
                    locked.len() as int,
                );
            }
            if d.memory_type == 8 || d.memory_type == 9 || d.memory_type == 11 {
                let count = d.number_of_pages as usize;
                proof {
                    let r = self.run(d.physical_start, count as int);
                    lemma_popcount_fill(self.page_bitmap@, r.0, r.1);
                }
                self.reserve_pages(d.physical_start, count);
            }
            k = k + 1;
        }
    }
}

/// Reserving the runs of more descriptors keeps what fewer of them set.
pub proof fn lemma_reserve_runs_grow(s: Seq<bool>, descs: Seq<MemoryDescriptor>, k: int, n: int, top: int)
    requires
        0 <= k <= n,
    ensures
        reserve_runs(s, descs, k, top).len() == s.len(),
        reserve_runs(s, descs, n, top).len() == s.len(),
        forall|j: int|
            0 <= j < s.len() && #[trigger] reserve_runs(s, descs, k, top)[j] ==> reserve_runs(s, descs, n, top)[j],
    decreases n,
{
    if n > 0 {
        if k < n {
            lemma_reserve_runs_grow(s, descs, k, n - 1, top);
        } else {
            lemma_reserve_runs_grow(s, descs, k - 1, n - 1, top);
        }
    }
}

/// At start-up a frame inside the bitmap is set exactly when it was set
/// before (locked) or a descriptor whose firmware type is unusable memory
/// (8), ACPI reclaimable memory (9) or memory-mapped I/O (11) covers it: all
/// firmware-owned memory is reserved, and nothing else is.
pub proof fn lemma_firmware_memory_reserved(s: Seq<bool>, descs: Seq<MemoryDescriptor>, n: int, top: int, p: int)
    requires
        0 <= n <= descs.len(),
        0 <= p <= top,
        p < s.len(),
    ensures
        reserve_runs(s, descs, n, top)[p] <==> s[p] || exists|j: int|
            0 <= j < n && ((#[trigger] descs[j]).memory_type == 8 || descs[j].memory_type == 9
                || descs[j].memory_type == 11) && descs[j].physical_start as int / 4096 <= p
                < descs[j].physical_start as int / 4096 + descs[j].number_of_pages,
    decreases n,
{
    lemma_reserve_runs_grow(s, descs, 0, n, top);
    if n > 0 {
        lemma_firmware_memory_reserved(s, descs, n - 1, top, p);
        lemma_reserve_runs_grow(s, descs, n - 1, n, top);
    }
}

/// Writes `value` to the `size` bytes of `memory` from `address` on.
pub fn set_mem(memory: &mut Vec<u8>, address: u64, value: u8, size: u64)
    requires
        address + size <= old(memory)@.len(),
    ensures
        final(memory)@.len() == old(memory)@.len(),
        forall|j: int|
            0 <= j < final(memory)@.len() ==> #[trigger] final(memory)@[j] == if address <= j < address + size {
                value
            } else {
                old(memory)@[j]
            },
{
    let mut i: u64 = 0;
    while i < size
        invariant
            i <= size,
            address + size <= old(memory)@.len(),
            memory@.len() == old(memory)@.len(),
            forall|j: int|
                0 <= j < memory@.len() ==> #[trigger] memory@[j] == if address <= j < address + i {
                    value
                } else {
                    old(memory)@[j]
                },
        decreases size - i,
    {
        let n = memory.len();
        assert(address + i < n);
        let at: u64 = address + i;
        memory.set(at as usize, value);
        i = i + 1;
    }
}

/// Taking frames that were all free and then giving them back (locking
/// then freeing, or reserving then unreserving) leaves the bitmap and the
/// counters as they were.
pub proof fn lemma_take_then_give_back(
    a0: &PageFrameAllocator,
    a1: &PageFrameAllocator,
    a2: &PageFrameAllocator,
    take: PageOp,
    give: PageOp,
    lo: int,
    hi: int,
)
    requires
        (take == PageOp::Lock && give == PageOp::Free) || (take == PageOp::Reserve && give == PageOp::Unreserve),
        0 <= lo <= hi <= a0.page_bitmap@.len(),
        forall|j: int| lo <= j < hi ==> !#[trigger] a0.page_bitmap@[j],
        PageFrameAllocator::moved(a0, a1, take, lo, hi),
        PageFrameAllocator::moved(a1, a2, give, lo, hi),
    ensures
        a2.page_bitmap@ == a0.page_bitmap@,
        a2.used_mem == a0.used_mem,
        a2.resv_mem == a0.resv_mem,
        a2.free_mem == a0.free_mem,
        a2.total_mem == a0.total_mem,
{
    let v = a0.page_bitmap@;
    let f = fill(v, lo, hi);
    crate::bits::lemma_zeros_in_uniform(v, lo, hi, false);
    assert forall|j: int| lo <= j < hi implies #[trigger] crate::bits::negate(f)[j] == false by {}
    crate::bits::lemma_zeros_in_uniform(crate::bits::negate(f), lo, hi, false);
    assert(clear(f, lo, hi) =~= v);
}

/// The frame at `address` a page operation goes over is the run from its
/// index to one past it, cut at the top; it lies inside the bitmap.
pub proof fn lemma_one_bounds(a: &PageFrameAllocator, address: u64)
    requires
        a.page_bitmap.wf(),
    ensures
        0 <= a.one(address).0,
        a.one(address).1 <= a.page_bitmap@.len(),
        a.one(address).0 <= a.top() ==> a.one(address).1 == a.one(address).0 + 1,
        a.one(address).0 > a.top() ==> a.one(address).1 <= a.one(address).0,
{
}

/// A page operation over a run that changes no bit leaves the bitmap and
/// the counters as they were.
proof fn lemma_moved_none(a0: &PageFrameAllocator, a1: &PageFrameAllocator, op: PageOp, lo: int, hi: int)
    requires
        a0.page_bitmap.wf(),
        0 <= lo,
        hi <= a0.page_bitmap@.len(),
        forall|j: int| lo <= j < hi ==> #[trigger] a0.page_bitmap@[j] == takes(op),
        PageFrameAllocator::moved(a0, a1, op, lo, hi),
    ensures
        a1.page_bitmap@ == a0.page_bitmap@,
        a1.free_mem == a0.free_mem,
        a1.used_mem == a0.used_mem,
        a1.resv_mem == a0.resv_mem,
        a1.total_mem == a0.total_mem,
{
    let v = a0.page_bitmap@;
    if lo <= hi {
        if takes(op) {
            crate::bits::lemma_zeros_in_uniform(v, lo, hi, true);
        } else {
            assert forall|j: int| lo <= j < hi implies #[trigger] crate::bits::negate(v)[j] == true by {}
            crate::bits::lemma_zeros_in_uniform(crate::bits::negate(v), lo, hi, true);
        }
    }
    if takes(op) {
        assert(fill(v, lo, hi) =~= v);
    } else {
        assert(clear(v, lo, hi) =~= v);
    }
}

/// Freeing a frame that `lock_page` has just locked (or unreserving one that
/// `reserve_page` has just reserved), which was free, leaves the bitmap and
/// the counters as they were before it was taken.
pub proof fn lemma_give_back_page(
    a0: &PageFrameAllocator,
    a1: &PageFrameAllocator,
    a2: &PageFrameAllocator,
    take: PageOp,
    give: PageOp,
    address: u64,
)
    requires
        (take == PageOp::Lock && give == PageOp::Free) || (take == PageOp::Reserve && give == PageOp::Unreserve),
        a0.page_bitmap.wf(),
        a0.one(address).0 <= a0.top() ==> !a0.page_bitmap@[a0.one(address).0],
        PageFrameAllocator::moved(a0, a1, take, a0.one(address).0, a0.one(address).1),
        PageFrameAllocator::moved(a1, a2, give, a1.one(address).0, a1.one(address).1),
    ensures
        a2.page_bitmap@ == a0.page_bitmap@,
        a2.free_mem == a0.free_mem,
        a2.used_mem == a0.used_mem,
        a2.resv_mem == a0.resv_mem,
        a2.total_mem == a0.total_mem,
{
    lemma_one_bounds(a0, address);
    let (lo, hi) = a0.one(address);
    if lo <= hi {
        lemma_take_then_give_back(a0, a1, a2, take, give, lo, hi);
    } else {
        lemma_moved_none(a0, a1, take, lo, hi);
        lemma_moved_none(a1, a2, give, lo, hi);
    }
}

/// Freeing (or unreserving) a frame whose bit is clear changes nothing.
pub proof fn lemma_give_clear_page(a0: &PageFrameAllocator, a1: &PageFrameAllocator, give: PageOp, address: u64)
    requires
        give == PageOp::Free || give == PageOp::Unreserve,
        a0.page_bitmap.wf(),
        a0.one(address).0 <= a0.top() ==> !a0.page_bitmap@[a0.one(address).0],
        PageFrameAllocator::moved(a0, a1, give, a0.one(address).0, a0.one(address).1),
    ensures
        a1.page_bitmap@ == a0.page_bitmap@,
        a1.free_mem == a0.free_mem,
        a1.used_mem == a0.used_mem,
        a1.resv_mem == a0.resv_mem,
        a1.total_mem == a0.total_mem,
{
    lemma_one_bounds(a0, address);
    lemma_moved_none(a0, a1, give, a0.one(address).0, a0.one(address).1);
}

/// Locking or reserving a frame that was just locked or reserved changes
/// nothing: taking it twice is taking it once.
pub proof fn lemma_take_twice(
    a0: &PageFrameAllocator,
    a1: &PageFrameAllocator,
    a2: &PageFrameAllocator,
    op: PageOp,
    op2: PageOp,
    address: u64,
)
    requires
        takes(op),
        takes(op2),
        a0.page_bitmap.wf(),
        PageFrameAllocator::moved(a0, a1, op, a0.one(address).0, a0.one(address).1),
        PageFrameAllocator::moved(a1, a2, op2, a1.one(address).0, a1.one(address).1),
    ensures
        a2.page_bitmap@ == a1.page_bitmap@,
        a2.free_mem == a1.free_mem,
        a2.used_mem == a1.used_mem,
        a2.resv_mem == a1.resv_mem,
        a2.total_mem == a1.total_mem,
{
    lemma_one_bounds(a1, address);
    lemma_moved_none(a1, a2, op2, a1.one(address).0, a1.one(address).1);
}

/// Locking the `k + 1` frames from `address` in one go is locking the first
/// `k` and then the next one on its own: by induction, `lock_pages` is
/// `lock_page` on each of its frames in turn.
pub proof fn lemma_lock_pages_in_turn(
    a0: &PageFrameAllocator,
    a1: &PageFrameAllocator,
    a2: &PageFrameAllocator,
    address: u64,
    k: int,
)
    requires
        usize::BITS == 64,
        0 <= k,
        address + k * 4096 <= u64::MAX,
        a0.page_bitmap.wf(),
        PageFrameAllocator::moved(a0, a1, PageOp::Lock, a0.run(address, k).0, a0.run(address, k).1),
        PageFrameAllocator::moved(
            a1,
            a2,
            PageOp::Lock,
            a1.one((address + k * 4096) as u64).0,
            a1.one((address + k * 4096) as u64).1,
        ),
    ensures
        PageFrameAllocator::moved(a0, a2, PageOp::Lock, a0.run(address, k + 1).0, a0.run(address, k + 1).1),
{
    let v = a0.page_bitmap@;
    let w = a1.page_bitmap@;
    let t = a0.top() + 1;
    let lo = address as int / 4096;
    let h1 = a0.run(address, k).1;
    let h2 = a0.run(address, k + 1).1;
    let next = (address + k * 4096) as u64;
    assert((next as usize) as int == next as int);
    assert(next as int / 4096 == lo + k) by {
        vstd::arithmetic::div_mod::lemma_hoist_over_denominator(address as int, k, 4096);
    }
    let (o1, o2) = a1.one(next);
    assert(o1 == lo + k);
    assert(a1.top() == a0.top());
    if lo + k < t {
        assert(h1 == lo + k && h2 == lo + k + 1 && o2 == lo + k + 1);
        crate::bits::lemma_fill_step(v, lo, lo + k);
        assert(w[lo + k] == v[lo + k]);
        assert(zeros_in(w, lo + k, lo + k + 1) == zeros_in(w, lo + k, lo + k) + if !w[lo + k] {
            1nat
        } else {
            0nat
        });
        assert(fill(w, lo + k, lo + k + 1) =~= fill(v, lo, lo + k + 1));
    } else {
        assert(h1 == t && h2 == t && o2 == t);
        assert(fill(w, o1, o2) =~= fill(v, lo, h2));
    }
}

} // verus!
