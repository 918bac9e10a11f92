//! Physical frame bitmap allocator.
//!
//! One bit per 4 KiB frame; a set bit means the frame is free.
use vstd::prelude::*;
use vstd::set_lib::*;

verus! {

/// Size of a physical frame in bytes.
pub const PAGE_SIZE: u64 = 4096;

/// Number of 64-bit words in the bitmap.
pub const BITMAP_SIZE: usize = 1024;

/// Number of frames the bitmap can track (1024 * 64).
pub const MAX_FRAMES: usize = 65536;

/// UEFI memory type of raw, untouched RAM (`EfiConventionalMemory`).
pub const CONVENTIONAL_MEMORY: u32 = 7;

/// One entry of the UEFI memory map.
#[derive(Clone, Copy, Debug, PartialEq, Eq)]
pub struct UefiMemoryDescriptor {
    pub ty: u32,
    pub pad: u32,
    pub physical_start: u64,
    pub virtual_start: u64,
    pub number_of_pages: u64,
    pub attribute: u64,
}

/// Whether bit `b` of word `w` is set.
pub open spec fn bit_is_set(w: u64, b: u64) -> bool {
    w & (1u64 << b) != 0
}

proof fn lemma_set_bit(w: u64, b: u64, c: u64)
    requires
        b < 64,
        c < 64,
    ensures
        bit_is_set(w | (1u64 << b), c) == (bit_is_set(w, c) || b == c),
{
    assert((w | (1u64 << b)) & (1u64 << c) != 0 <==> (w & (1u64 << c) != 0 || b == c))
        by (bit_vector)
        requires
            b < 64,
            c < 64,
    ;
}

proof fn lemma_clear_bit(w: u64, b: u64, c: u64)
    requires
        b < 64,
        c < 64,
    ensures
        bit_is_set(w & !(1u64 << b), c) == (bit_is_set(w, c) && b != c),
{
    assert((w & !(1u64 << b)) & (1u64 << c) != 0 <==> (w & (1u64 << c) != 0 && b != c))
        by (bit_vector)
        requires
            b < 64,
            c < 64,
    ;
}

proof fn lemma_zero_word(c: u64)
    requires
        c < 64,
    ensures
        !bit_is_set(0u64, c),
{
    assert(0u64 & (1u64 << c) == 0) by (bit_vector);
}

/// Number of frames of the region `[start_frame, start_frame + pages)` that
/// lie below `MAX_FRAMES`.
pub open spec fn frames_tracked(start_frame: int, pages: int) -> int {
    let end = if start_frame + pages < MAX_FRAMES { start_frame + pages } else { MAX_FRAMES as int };
    if start_frame < end { end - start_frame } else { 0 }
}

/// First frame number of a descriptor's region.
pub open spec fn desc_start_frame(d: UefiMemoryDescriptor) -> int {
    (d.physical_start / PAGE_SIZE) as int
}

/// Whether a descriptor describes conventional memory holding `frame`.
pub open spec fn desc_frees(d: UefiMemoryDescriptor, frame: int) -> bool {
    &&& d.ty == CONVENTIONAL_MEMORY
    &&& desc_start_frame(d) <= frame < desc_start_frame(d) + d.number_of_pages
    &&& frame < MAX_FRAMES
}

/// Frames that a descriptor adds to the free count.
pub open spec fn desc_count(d: UefiMemoryDescriptor) -> int {
    if d.ty == CONVENTIONAL_MEMORY {
        frames_tracked(desc_start_frame(d), d.number_of_pages as int)
    } else {
        0
    }
}

/// Total frames that a sequence of descriptors adds to the free count.
pub open spec fn total_count(ds: Seq<UefiMemoryDescriptor>) -> int
    decreases ds.len(),
{
    if ds.len() == 0 {
        0
    } else {
        total_count(ds.drop_last()) + desc_count(ds.last())
    }
}

/// The highest frame mark after a descriptor has been processed.
pub open spec fn desc_highest(h: int, d: UefiMemoryDescriptor) -> int {
    if desc_count(d) > 0 {
        let last = desc_start_frame(d) + desc_count(d) - 1;
        if last > h { last } else { h }
    } else {
        h
    }
}

/// The highest frame mark after a sequence of descriptors has been processed.
pub open spec fn highest_after(h: int, ds: Seq<UefiMemoryDescriptor>) -> int
    decreases ds.len(),
{
    if ds.len() == 0 {
        h
    } else {
        desc_highest(highest_after(h, ds.drop_last()), ds.last())
    }
}

/// Whether the frame region of every conventional descriptor can be computed
/// without overflowing a `usize`.
pub open spec fn descs_fit(ds: Seq<UefiMemoryDescriptor>) -> bool {
    forall|k: int|
        0 <= k < ds.len() && #[trigger] ds[k].ty == CONVENTIONAL_MEMORY ==> desc_start_frame(ds[k])
            + ds[k].number_of_pages <= usize::MAX
}

/// Whether no frame lies in the regions of two different descriptors.
pub open spec fn descs_disjoint(ds: Seq<UefiMemoryDescriptor>) -> bool {
    forall|j: int, k: int, i: int|
        #![trigger desc_frees(ds[j], i), desc_frees(ds[k], i)]
        0 <= j < k < ds.len() && desc_frees(ds[j], i) ==> !desc_frees(ds[k], i)
}

/// The allocator state.
pub struct BitmapAllocator {
    bitmap: Vec<u64>,
    highest_frame: usize,
    free_frames: usize,
}

impl BitmapAllocator {
    /// Whether `frame` is marked free.
    pub closed spec fn is_free(&self, frame: int) -> bool {
        0 <= frame < MAX_FRAMES && bit_is_set(self.bitmap@[frame / 64], (frame % 64) as u64)
    }

    /// The set of free frames.
    pub open spec fn free_set(&self) -> Set<int> {
        Set::new(|i: int| self.is_free(i))
    }

    /// The highest frame ever marked free.
    pub closed spec fn highest(&self) -> int {
        self.highest_frame as int
    }

    /// The free-frame counter.
    pub closed spec fn free_count(&self) -> int {
        self.free_frames as int
    }

    /// Well-formedness: the bitmap has its full size, no free frame lies above
    /// the highest mark, and the counter is at least the number of free frames.
    pub closed spec fn wf(&self) -> bool {
        &&& self.bitmap@.len() == BITMAP_SIZE
        &&& self.highest_frame < MAX_FRAMES
        &&& forall|i: int| #[trigger] self.is_free(i) ==> i <= self.highest_frame
        &&& self.free_set().len() <= self.free_frames
    }

    proof fn lemma_free_set_finite(&self)
        ensures
            self.free_set().finite(),
            self.free_set().len() <= MAX_FRAMES,
    {
        lemma_int_range(0, MAX_FRAMES as int);
        assert(self.free_set().subset_of(set_int_range(0, MAX_FRAMES as int)));
        lemma_len_subset(self.free_set(), set_int_range(0, MAX_FRAMES as int));
    }

    /// No free frame lies above the highest mark: where the mark is itself free,
    /// it is the largest free frame.
    pub proof fn lemma_highest_bounds_free(&self)
        requires
            self.wf(),
        ensures
            forall|i: int| #[trigger] self.is_free(i) ==> i <= self.highest(),
            self.free_set().finite(),
    {
        self.lemma_free_set_finite();
    }

    /// An allocator with every frame reserved.
    pub fn new() -> (r: Self)
        ensures
            r.wf(),
            forall|i: int| !r.is_free(i),
            r.highest() == 0,
            r.free_count() == 0,
            r.free_set() == Set::<int>::empty(),
    {
        let r = BitmapAllocator { bitmap: vec![0u64; BITMAP_SIZE], highest_frame: 0, free_frames: 0 };
        assert forall|i: int| !r.is_free(i) by {
            if 0 <= i < MAX_FRAMES {
                lemma_zero_word((i % 64) as u64);
            }
        }
        assert(r.free_set() =~= Set::empty());
        r
    }

    /// Whether `frame` is currently free.
    pub fn is_frame_free(&self, frame: usize) -> (r: bool)
        requires
            self.wf(),
        ensures
            r == self.is_free(frame as int),
    {
        if frame < MAX_FRAMES {
            self.bitmap[frame / 64] & (1u64 << ((frame % 64) as u64)) != 0
        } else {
            false
        }
    }

    /// The value of the free-frame counter.
    pub fn free_frame_count(&self) -> (r: usize)
        ensures
            r == self.free_count(),
    {
        self.free_frames
    }

    /// The highest frame ever marked free.
    pub fn highest_frame(&self) -> (r: usize)
        ensures
            r == self.highest(),
    {
        self.highest_frame
    }

    /// Marks `frame` free (it must be tracked), counting it.
    fn mark_free(&mut self, frame: usize)
        requires
            old(self).wf(),
            frame < MAX_FRAMES,
            old(self).free_count() < usize::MAX,
        ensures
            final(self).wf(),
            forall|i: int| final(self).is_free(i) == (old(self).is_free(i) || i == frame),
            final(self).free_count() == old(self).free_count() + 1,
            final(self).highest() == if frame > old(self).highest() { frame as int } else { old(self).highest() },
            final(self).free_set().len() == old(self).free_set().len() + if old(self).is_free(frame as int) {
                0int
            } else {
                1int
            },
    {
        let ghost old_set = self.free_set();
        proof {
            self.lemma_free_set_finite();
        }
        let a = frame / 64;
        let b = (frame % 64) as u64;
        let w = self.bitmap[a];
        self.bitmap.set(a, w | (1u64 << b));
        self.free_frames = self.free_frames + 1;
        if frame > self.highest_frame {
            self.highest_frame = frame;
        }
        assert forall|i: int| self.is_free(i) == (old(self).is_free(i) || i == frame) by {
            if 0 <= i < MAX_FRAMES {
                lemma_set_bit(w, b, (i % 64) as u64);
                if i / 64 != a as int {
                    assert(self.bitmap@[i / 64] == old(self).bitmap@[i / 64]);
                }
            }
        }
        assert(self.free_set() =~= old_set.insert(frame as int));
        assert(old(self).is_free(frame as int) ==> old_set.insert(frame as int) =~= old_set);
    }

    /// Marks free every tracked frame of the region of `number_of_pages` frames
    /// that starts at address `physical_start`, and returns how many frames it
    /// counted.
    pub fn add_region(&mut self, physical_start: u64, number_of_pages: u64) -> (added: usize)
        requires
            old(self).wf(),
            physical_start / PAGE_SIZE + number_of_pages <= usize::MAX,
            old(self).free_count() + frames_tracked(
                (physical_start / PAGE_SIZE) as int,
                number_of_pages as int,
            ) <= usize::MAX,
        ensures
            final(self).wf(),
            added == frames_tracked((physical_start / PAGE_SIZE) as int, number_of_pages as int),
            forall|i: int|
                #![trigger final(self).is_free(i)]
                final(self).is_free(i) == (old(self).is_free(i) || ((physical_start / PAGE_SIZE) as int
                    <= i < (physical_start / PAGE_SIZE) + number_of_pages && i < MAX_FRAMES)),
            final(self).free_count() == old(self).free_count() + added,
            final(self).highest() == if added > 0 && (physical_start / PAGE_SIZE) + added - 1
                > old(self).highest() {
                (physical_start / PAGE_SIZE) + added - 1
            } else {
                old(self).highest()
            },
            final(self).highest() == old(self).highest() || final(self).is_free(final(self).highest()),
            (forall|i: int|
                #![trigger old(self).is_free(i)]
                (physical_start / PAGE_SIZE) as int <= i < (physical_start / PAGE_SIZE) + number_of_pages
                    && i < MAX_FRAMES ==> !old(self).is_free(i)) ==> final(self).free_set().len()
                == old(self).free_set().len() + added,
    {
        let start_frame = (physical_start / PAGE_SIZE) as usize;
        let end_frame = start_frame + number_of_pages as usize;
        let stop = if end_frame < MAX_FRAMES { end_frame } else { MAX_FRAMES };
        let ghost start = start_frame as int;
        let ghost fresh = forall|i: int|
            #![trigger old(self).is_free(i)]
            start <= i < start + number_of_pages && i < MAX_FRAMES ==> !old(self).is_free(i);
        let mut added: usize = 0;
        let mut frame_idx: usize = start_frame;
        while frame_idx < stop
            invariant
                self.wf(),
                start_frame <= frame_idx,
                start == start_frame as int,
                frame_idx <= stop || frame_idx == start_frame,
                stop <= MAX_FRAMES,
                stop as int == if end_frame < MAX_FRAMES { end_frame as int } else { MAX_FRAMES as int },
                start_frame == (physical_start / PAGE_SIZE) as int,
                end_frame == start_frame + number_of_pages,
                added == frame_idx - start_frame,
                self.free_count() == old(self).free_count() + added,
                old(self).free_count() + frames_tracked(start, number_of_pages as int) <= usize::MAX,
                forall|i: int|
                    #![trigger self.is_free(i)]
                    self.is_free(i) == (old(self).is_free(i) || (start_frame <= i < frame_idx)),
                self.highest() == if added > 0 && frame_idx - 1 > old(self).highest() {
                    frame_idx - 1
                } else {
                    old(self).highest()
                },
                fresh == forall|i: int|
                    #![trigger old(self).is_free(i)]
                    start <= i < start + number_of_pages && i < MAX_FRAMES ==> !old(self).is_free(i),
                fresh ==> self.free_set().len() == old(self).free_set().len() + added,
            decreases stop - frame_idx,
        {
            assert(frames_tracked(start, number_of_pages as int) == stop - start_frame);
            proof {
                if fresh {
                    assert(!old(self).is_free(frame_idx as int));
                    assert(!self.is_free(frame_idx as int));
                }
            }
            self.mark_free(frame_idx);
            added = added + 1;
            frame_idx = frame_idx + 1;
        }
        assert(start_frame < stop ==> frame_idx == stop);
        assert(added == frames_tracked(start, number_of_pages as int));
        proof {
            if self.highest() != old(self).highest() {
                assert(self.is_free(self.highest()));
            }
        }
        added
    }

    /// Whether `init` can take `descriptors`: every conventional region's
    /// frame range fits a `usize`, and so does the free count afterwards.
    pub fn init_fits(&self, descriptors: &[UefiMemoryDescriptor]) -> (r: bool)
        ensures
            r == (descs_fit(descriptors@) && self.free_count() + total_count(descriptors@) <= usize::MAX),
    {
        let n = descriptors.len();
        let mut total: usize = self.free_frames;
        let mut i: usize = 0;
        proof {
            assert(descriptors@.take(0) =~= Seq::<UefiMemoryDescriptor>::empty());
            lemma_total_count_nonneg(descriptors@);
        }
        while i < n
            invariant
                n == descriptors@.len(),
                i <= n,
                total == self.free_count() + total_count(descriptors@.take(i as int)),
                forall|k: int|
                    0 <= k < i && #[trigger] descriptors@[k].ty == CONVENTIONAL_MEMORY ==> desc_start_frame(
                        descriptors@[k],
                    ) + descriptors@[k].number_of_pages <= usize::MAX,
            decreases n - i,
        {
            let d = descriptors[i];
            proof {
                lemma_total_count_prefix(descriptors@, i + 1);
            }
            if d.ty == CONVENTIONAL_MEMORY {
                let start = d.physical_start / PAGE_SIZE;
                let end = match start.checked_add(d.number_of_pages) {
                    Some(e) => e,
                    None => return false,
                };
                if end > usize::MAX as u64 {
                    return false;
                }
                let stop: u64 = if end < MAX_FRAMES as u64 { end } else { MAX_FRAMES as u64 };
                let count: u64 = if start < stop { stop - start } else { 0 };
                assert(count == desc_count(d));
                match total.checked_add(count as usize) {
                    Some(t) => total = t,
                    None => {
                        proof {
                            lemma_total_count_mono(descriptors@, i + 1);
                        }
                        return false;
                    },
                }
            }
            i = i + 1;
        }
        assert(descriptors@.take(n as int) =~= descriptors@);
        true
    }


    /// Marks free the tracked frames of every conventional-memory region of the
    /// memory map, and returns how many frames it counted.
    pub fn init(&mut self, descriptors: &[UefiMemoryDescriptor]) -> (total_free: usize)
        requires
            old(self).wf(),
            descs_fit(descriptors@),
            old(self).free_count() + total_count(descriptors@) <= usize::MAX,
        ensures
            final(self).wf(),
            total_free == total_count(descriptors@),
            forall|i: int|
                #![trigger final(self).is_free(i)]
                final(self).is_free(i) == (old(self).is_free(i) || exists|k: int|
                    0 <= k < descriptors@.len() && desc_frees(#[trigger] descriptors@[k], i)),
            final(self).free_count() == old(self).free_count() + total_free,
            final(self).highest() == highest_after(old(self).highest(), descriptors@),
            final(self).highest() == old(self).highest() || final(self).is_free(final(self).highest()),
            descs_disjoint(descriptors@) && (forall|k: int, i: int|
                #![trigger desc_frees(descriptors@[k], i)]
                0 <= k < descriptors@.len() && desc_frees(descriptors@[k], i) ==> !old(self).is_free(i))
                ==> final(self).free_set().len() == old(self).free_set().len() + total_free,
    {
        let ghost fresh = descs_disjoint(descriptors@) && (forall|k: int, i: int|
            #![trigger desc_frees(descriptors@[k], i)]
            0 <= k < descriptors@.len() && desc_frees(descriptors@[k], i) ==> !old(self).is_free(i));
        let mut total_free: usize = 0;
        let mut n: usize = 0;
        while n < descriptors.len()
            invariant
                self.wf(),
                n <= descriptors@.len(),
                descs_fit(descriptors@),
                old(self).free_count() + total_count(descriptors@) <= usize::MAX,
                total_free == total_count(descriptors@.take(n as int)),
                self.free_count() == old(self).free_count() + total_free,
                forall|i: int|
                    #![trigger self.is_free(i)]
                    self.is_free(i) == (old(self).is_free(i) || exists|k: int|
                        0 <= k < n && desc_frees(#[trigger] descriptors@[k], i)),
                self.highest() == highest_after(old(self).highest(), descriptors@.take(n as int)),
                self.highest() == old(self).highest() || self.is_free(self.highest()),
                fresh == (descs_disjoint(descriptors@) && (forall|k: int, i: int|
                    #![trigger desc_frees(descriptors@[k], i)]
                    0 <= k < descriptors@.len() && desc_frees(descriptors@[k], i) ==> !old(self).is_free(i))),
                fresh ==> self.free_set().len() == old(self).free_set().len() + total_free,
            decreases descriptors@.len() - n,
        {
            let d = descriptors[n];
            proof {
                lemma_total_count_prefix(descriptors@, n as int + 1);
                lemma_total_count_mono(descriptors@, n as int + 1);
                assert(d.ty == CONVENTIONAL_MEMORY ==> desc_start_frame(descriptors@[n as int]) + d.number_of_pages <= usize::MAX);
                assert(descriptors@.take(n as int + 1).drop_last() =~= descriptors@.take(n as int));
            }
            if d.ty == CONVENTIONAL_MEMORY {
                let ghost before = *self;
                proof {
                    if fresh {
                        assert forall|i: int|
                            #![trigger before.is_free(i)]
                            (d.physical_start / PAGE_SIZE) as int <= i < (d.physical_start / PAGE_SIZE)
                                + d.number_of_pages && i < MAX_FRAMES implies !before.is_free(i) by {
                            assert(desc_frees(descriptors@[n as int], i));
                            assert(!old(self).is_free(i));
                            if exists|k: int| 0 <= k < n && desc_frees(#[trigger] descriptors@[k], i) {
                                let k = choose|k: int| 0 <= k < n && desc_frees(#[trigger] descriptors@[k], i);
                                assert(!desc_frees(descriptors@[n as int], i));
                            }
                        }
                    }
                }
                let added = self.add_region(d.physical_start, d.number_of_pages);
                proof {
                    if before.highest() != old(self).highest() && self.highest() == before.highest() {
                        assert(before.is_free(before.highest()));
                        assert(self.is_free(self.highest()));
                    }
                }
                total_free = total_free + added;
            }
            proof {
                assert forall|i: int| #![trigger self.is_free(i)]
                    self.is_free(i) == (old(self).is_free(i) || exists|k: int|
                        0 <= k < n + 1 && desc_frees(#[trigger] descriptors@[k], i)) by {
                    if desc_frees(d, i) {
                        assert(desc_frees(descriptors@[n as int], i));
                    }
                }
            }
            n = n + 1;
        }
        assert(descriptors@.take(descriptors@.len() as int) =~= descriptors@);
        total_free
    }

    /// Hands out the lowest free frame (searching frames `0..=highest`), marking
    /// it reserved, and returns its physical address; `None` when no frame is
    /// free.
    pub fn allocate_frame(&mut self) -> (r: Option<u64>)
        requires
            old(self).wf(),
        ensures
            final(self).wf(),
            allocates(*old(self), r, *final(self)),
            old(self).free_count() == old(self).free_set().len() ==> final(self).free_count()
                == final(self).free_set().len(),
    {
        let mut i: usize = 0;
        while i <= self.highest_frame
            invariant
                self.wf(),
                *self == *old(self),
                i <= self.highest_frame + 1,
                forall|j: int| 0 <= j < i ==> !self.is_free(j),
            decreases self.highest_frame + 1 - i,
        {
            let array_idx = i / 64;
            let bit_idx = (i % 64) as u64;
            let w = self.bitmap[array_idx];
            if w & (1u64 << bit_idx) != 0 {
                let ghost old_set = self.free_set();
                proof {
                    self.lemma_free_set_finite();
                    assert(self.is_free(i as int));
                    assert(old_set.contains(i as int));
                }
                self.bitmap.set(array_idx, w & !(1u64 << bit_idx));
                self.free_frames = self.free_frames - 1;
                assert forall|k: int| #![trigger self.is_free(k)]
                    self.is_free(k) == (old(self).is_free(k) && k != i) by {
                    if 0 <= k < MAX_FRAMES {
                        lemma_clear_bit(w, bit_idx, (k % 64) as u64);
                        if k / 64 != array_idx as int {
                            assert(self.bitmap@[k / 64] == old(self).bitmap@[k / 64]);
                        }
                    }
                }
                assert(self.free_set() =~= old_set.remove(i as int));
                assert(self.free_set().len() == old_set.len() - 1);
                assert((i as u64 * PAGE_SIZE) as u64 / PAGE_SIZE == i as u64 && (i as u64 * PAGE_SIZE) as u64 % PAGE_SIZE == 0) by (nonlinear_arith) requires i < MAX_FRAMES;
                return Some(i as u64 * PAGE_SIZE);
            }
            i = i + 1;
        }
        None
    }
}

/// What one allocation does: it hands out the lowest free frame (its
/// page-aligned address) and marks it used, leaving every other frame as it
/// was and the highest mark unchanged; with no free frame it returns `None`
/// and changes nothing.
pub open spec fn allocates(before: BitmapAllocator, r: Option<u64>, after: BitmapAllocator) -> bool {
    &&& after.highest() == before.highest()
    &&& match r {
        Some(addr) => {
            &&& addr % PAGE_SIZE == 0
            &&& before.is_free((addr / PAGE_SIZE) as int)
            &&& forall|j: int| 0 <= j < addr / PAGE_SIZE ==> !before.is_free(j)
            &&& forall|i: int|
                #![trigger after.is_free(i)]
                after.is_free(i) == (before.is_free(i) && i != addr / PAGE_SIZE)
            &&& after.free_count() == before.free_count() - 1
        },
        None => {
            &&& forall|i: int| !before.is_free(i)
            &&& after == before
        },
    }
}

/// A frame is never handed out twice in a row: two successive allocations
/// return different frames, and the second one's is higher.
pub proof fn lemma_successive_allocations_differ(
    s0: BitmapAllocator,
    s1: BitmapAllocator,
    s2: BitmapAllocator,
    a: u64,
    b: u64,
)
    requires
        allocates(s0, Some(a), s1),
        allocates(s1, Some(b), s2),
    ensures
        a != b,
        a < b,
{
    assert(s1.is_free((b / PAGE_SIZE) as int));
    assert(!s1.is_free((a / PAGE_SIZE) as int));
    assert(s0.is_free((b / PAGE_SIZE) as int));
    if b < a {
        assert(!s0.is_free((b / PAGE_SIZE) as int));
    }
}

proof fn lemma_total_count_nonneg(ds: Seq<UefiMemoryDescriptor>)
    ensures
        total_count(ds) >= 0,
    decreases ds.len(),
{
    if ds.len() > 0 {
        lemma_total_count_nonneg(ds.drop_last());
    }
}

proof fn lemma_total_count_mono(ds: Seq<UefiMemoryDescriptor>, n: int)
    requires
        0 <= n <= ds.len(),
    ensures
        total_count(ds.take(n)) <= total_count(ds),
    decreases ds.len(),
{
    if n < ds.len() {
        lemma_total_count_mono(ds.drop_last(), n);
        assert(ds.drop_last().take(n) =~= ds.take(n));
        lemma_total_count_nonneg(ds.drop_last());
    } else {
        assert(ds.take(n) =~= ds);
    }
}

proof fn lemma_total_count_prefix(ds: Seq<UefiMemoryDescriptor>, n: int)
    requires
        0 < n <= ds.len(),
    ensures
        total_count(ds.take(n)) == total_count(ds.take(n - 1)) + desc_count(ds[n - 1]),
{
    assert(ds.take(n).drop_last() =~= ds.take(n - 1));
}

} // verus!
