//! The physical page-frame allocator: one bitmap allocator per retained
//! usable memory region, and a global allocator that tries the regions in
//! order and routes frees by range containment.
use vstd::prelude::*;
use crate::bitmap::{
    Bitmap, bitmap_model, bitmap_new, bitmap_set, bitmap_first_zero_from, bitmap_count_zeros,
    count_zeros, lemma_count_zeros_le_len, lemma_count_zeros_update, lemma_count_zeros_all_clear,
};

verus! {

/// Bytes in one page frame.
pub const FRAME_SIZE: u64 = 4096;

/// Bytes set aside at the base of a region for the allocator's own header,
/// before its bitmap.
pub const SRA_HEADER_BYTES: usize = 48;

/// How a firmware memory region may be used.
#[derive(Clone, Copy, Debug, PartialEq, Eq, Hash, Structural)]
pub enum MemoryRegionKind {
    /// Free for the kernel to allocate.
    Usable,
    /// Holds the bootloader or its data.
    Bootloader,
    /// Unknown or reserved by firmware.
    Unknown,
}

/// A half-open physical address range with its kind.
#[derive(Clone, Copy, Debug, PartialEq, Eq, Hash, Structural)]
pub struct MemoryRegion {
    /// First physical address of the region.
    pub start: u64,
    /// First physical address past the region.
    pub end: u64,
    /// How the region may be used.
    pub kind: MemoryRegionKind,
}

/// `a` rounded up to the next frame boundary.
pub open spec fn spec_align_up(a: int) -> int {
    ((a + 4095) / 4096) * 4096
}

/// `a` rounded down to a frame boundary.
pub open spec fn spec_align_down(a: int) -> int {
    (a / 4096) * 4096
}

/// Whole frames between the aligned bounds of a region.
pub open spec fn spec_region_frames(r: MemoryRegion) -> int {
    (spec_align_down(r.end as int) - spec_align_up(r.start as int)) / 4096
}

/// Whether a region is kept at initialization: usable and at least eight
/// frames after alignment.
pub open spec fn spec_region_retained(r: MemoryRegion) -> bool {
    r.kind == MemoryRegionKind::Usable && spec_region_frames(r) >= 8
}

/// Frames reserved at the base of a region for the allocator header and its
/// bitmap (one bit per frame).
pub open spec fn spec_meta_frames(frames: int) -> int {
    (SRA_HEADER_BYTES + frames / 8 + 4095) / 4096
}

/// The page-frame allocator of one contiguous usable region: a bitmap with
/// one bit per frame (set means allocated) and a hint to the first free bit.
#[derive(Debug)]
pub struct SingleRegionPageFrameAllocator {
    start: u64,
    end: u64,
    bitmap: Bitmap,
    next_free: Option<usize>,
}

/// The structural model of a region allocator: aligned non-empty bounds, a
/// span that fits the address space, and one bit per frame.
pub open spec fn sra_model_wf(s: &SingleRegionPageFrameAllocator) -> bool {
    &&& s.spec_start() % 4096 == 0
    &&& s.spec_end() % 4096 == 0
    &&& s.spec_start() < s.spec_end()
    &&& s.spec_end() - s.spec_start() <= usize::MAX
    &&& s.spec_bits().len() * 4096 == s.spec_end() - s.spec_start()
}

/// Every frame of the allocator is allocated.
pub open spec fn sra_all_set(s: &SingleRegionPageFrameAllocator) -> bool {
    forall|k: int| 0 <= k < s.spec_bits().len() ==> s.spec_bits()[k]
}

/// Whether the allocator's region contains the frame address.
pub open spec fn sra_owns(s: &SingleRegionPageFrameAllocator, frame: u64) -> bool {
    s.spec_start() <= frame < s.spec_end()
}

/// The bitmap index of a frame address inside the allocator's region.
pub open spec fn sra_frame_index(s: &SingleRegionPageFrameAllocator, frame: u64) -> int {
    (frame - s.spec_start()) / 4096
}

impl SingleRegionPageFrameAllocator {
    /// First physical address of the managed region.
    pub closed spec fn spec_start(&self) -> u64 {
        self.start
    }

    /// First physical address past the managed region.
    pub closed spec fn spec_end(&self) -> u64 {
        self.end
    }

    /// The allocation map: one bit per frame, set when allocated.
    pub closed spec fn spec_bits(&self) -> Seq<bool> {
        bitmap_model(self.bitmap)
    }

    /// The hint names the first free bit, or nothing when all are set.
    pub closed spec fn hint_ok(&self) -> bool {
        match self.next_free {
            Some(j) => {
                &&& j < self.spec_bits().len()
                &&& !self.spec_bits()[j as int]
                &&& forall|k: int| 0 <= k < j ==> self.spec_bits()[k]
            },
            None => sra_all_set(self),
        }
    }

    /// Well-formed: structural model plus a correct hint.
    pub open spec fn wf(&self) -> bool {
        sra_model_wf(self) && self.hint_ok()
    }

    /// Builds the allocator of one retained region: bounds are aligned
    /// inwards and the frames holding the allocator's own header and bitmap
    /// are marked allocated up front.
    pub fn new(region: MemoryRegion) -> (r: Self)
        requires
            spec_region_retained(region),
            region.start + 4095 <= u64::MAX,
            spec_align_down(region.end as int) - spec_align_up(region.start as int) <= usize::MAX,
        ensures
            r.wf(),
            r.spec_start() == spec_align_up(region.start as int),
            r.spec_end() == spec_align_down(region.end as int),
            r.spec_bits().len() == spec_region_frames(region),
            forall|k: int|
                0 <= k < r.spec_bits().len() ==> (r.spec_bits()[k] <==> k < spec_meta_frames(
                    spec_region_frames(region),
                )),
    {
        let start = (region.start + 4095) / 4096 * 4096;
        let end = region.end / 4096 * 4096;
        proof {
            assert(spec_region_frames(region) * 4096 == end - start) by (nonlinear_arith)
                requires
                    start == spec_align_up(region.start as int),
                    end == spec_align_down(region.end as int),
                    spec_region_frames(region) == ((end - start) as int) / 4096,
                    start % 4096 == 0,
                    end % 4096 == 0,
                    spec_region_frames(region) >= 8,
            ;
        }
        let frames = ((end - start) / 4096) as usize;
        let mut bitmap = bitmap_new(frames);
        let slice_size = frames / 8;
        proof {
            assert(frames as int * 4096 == end - start) by (nonlinear_arith)
                requires
                    start % 4096 == 0,
                    end % 4096 == 0,
                    start < end,
                    frames as int == ((end - start) as int) / 4096,
            ;
            assert(SRA_HEADER_BYTES + slice_size as int + 4095 <= usize::MAX);
        }
        let offset = (SRA_HEADER_BYTES + slice_size + 4095) / 4096;
        proof {
            assert(spec_meta_frames(frames as int) < frames as int) by (nonlinear_arith)
                requires
                    frames >= 8,
                    spec_meta_frames(frames as int) == (SRA_HEADER_BYTES + (frames as int) / 8
                        + 4095) / 4096,
                    SRA_HEADER_BYTES == 48,
            ;
        }
        let mut i: usize = 0;
        while i < offset
            invariant
                offset < frames,
                bitmap_model(bitmap).len() == frames,
                i <= offset,
                forall|k: int| 0 <= k < frames ==> (bitmap_model(bitmap)[k] <==> k < i),
            decreases offset - i,
        {
            bitmap_set(&mut bitmap, i, true);
            i = i + 1;
        }
        Self { start, end, bitmap, next_free: Some(offset) }
    }

    /// Whether any frame is still free.
    pub fn has_free(&self) -> (r: bool)
        requires
            self.wf(),
        ensures
            r == !sra_all_set(self),
    {
        proof {
            if self.next_free is Some {
                let j = self.next_free->0 as int;
                assert(!self.spec_bits()[j]);
            }
        }
        self.next_free.is_some()
    }

    /// Allocates the lowest free frame of the region, marking its bit.
    pub fn allocate(&mut self) -> (r: Option<u64>)
        requires
            old(self).wf(),
        ensures
            final(self).wf(),
            final(self).spec_start() == old(self).spec_start(),
            final(self).spec_end() == old(self).spec_end(),
            match r {
                Some(addr) => exists|j: int|
                    {
                        &&& 0 <= j < old(self).spec_bits().len()
                        &&& !(#[trigger] old(self).spec_bits()[j])
                        &&& forall|k: int| 0 <= k < j ==> old(self).spec_bits()[k]
                        &&& addr == old(self).spec_start() + 4096 * j
                        &&& final(self).spec_bits() == old(self).spec_bits().update(j, true)
                    },
                None => sra_all_set(old(self)) && *final(self) == *old(self),
            },
    {
        match self.next_free {
            None => None,
            Some(j) => {
                let ghost pre = *self;
                proof {
                    assert((j as int) * 4096 < self.spec_bits().len() * 4096) by (nonlinear_arith)
                        requires
                            (j as int) < self.spec_bits().len(),
                    ;
                }
                bitmap_set(&mut self.bitmap, j, true);
                self.next_free = match bitmap_first_zero_from(&self.bitmap, j) {
                    Some(off) => Some(j + off),
                    None => None,
                };
                let addr = self.start + 4096 * (j as u64);
                proof {
                    assert(exists|jj: int|
                        {
                            &&& 0 <= jj < pre.spec_bits().len()
                            &&& !(#[trigger] pre.spec_bits()[jj])
                            &&& forall|k: int| 0 <= k < jj ==> pre.spec_bits()[k]
                            &&& addr == pre.spec_start() + 4096 * jj
                            &&& self.spec_bits() == pre.spec_bits().update(jj, true)
                        }) by {
                        assert({
                            &&& 0 <= (j as int) < pre.spec_bits().len()
                            &&& !(pre.spec_bits()[j as int])
                            &&& forall|k: int| 0 <= k < j as int ==> pre.spec_bits()[k]
                            &&& addr == pre.spec_start() + 4096 * (j as int)
                            &&& self.spec_bits() == pre.spec_bits().update(j as int, true)
                        });
                    }
                }
                Some(addr)
            },
        }
    }

    /// Returns the frame to the region if this allocator owns it; the caller
    /// warrants that an owned frame is currently allocated.
    pub fn deallocate(&mut self, frame: u64) -> (r: bool)
        requires
            old(self).wf(),
            frame % 4096 == 0,
            sra_owns(old(self), frame) ==> old(self).spec_bits()[sra_frame_index(
                old(self),
                frame,
            )],
        ensures
            final(self).wf(),
            final(self).spec_start() == old(self).spec_start(),
            final(self).spec_end() == old(self).spec_end(),
            r == sra_owns(old(self), frame),
            r ==> final(self).spec_bits() == old(self).spec_bits().update(
                sra_frame_index(old(self), frame),
                false,
            ),
            !r ==> *final(self) == *old(self),
    {
        if self.start <= frame && frame < self.end {
            proof {
                assert(sra_frame_index(&*self, frame) < self.spec_bits().len()
                    && sra_frame_index(&*self, frame) * 4096 == frame - self.spec_start())
                    by (nonlinear_arith)
                    requires
                        self.spec_start() % 4096 == 0,
                        frame % 4096 == 0,
                        self.spec_start() <= frame < self.spec_end(),
                        self.spec_bits().len() * 4096 == self.spec_end() - self.spec_start(),
                        sra_frame_index(&*self, frame) == ((frame - self.spec_start()) as int)
                            / 4096,
                ;
            }
            let index = ((frame - self.start) / 4096) as usize;
            bitmap_set(&mut self.bitmap, index, false);
            match self.next_free {
                Some(old_hint) => {
                    if old_hint > index {
                        self.next_free = Some(index);
                    }
                },
                None => {
                    self.next_free = Some(index);
                },
            }
            true
        } else {
            false
        }
    }

    /// Bytes managed by this allocator.
    pub fn size(&self) -> (r: usize)
        requires
            self.wf(),
        ensures
            r == self.spec_end() - self.spec_start(),
    {
        (self.end - self.start) as usize
    }

    /// Bytes currently free in this allocator.
    pub fn free(&self) -> (r: usize)
        requires
            self.wf(),
        ensures
            r == count_zeros(self.spec_bits()) * 4096,
    {
        proof {
            lemma_count_zeros_le_len(self.spec_bits());
            assert(count_zeros(self.spec_bits()) * 4096 <= self.spec_bits().len() * 4096)
                by (nonlinear_arith)
                requires
                    count_zeros(self.spec_bits()) <= self.spec_bits().len(),
            ;
        }
        bitmap_count_zeros(&self.bitmap) * 4096
    }
}

/// The regions kept at initialization, in their original order.
pub open spec fn spec_retained(s: Seq<MemoryRegion>) -> Seq<MemoryRegion>
    decreases s.len(),
{
    if s.len() == 0 {
        Seq::empty()
    } else {
        let rest = spec_retained(s.drop_last());
        if spec_region_retained(s.last()) {
            rest.push(s.last())
        } else {
            rest
        }
    }
}

/// Retaining a prefix yields a prefix of what retaining the whole yields.
proof fn lemma_retained_prefix(s: Seq<MemoryRegion>, k: int)
    requires
        0 <= k <= s.len(),
    ensures
        spec_retained(s.subrange(0, k)).is_prefix_of(spec_retained(s)),
    decreases s.len() - k,
{
    if k == s.len() {
        assert(s.subrange(0, k) =~= s);
    } else {
        assert(s.subrange(0, s.len() - 1) =~= s.drop_last());
        assert(s.subrange(0, k) =~= s.drop_last().subrange(0, k));
        lemma_retained_prefix(s.drop_last(), k);
    }
}

/// Total bytes managed by a sequence of region allocators.
pub open spec fn spec_total_size(sras: Seq<SingleRegionPageFrameAllocator>) -> int
    decreases sras.len(),
{
    if sras.len() == 0 {
        0
    } else {
        spec_total_size(sras.drop_last()) + (sras.last().spec_end() - sras.last().spec_start())
    }
}

/// Total bytes free in a sequence of region allocators.
pub open spec fn spec_total_free(sras: Seq<SingleRegionPageFrameAllocator>) -> int
    decreases sras.len(),
{
    if sras.len() == 0 {
        0
    } else {
        spec_total_free(sras.drop_last()) + count_zeros(sras.last().spec_bits()) * 4096
    }
}

/// Two allocators of the sequence never share a frame.
pub open spec fn spec_sras_disjoint(sras: Seq<SingleRegionPageFrameAllocator>) -> bool {
    forall|a: int, b: int|
        0 <= a < b < sras.len() ==> (#[trigger] sras[a].spec_end() <= #[trigger] sras[b].spec_start()
            || sras[b].spec_end() <= sras[a].spec_start())
}

/// A well-formed allocator sequence: each allocator well-formed, regions
/// disjoint.
pub open spec fn spec_sras_wf(sras: Seq<SingleRegionPageFrameAllocator>) -> bool {
    &&& forall|i: int| 0 <= i < sras.len() ==> (#[trigger] sras[i]).wf()
    &&& spec_sras_disjoint(sras)
}

/// The first allocator whose region contains the frame address, if any.
pub open spec fn spec_owner_index(sras: Seq<SingleRegionPageFrameAllocator>, frame: u64) -> Option<
    int,
>
    decreases sras.len(),
{
    spec_owner_index_from(sras, frame, 0)
}

/// The first allocator at or after `i` whose region contains the frame.
pub open spec fn spec_owner_index_from(
    sras: Seq<SingleRegionPageFrameAllocator>,
    frame: u64,
    i: int,
) -> Option<int>
    decreases sras.len() - i,
{
    if i < 0 || i >= sras.len() {
        None
    } else if sra_owns(&sras[i], frame) {
        Some(i)
    } else {
        spec_owner_index_from(sras, frame, i + 1)
    }
}

/// Whether a frame address lies in some region and its bit is set there.
pub open spec fn spec_frame_allocated(
    sras: Seq<SingleRegionPageFrameAllocator>,
    frame: u64,
) -> bool {
    match spec_owner_index(sras, frame) {
        Some(i) => sras[i].spec_bits()[sra_frame_index(&sras[i], frame)],
        None => false,
    }
}

/// One allocation step: allocator `i` is the first with a free frame, bit
/// `j` is its lowest free bit, the returned address names that frame, and
/// only that bit changes.
pub open spec fn spec_alloc_witness(
    pre: Seq<SingleRegionPageFrameAllocator>,
    post: Seq<SingleRegionPageFrameAllocator>,
    addr: u64,
    i: int,
    j: int,
) -> bool {
    &&& 0 <= i < pre.len()
    &&& post.len() == pre.len()
    &&& forall|h: int| 0 <= h < pre.len() && h != i ==> #[trigger] post[h] == pre[h]
    &&& forall|h: int| 0 <= h < i ==> sra_all_set(&pre[h])
    &&& 0 <= j < pre[i].spec_bits().len()
    &&& !pre[i].spec_bits()[j]
    &&& forall|k: int| 0 <= k < j ==> pre[i].spec_bits()[k]
    &&& addr == pre[i].spec_start() + 4096 * j
    &&& post[i].spec_start() == pre[i].spec_start()
    &&& post[i].spec_end() == pre[i].spec_end()
    &&& post[i].spec_bits() == pre[i].spec_bits().update(j, true)
}

/// What a successful allocation does to the allocator sequence.
pub open spec fn spec_alloc_rel(
    pre: Seq<SingleRegionPageFrameAllocator>,
    post: Seq<SingleRegionPageFrameAllocator>,
    addr: u64,
) -> bool {
    exists|i: int, j: int| spec_alloc_witness(pre, post, addr, i, j)
}

/// Replacing one allocator by one over the same region changes the total
/// size not at all and the total free bytes by the change in its clear bits.
proof fn lemma_total_sums_update(
    s: Seq<SingleRegionPageFrameAllocator>,
    i: int,
    x: SingleRegionPageFrameAllocator,
)
    requires
        0 <= i < s.len(),
        x.spec_start() == s[i].spec_start(),
        x.spec_end() == s[i].spec_end(),
    ensures
        spec_total_size(s.update(i, x)) == spec_total_size(s),
        spec_total_free(s.update(i, x)) == spec_total_free(s) + (count_zeros(x.spec_bits())
            - count_zeros(s[i].spec_bits())) * 4096,
    decreases s.len(),
{
    let t = s.update(i, x);
    if i == s.len() - 1 {
        assert(t.drop_last() =~= s.drop_last());
    } else {
        assert(t.drop_last() =~= s.drop_last().update(i, x));
        lemma_total_sums_update(s.drop_last(), i, x);
    }
}

/// The error that a checked deallocation reports.
#[derive(Clone, Copy, Debug, PartialEq, Eq, Hash, Structural)]
pub enum DeallocError {
    /// The address names no frame of any managed region; it carries the
    /// offending physical address.
    InvalidFrame(u64),
    /// The frame is already free; it carries the offending physical address.
    DoubleFree(u64),
}

/// The global physical page-frame allocator: an ordered sequence of region
/// allocators. Allocation tries the regions in order; deallocation routes by
/// range containment.
#[derive(Debug)]
pub struct PageFrameAllocator {
    allocators: Vec<SingleRegionPageFrameAllocator>,
}

impl PageFrameAllocator {
    /// The region allocators, in allocation order.
    pub closed spec fn spec_sras(&self) -> Seq<SingleRegionPageFrameAllocator> {
        self.allocators@
    }

    /// Well-formed: each region allocator well-formed, regions disjoint.
    pub open spec fn wf(&self) -> bool {
        spec_sras_wf(self.spec_sras())
    }

    /// Adopts the usable memory regions: regions that are not usable, or
    /// smaller than eight frames after alignment, are discarded; one region
    /// allocator is built per kept region, in the original order.
    pub fn new(regions: &Vec<MemoryRegion>) -> (r: Self)
        requires
            forall|i: int|
                0 <= i < regions@.len() && spec_region_retained(#[trigger] regions@[i]) ==> (
                regions@[i].start + 4095 <= u64::MAX && spec_align_down(regions@[i].end as int)
                    - spec_align_up(regions@[i].start as int) <= usize::MAX),
            forall|a: int, b: int|
                0 <= a < b < spec_retained(regions@).len() ==> (spec_align_down(
                    #[trigger] spec_retained(regions@)[a].end as int,
                ) <= spec_align_up(#[trigger] spec_retained(regions@)[b].start as int)
                    || spec_align_down(spec_retained(regions@)[b].end as int) <= spec_align_up(
                    spec_retained(regions@)[a].start as int,
                )),
        ensures
            r.wf(),
            r.spec_sras().len() == spec_retained(regions@).len(),
            forall|m: int|
                0 <= m < r.spec_sras().len() ==> {
                    let reg = spec_retained(regions@)[m];
                    let sra = #[trigger] r.spec_sras()[m];
                    &&& sra.spec_start() == spec_align_up(reg.start as int)
                    &&& sra.spec_end() == spec_align_down(reg.end as int)
                    &&& sra.spec_bits().len() == spec_region_frames(reg)
                    &&& forall|k: int|
                        0 <= k < sra.spec_bits().len() ==> (sra.spec_bits()[k] <==> k
                            < spec_meta_frames(spec_region_frames(reg)))
                },
    {
        let mut allocators: Vec<SingleRegionPageFrameAllocator> = Vec::new();
        let n = regions.len();
        let mut k: usize = 0;
        while k < n
            invariant
                n == regions@.len(),
                k <= n,
                forall|i: int|
                    0 <= i < regions@.len() && spec_region_retained(#[trigger] regions@[i]) ==> (
                    regions@[i].start + 4095 <= u64::MAX && spec_align_down(regions@[i].end as int)
                        - spec_align_up(regions@[i].start as int) <= usize::MAX),
                forall|a: int, b: int|
                    0 <= a < b < spec_retained(regions@).len() ==> (spec_align_down(
                        #[trigger] spec_retained(regions@)[a].end as int,
                    ) <= spec_align_up(#[trigger] spec_retained(regions@)[b].start as int)
                        || spec_align_down(spec_retained(regions@)[b].end as int) <= spec_align_up(
                        spec_retained(regions@)[a].start as int,
                    )),
                allocators@.len() == spec_retained(regions@.subrange(0, k as int)).len(),
                spec_retained(regions@.subrange(0, k as int)).is_prefix_of(
                    spec_retained(regions@),
                ),
                forall|m: int|
                    0 <= m < allocators@.len() ==> {
                        let reg = spec_retained(regions@)[m];
                        let sra = #[trigger] allocators@[m];
                        &&& sra.wf()
                        &&& sra.spec_start() == spec_align_up(reg.start as int)
                        &&& sra.spec_end() == spec_align_down(reg.end as int)
                        &&& sra.spec_bits().len() == spec_region_frames(reg)
                        &&& forall|kk: int|
                            0 <= kk < sra.spec_bits().len() ==> (sra.spec_bits()[kk] <==> kk
                                < spec_meta_frames(spec_region_frames(reg)))
                    },
            decreases n - k,
        {
            let region = regions[k];
            proof {
                assert(regions@.subrange(0, k as int + 1).drop_last() =~= regions@.subrange(
                    0,
                    k as int,
                ));
                assert(regions@.subrange(0, k as int + 1).last() == regions@[k as int]);
                lemma_retained_prefix(regions@, k as int + 1);
            }
            let retained = match region.kind {
                MemoryRegionKind::Usable => {
                    let aligned_start = if region.start > u64::MAX - 4095 {
                        u64::MAX
                    } else {
                        (region.start + 4095) / 4096 * 4096
                    };
                    let aligned_end = region.end / 4096 * 4096;
                    aligned_end > aligned_start && (aligned_end - aligned_start) / 4096 >= 8
                },
                _ => false,
            };
            proof {
                if region.kind == MemoryRegionKind::Usable && region.start + 4095 <= u64::MAX {
                    assert(spec_region_frames(region) >= 8 ==> spec_align_down(region.end as int)
                        > spec_align_up(region.start as int)) by (nonlinear_arith)
                        requires
                            spec_region_frames(region) == (spec_align_down(region.end as int)
                                - spec_align_up(region.start as int)) / 4096,
                    ;
                    assert(spec_align_down(region.end as int) <= spec_align_up(region.start as int)
                        ==> spec_region_frames(region) <= 0) by (nonlinear_arith)
                        requires
                            spec_region_frames(region) == (spec_align_down(region.end as int)
                                - spec_align_up(region.start as int)) / 4096,
                    ;
                }
            }
            proof {
                assert(retained == spec_region_retained(region));
            }
            if retained {
                let ghost pre_ret = spec_retained(regions@.subrange(0, k as int));
                let ghost post_ret = spec_retained(regions@.subrange(0, k as int + 1));
                proof {
                    assert(post_ret == pre_ret.push(region));
                    assert(post_ret.is_prefix_of(spec_retained(regions@)));
                    assert(spec_retained(regions@)[pre_ret.len() as int] == post_ret[pre_ret.len() as int]);
                    assert(spec_retained(regions@)[pre_ret.len() as int] == region);
                }
                let sra = SingleRegionPageFrameAllocator::new(region);
                allocators.push(sra);
            }
            k = k + 1;
        }
        proof {
            assert(regions@.subrange(0, n as int) =~= regions@);
        }
        let r = Self { allocators };
        proof {
            assert forall|a: int, b: int| 0 <= a < b < r.spec_sras().len() implies (
            #[trigger] r.spec_sras()[a].spec_end() <= #[trigger] r.spec_sras()[b].spec_start()
                || r.spec_sras()[b].spec_end() <= r.spec_sras()[a].spec_start()) by {
                assert(r.spec_sras()[a].spec_end() == spec_align_down(
                    spec_retained(regions@)[a].end as int,
                ));
                assert(r.spec_sras()[b].spec_start() == spec_align_up(
                    spec_retained(regions@)[b].start as int,
                ));
            }
        }
        r
    }

    /// Total bytes under management.
    pub fn size(&self) -> (r: usize)
        requires
            self.wf(),
            spec_total_size(self.spec_sras()) <= usize::MAX,
        ensures
            r == spec_total_size(self.spec_sras()),
    {
        let n = self.allocators.len();
        let mut acc: usize = 0;
        let mut i: usize = 0;
        while i < n
            invariant
                self.wf(),
                n == self.spec_sras().len(),
                i <= n,
                spec_total_size(self.spec_sras()) <= usize::MAX,
                acc == spec_total_size(self.spec_sras().subrange(0, i as int)),
            decreases n - i,
        {
            proof {
                lemma_total_size_prefix_le(self.spec_sras(), i as int + 1);
                assert(self.spec_sras().subrange(0, i as int + 1).drop_last()
                    =~= self.spec_sras().subrange(0, i as int));
            }
            acc = acc + self.allocators[i].size();
            i = i + 1;
        }
        proof {
            assert(self.spec_sras().subrange(0, n as int) =~= self.spec_sras());
        }
        acc
    }

    /// Total bytes currently free.
    pub fn free(&self) -> (r: usize)
        requires
            self.wf(),
            spec_total_size(self.spec_sras()) <= usize::MAX,
        ensures
            r == spec_total_free(self.spec_sras()),
    {
        proof {
            lemma_total_free_le_size(self.spec_sras());
        }
        let n = self.allocators.len();
        let mut acc: usize = 0;
        let mut i: usize = 0;
        while i < n
            invariant
                self.wf(),
                n == self.spec_sras().len(),
                i <= n,
                spec_total_size(self.spec_sras()) <= usize::MAX,
                acc == spec_total_free(self.spec_sras().subrange(0, i as int)),
            decreases n - i,
        {
            proof {
                lemma_total_free_le_size(self.spec_sras());
                lemma_total_free_prefix_le(self.spec_sras(), i as int + 1);
                assert(self.spec_sras().subrange(0, i as int + 1).drop_last()
                    =~= self.spec_sras().subrange(0, i as int));
            }
            acc = acc + self.allocators[i].free();
            i = i + 1;
        }
        proof {
            assert(self.spec_sras().subrange(0, n as int) =~= self.spec_sras());
        }
        acc
    }
}

/// Partial size sums never exceed the total.
proof fn lemma_total_size_prefix_le(s: Seq<SingleRegionPageFrameAllocator>, k: int)
    requires
        0 <= k <= s.len(),
        forall|i: int| 0 <= i < s.len() ==> (#[trigger] s[i]).wf(),
    ensures
        0 <= spec_total_size(s.subrange(0, k)) <= spec_total_size(s),
    decreases s.len(),
{
    if s.len() == 0 {
        assert(s.subrange(0, k) =~= s);
    } else if k == s.len() {
        assert(s.subrange(0, k) =~= s);
        lemma_total_size_prefix_le(s.drop_last(), s.len() - 1);
        assert(s.drop_last().subrange(0, s.len() - 1) =~= s.drop_last());
    } else {
        assert(s.subrange(0, k) =~= s.drop_last().subrange(0, k));
        lemma_total_size_prefix_le(s.drop_last(), k);
    }
}

/// Partial free sums never exceed the total free bytes.
proof fn lemma_total_free_prefix_le(s: Seq<SingleRegionPageFrameAllocator>, k: int)
    requires
        0 <= k <= s.len(),
        forall|i: int| 0 <= i < s.len() ==> (#[trigger] s[i]).wf(),
    ensures
        0 <= spec_total_free(s.subrange(0, k)) <= spec_total_free(s),
    decreases s.len(),
{
    if s.len() == 0 {
        assert(s.subrange(0, k) =~= s);
    } else {
        proof_count_zeros_nonneg(s.last());
        if k == s.len() {
            assert(s.subrange(0, k) =~= s);
            lemma_total_free_prefix_le(s.drop_last(), s.len() - 1);
            assert(s.drop_last().subrange(0, s.len() - 1) =~= s.drop_last());
        } else {
            assert(s.subrange(0, k) =~= s.drop_last().subrange(0, k));
            lemma_total_free_prefix_le(s.drop_last(), k);
        }
    }
}

/// The clear-bit count of one allocator is non-negative.
proof fn proof_count_zeros_nonneg(s: SingleRegionPageFrameAllocator)
    ensures
        count_zeros(s.spec_bits()) >= 0,
{
    lemma_count_zeros_le_len(s.spec_bits());
}

/// Free bytes never exceed managed bytes.
pub proof fn lemma_total_free_le_size(s: Seq<SingleRegionPageFrameAllocator>)
    requires
        forall|i: int| 0 <= i < s.len() ==> (#[trigger] s[i]).wf(),
    ensures
        0 <= spec_total_free(s) <= spec_total_size(s),
    decreases s.len(),
{
    if s.len() > 0 {
        lemma_total_free_le_size(s.drop_last());
        lemma_count_zeros_le_len(s.last().spec_bits());
        assert(count_zeros(s.last().spec_bits()) * 4096 <= s.last().spec_bits().len() * 4096)
            by (nonlinear_arith)
            requires
                count_zeros(s.last().spec_bits()) <= s.last().spec_bits().len(),
        ;
    }
}

impl PageFrameAllocator {
    /// Allocates one frame: the first region with a free frame wins, and
    /// within it the lowest free frame. A successful allocation leaves the
    /// total size unchanged and lowers the free total by exactly one frame;
    /// failure means every frame everywhere is allocated.
    pub fn allocate_frame(&mut self) -> (r: Option<u64>)
        requires
            old(self).wf(),
        ensures
            final(self).wf(),
            match r {
                Some(addr) => {
                    &&& spec_alloc_rel(old(self).spec_sras(), final(self).spec_sras(), addr)
                    &&& spec_total_size(final(self).spec_sras()) == spec_total_size(
                        old(self).spec_sras(),
                    )
                    &&& spec_total_free(final(self).spec_sras()) == spec_total_free(
                        old(self).spec_sras(),
                    ) - 4096
                },
                None => {
                    &&& forall|i: int|
                        0 <= i < old(self).spec_sras().len() ==> sra_all_set(
                            &(#[trigger] old(self).spec_sras()[i]),
                        )
                    &&& final(self).spec_sras() == old(self).spec_sras()
                },
            },
    {
        let n = self.allocators.len();
        let mut i: usize = 0;
        while i < n
            invariant
                n == self.spec_sras().len(),
                i <= n,
                self.wf(),
                self.spec_sras() == old(self).spec_sras(),
                forall|h: int| 0 <= h < i ==> sra_all_set(&(#[trigger] self.spec_sras()[h])),
            decreases n - i,
        {
            let ghost pre = self.spec_sras();
            let sra = &mut self.allocators[i];
            let got = sra.allocate();
            match got {
                Some(addr) => {
                    proof {
                        let post = self.spec_sras();
                        let jj = choose|j: int|
                            {
                                &&& 0 <= j < pre[i as int].spec_bits().len()
                                &&& !(#[trigger] pre[i as int].spec_bits()[j])
                                &&& forall|k: int| 0 <= k < j ==> pre[i as int].spec_bits()[k]
                                &&& addr == pre[i as int].spec_start() + 4096 * j
                                &&& post[i as int].spec_bits() == pre[i as int].spec_bits().update(
                                    j,
                                    true,
                                )
                            };
                        assert(spec_alloc_witness(pre, post, addr, i as int, jj));
                        lemma_count_zeros_update(pre[i as int].spec_bits(), jj, true);
                        lemma_total_sums_update(pre, i as int, post[i as int]);
                        assert(post =~= pre.update(i as int, post[i as int]));
                    }
                    return Some(addr);
                },
                None => {},
            }
            proof {
                assert(self.spec_sras() =~= old(self).spec_sras());
            }
            i = i + 1;
        }
        None
    }

    /// Returns a frame to the region that owns it. The caller warrants that
    /// some region owns the frame and that it is currently allocated; the
    /// free total rises by exactly one frame.
    pub fn deallocate_frame(&mut self, frame: u64)
        requires
            old(self).wf(),
            frame % 4096 == 0,
            spec_owner_index(old(self).spec_sras(), frame) is Some,
            spec_frame_allocated(old(self).spec_sras(), frame),
        ensures
            final(self).wf(),
            spec_free_rel(old(self).spec_sras(), final(self).spec_sras(), frame),
            spec_total_size(final(self).spec_sras()) == spec_total_size(old(self).spec_sras()),
            spec_total_free(final(self).spec_sras()) == spec_total_free(old(self).spec_sras())
                + 4096,
    {
        let n = self.allocators.len();
        let mut i: usize = 0;
        while i < n
            invariant
                n == self.spec_sras().len(),
                i <= n,
                self.wf(),
                self.spec_sras() == old(self).spec_sras(),
                frame % 4096 == 0,
                spec_owner_index(old(self).spec_sras(), frame) is Some,
                spec_frame_allocated(old(self).spec_sras(), frame),
                forall|h: int| 0 <= h < i ==> !sra_owns(&(#[trigger] self.spec_sras()[h]), frame),
                spec_owner_index_from(self.spec_sras(), frame, 0) == spec_owner_index_from(
                    self.spec_sras(),
                    frame,
                    i as int,
                ),
            decreases n - i,
        {
            let ghost pre = self.spec_sras();
            let sra = &mut self.allocators[i];
            proof {
                if sra_owns(&pre[i as int], frame) {
                    assert(spec_owner_index_from(pre, frame, i as int) == Some(i as int));
                    assert(pre[i as int].spec_bits()[sra_frame_index(&pre[i as int], frame)]);
                }
            }
            let freed = sra.deallocate(frame);
            if freed {
                proof {
                    let post = self.spec_sras();
                    lemma_count_zeros_update(
                        pre[i as int].spec_bits(),
                        sra_frame_index(&pre[i as int], frame),
                        false,
                    );
                    lemma_total_sums_update(pre, i as int, post[i as int]);
                    assert(post =~= pre.update(i as int, post[i as int]));
                }
                return ;
            }
            proof {
                assert(self.spec_sras() =~= old(self).spec_sras());
            }
            i = i + 1;
        }
        proof {
            assert(spec_owner_index_from(self.spec_sras(), frame, n as int) is None);
        }
        vstd::pervasive::unreached()
    }

    /// Returns a frame with full checking: reports the offending address
    /// when no region owns the frame, or when the frame is free already, and
    /// otherwise frees it.
    pub fn deallocate_frame_checked(&mut self, frame: u64) -> (r: Result<(), DeallocError>)
        requires
            old(self).wf(),
        ensures
            final(self).wf(),
            frame % 4096 != 0 ==> r == Err::<(), DeallocError>(DeallocError::InvalidFrame(frame))
                && final(self).spec_sras() == old(self).spec_sras(),
            frame % 4096 == 0 && spec_owner_index(old(self).spec_sras(), frame) is None ==> r
                == Err::<(), DeallocError>(DeallocError::InvalidFrame(frame))
                && final(self).spec_sras() == old(self).spec_sras(),
            frame % 4096 == 0 && spec_owner_index(old(self).spec_sras(), frame) is Some
                && !spec_frame_allocated(old(self).spec_sras(), frame) ==> r == Err::<
                (),
                DeallocError,
            >(DeallocError::DoubleFree(frame)) && final(self).spec_sras()
                == old(self).spec_sras(),
            frame % 4096 == 0 && spec_frame_allocated(old(self).spec_sras(), frame) ==> r == Ok::<
                (),
                DeallocError,
            >(()) && spec_total_free(final(self).spec_sras()) == spec_total_free(
                old(self).spec_sras(),
            ) + 4096 && spec_total_size(final(self).spec_sras()) == spec_total_size(
                old(self).spec_sras(),
            ),
    {
        if frame % 4096 != 0 {
            return Err(DeallocError::InvalidFrame(frame));
        }
        let n = self.allocators.len();
        let mut i: usize = 0;
        while i < n
            invariant
                n == self.spec_sras().len(),
                i <= n,
                self.wf(),
                self.spec_sras() == old(self).spec_sras(),
                frame % 4096 == 0,
                forall|h: int| 0 <= h < i ==> !sra_owns(&(#[trigger] self.spec_sras()[h]), frame),
                spec_owner_index_from(self.spec_sras(), frame, 0) == spec_owner_index_from(
                    self.spec_sras(),
                    frame,
                    i as int,
                ),
            decreases n - i,
        {
            let owns = {
                let sra = &self.allocators[i];
                sra.owns(frame)
            };
            if owns {
                proof {
                    assert(spec_owner_index_from(self.spec_sras(), frame, i as int) == Some(
                        i as int,
                    ));
                }
                let allocated = {
                    let sra = &self.allocators[i];
                    sra.is_allocated(frame)
                };
                if !allocated {
                    return Err(DeallocError::DoubleFree(frame));
                }
                self.deallocate_frame(frame);
                return Ok(());
            }
            i = i + 1;
        }
        proof {
            assert(spec_owner_index_from(self.spec_sras(), frame, n as int) is None);
        }
        Err(DeallocError::InvalidFrame(frame))
    }
}

impl SingleRegionPageFrameAllocator {
    /// Whether this allocator's region contains the frame address.
    pub fn owns(&self, frame: u64) -> (r: bool)
        ensures
            r == sra_owns(self, frame),
    {
        self.start <= frame && frame < self.end
    }

    /// Whether the owned frame is currently allocated.
    pub fn is_allocated(&self, frame: u64) -> (r: bool)
        requires
            self.wf(),
            sra_owns(self, frame),
            frame % 4096 == 0,
        ensures
            r == self.spec_bits()[sra_frame_index(self, frame)],
    {
        proof {
            assert(sra_frame_index(self, frame) < self.spec_bits().len() && sra_frame_index(
                self,
                frame,
            ) >= 0) by (nonlinear_arith)
                requires
                    self.spec_start() % 4096 == 0,
                    frame % 4096 == 0,
                    self.spec_start() <= frame < self.spec_end(),
                    self.spec_bits().len() * 4096 == self.spec_end() - self.spec_start(),
                    sra_frame_index(self, frame) == ((frame - self.spec_start()) as int) / 4096,
            ;
        }
        let index = ((frame - self.start) / 4096) as usize;
        crate::bitmap::bitmap_get(&self.bitmap, index)
    }
}

/// An allocation hands out a frame that was free, and leaves it allocated:
/// the returned address is frame-aligned, owned by the allocator that served
/// it, free beforehand and allocated afterwards.
pub proof fn lemma_allocate_fresh(
    pre: Seq<SingleRegionPageFrameAllocator>,
    post: Seq<SingleRegionPageFrameAllocator>,
    addr: u64,
)
    requires
        spec_sras_wf(pre),
        spec_alloc_rel(pre, post, addr),
    ensures
        addr % 4096 == 0,
        spec_owner_index(pre, addr) is Some,
        !spec_frame_allocated(pre, addr),
        spec_frame_allocated(post, addr),
    decreases pre.len(),
{
    let (i, j) = choose|i: int, j: int| spec_alloc_witness(pre, post, addr, i, j);
    assert(spec_alloc_witness(pre, post, addr, i, j));
    lemma_owner_and_index(pre, addr, i, j);
    let idx = sra_frame_index(&pre[i], addr);
    assert(idx == j);
    lemma_owner_from_to_zero(pre, addr, i);
    lemma_owner_from_to_zero(post, addr, i);
    assert(spec_owner_index(post, addr) == Some(i));
}

/// Arithmetic bridge: the address of bit `j` of allocator `i` is aligned,
/// owned by that allocator, and indexes back to `j`.
proof fn lemma_owner_and_index(
    sras: Seq<SingleRegionPageFrameAllocator>,
    addr: u64,
    i: int,
    j: int,
)
    requires
        spec_sras_wf(sras),
        0 <= i < sras.len(),
        0 <= j < sras[i].spec_bits().len(),
        addr == sras[i].spec_start() + 4096 * j,
    ensures
        addr % 4096 == 0,
        sra_owns(&sras[i], addr),
        sra_frame_index(&sras[i], addr) == j,
{
    assert(sras[i].wf());
    assert(addr % 4096 == 0 && sras[i].spec_start() <= addr < sras[i].spec_end()
        && ((addr - sras[i].spec_start()) as int) / 4096 == j) by (nonlinear_arith)
        requires
            sras[i].spec_start() % 4096 == 0,
            sras[i].spec_bits().len() * 4096 == sras[i].spec_end() - sras[i].spec_start(),
            0 <= j < sras[i].spec_bits().len(),
            addr == sras[i].spec_start() + 4096 * j,
    ;
}

/// When allocator `i` owns the frame and the regions are disjoint, `i` is
/// the owner that routing finds.
proof fn lemma_owner_from_to_zero(sras: Seq<SingleRegionPageFrameAllocator>, frame: u64, i: int)
    requires
        spec_sras_disjoint(sras),
        0 <= i < sras.len(),
        sra_owns(&sras[i], frame),
    ensures
        spec_owner_index(sras, frame) == Some(i),
{
    lemma_owner_scan(sras, frame, i, 0);
}

/// Scanning for the owner from any position at or before it finds it.
proof fn lemma_owner_scan(sras: Seq<SingleRegionPageFrameAllocator>, frame: u64, i: int, from: int)
    requires
        spec_sras_disjoint(sras),
        0 <= from <= i < sras.len(),
        sra_owns(&sras[i], frame),
    ensures
        spec_owner_index_from(sras, frame, from) == Some(i),
    decreases i - from,
{
    if from < i {
        assert(!sra_owns(&sras[from], frame));
        lemma_owner_scan(sras, frame, i, from + 1);
    }
}

/// No address is handed out twice without an intervening deallocation: two
/// successive successful allocations return different frames.
pub proof fn lemma_no_repeat_allocation(
    s0: Seq<SingleRegionPageFrameAllocator>,
    s1: Seq<SingleRegionPageFrameAllocator>,
    s2: Seq<SingleRegionPageFrameAllocator>,
    a1: u64,
    a2: u64,
)
    requires
        spec_sras_wf(s0),
        spec_sras_wf(s1),
        spec_alloc_rel(s0, s1, a1),
        spec_alloc_rel(s1, s2, a2),
    ensures
        a1 != a2,
{
    lemma_allocate_fresh(s0, s1, a1);
    lemma_allocate_fresh(s1, s2, a2);
}


/// When every allocator is fully set, nothing is free.
pub proof fn lemma_all_set_no_free(sras: Seq<SingleRegionPageFrameAllocator>)
    requires
        forall|i: int| 0 <= i < sras.len() ==> sra_all_set(&(#[trigger] sras[i])),
    ensures
        spec_total_free(sras) == 0,
    decreases sras.len(),
{
    if sras.len() > 0 {
        assert(forall|i: int|
            0 <= i < sras.drop_last().len() ==> sra_all_set(&(#[trigger] sras.drop_last()[i])));
        lemma_all_set_no_free(sras.drop_last());
        lemma_count_zeros_all_set(sras.last().spec_bits());
    }
}

/// A sequence of set bits has no clear bits.
proof fn lemma_count_zeros_all_set(s: Seq<bool>)
    requires
        forall|k: int| 0 <= k < s.len() ==> s[k],
    ensures
        count_zeros(s) == 0,
    decreases s.len(),
{
    if s.len() > 0 {
        assert(forall|k: int| 0 <= k < s.drop_last().len() ==> s.drop_last()[k]);
        lemma_count_zeros_all_set(s.drop_last());
    }
}

/// The allocator found by routing owns the frame.
proof fn lemma_owner_index_owns(sras: Seq<SingleRegionPageFrameAllocator>, frame: u64, from: int)
    requires
        spec_owner_index_from(sras, frame, from) is Some,
    ensures
        ({
            let i = spec_owner_index_from(sras, frame, from)->0;
            0 <= i < sras.len() && sra_owns(&sras[i], frame)
        }),
    decreases sras.len() - from,
{
    if 0 <= from < sras.len() && !sra_owns(&sras[from], frame) {
        lemma_owner_index_owns(sras, frame, from + 1);
    }
}

/// An owned, aligned frame address leaves room for one whole frame below
/// the top of the address space.
pub proof fn lemma_frame_addr_bounded(sras: Seq<SingleRegionPageFrameAllocator>, frame: u64)
    requires
        spec_sras_wf(sras),
        spec_owner_index(sras, frame) is Some,
        frame % 4096 == 0,
    ensures
        frame + 4096 <= u64::MAX,
{
    lemma_owner_index_owns(sras, frame, 0);
    let i = spec_owner_index(sras, frame)->0;
    assert(sras[i].wf());
    assert(frame + 4096 <= sras[i].spec_end()) by (nonlinear_arith)
        requires
            frame % 4096 == 0,
            sras[i].spec_end() % 4096 == 0,
            frame < sras[i].spec_end(),
    ;
}


/// Whether a frame address is aligned, owned by some region, and currently
/// allocated: the state of every frame that a kernel structure holds on to.
pub open spec fn spec_frame_held(sras: Seq<SingleRegionPageFrameAllocator>, f: u64) -> bool {
    &&& f % 4096 == 0
    &&& spec_owner_index(sras, f) is Some
    &&& spec_frame_allocated(sras, f)
}

/// What one deallocation does to the allocator sequence: the owner's bit of
/// the frame is cleared and nothing else changes.
pub open spec fn spec_free_rel(
    pre: Seq<SingleRegionPageFrameAllocator>,
    post: Seq<SingleRegionPageFrameAllocator>,
    frame: u64,
) -> bool {
    &&& spec_owner_index(pre, frame) is Some
    &&& ({
        let i = spec_owner_index(pre, frame)->0;
        &&& post.len() == pre.len()
        &&& forall|h: int| 0 <= h < pre.len() && h != i ==> #[trigger] post[h] == pre[h]
        &&& post[i].spec_start() == pre[i].spec_start()
        &&& post[i].spec_end() == pre[i].spec_end()
        &&& post[i].spec_bits() == pre[i].spec_bits().update(
            sra_frame_index(&pre[i], frame),
            false,
        )
    })
}

/// Routing depends only on the region bounds, which both relations keep.
proof fn lemma_owner_same_regions(
    pre: Seq<SingleRegionPageFrameAllocator>,
    post: Seq<SingleRegionPageFrameAllocator>,
    f: u64,
    from: int,
)
    requires
        post.len() == pre.len(),
        forall|h: int|
            0 <= h < pre.len() ==> (#[trigger] post[h]).spec_start() == pre[h].spec_start()
                && post[h].spec_end() == pre[h].spec_end(),
        0 <= from <= pre.len(),
    ensures
        spec_owner_index_from(post, f, from) == spec_owner_index_from(pre, f, from),
    decreases pre.len() - from,
{
    if from < pre.len() {
        lemma_owner_same_regions(pre, post, f, from + 1);
    }
}

/// An allocation leaves every other held frame held: the fresh frame was
/// free, so it is none of the frames already held.
pub proof fn lemma_alloc_preserves_held(
    pre: Seq<SingleRegionPageFrameAllocator>,
    post: Seq<SingleRegionPageFrameAllocator>,
    addr: u64,
    f: u64,
)
    requires
        spec_sras_wf(pre),
        spec_alloc_rel(pre, post, addr),
        spec_frame_held(pre, f),
    ensures
        spec_frame_held(post, f),
        f != addr,
    decreases pre.len(),
{
    let (i, j) = choose|i: int, j: int| spec_alloc_witness(pre, post, addr, i, j);
    assert(spec_alloc_witness(pre, post, addr, i, j));
    lemma_allocate_fresh(pre, post, addr);
    assert(f != addr);
    assert forall|h: int| 0 <= h < pre.len() implies (#[trigger] post[h]).spec_start()
        == pre[h].spec_start() && post[h].spec_end() == pre[h].spec_end() by {
        if h != i {
            assert(post[h] == pre[h]);
        }
    }
    lemma_owner_same_regions(pre, post, f, 0);
    let o = spec_owner_index(pre, f)->0;
    lemma_owner_index_owns(pre, f, 0);
    if o == i {
        lemma_owner_and_index(pre, addr, i, j);
        lemma_distinct_frames_distinct_index(pre, o, f, addr);
    }
}

/// Freeing one held frame leaves every other held frame held.
pub proof fn lemma_free_preserves_held(
    pre: Seq<SingleRegionPageFrameAllocator>,
    post: Seq<SingleRegionPageFrameAllocator>,
    freed: u64,
    f: u64,
)
    requires
        spec_sras_wf(pre),
        freed % 4096 == 0,
        spec_free_rel(pre, post, freed),
        spec_frame_held(pre, f),
        f != freed,
    ensures
        spec_frame_held(post, f),
{
    let i = spec_owner_index(pre, freed)->0;
    lemma_owner_index_owns(pre, freed, 0);
    assert forall|h: int| 0 <= h < pre.len() implies (#[trigger] post[h]).spec_start()
        == pre[h].spec_start() && post[h].spec_end() == pre[h].spec_end() by {
        if h != i {
            assert(post[h] == pre[h]);
        }
    }
    lemma_owner_same_regions(pre, post, f, 0);
    let o = spec_owner_index(pre, f)->0;
    lemma_owner_index_owns(pre, f, 0);
    if o == i {
        lemma_distinct_frames_distinct_index(pre, o, f, freed);
    }
}

/// Two distinct aligned frames of one region have distinct bitmap indices.
proof fn lemma_distinct_frames_distinct_index(
    sras: Seq<SingleRegionPageFrameAllocator>,
    i: int,
    f1: u64,
    f2: u64,
)
    requires
        spec_sras_wf(sras),
        0 <= i < sras.len(),
        sra_owns(&sras[i], f1),
        sra_owns(&sras[i], f2),
        f1 % 4096 == 0,
        f2 % 4096 == 0,
        f1 != f2,
    ensures
        sra_frame_index(&sras[i], f1) != sra_frame_index(&sras[i], f2),
{
    assert(sras[i].wf());
    assert(((f1 - sras[i].spec_start()) as int) / 4096 != ((f2 - sras[i].spec_start()) as int)
        / 4096) by (nonlinear_arith)
        requires
            sras[i].spec_start() % 4096 == 0,
            f1 % 4096 == 0,
            f2 % 4096 == 0,
            f1 != f2,
            sras[i].spec_start() <= f1,
            sras[i].spec_start() <= f2,
    ;
}


/// Frames managed by a sequence of region allocators.
pub open spec fn spec_total_frames(sras: Seq<SingleRegionPageFrameAllocator>) -> int
    decreases sras.len(),
{
    if sras.len() == 0 {
        0
    } else {
        spec_total_frames(sras.drop_last()) + sras.last().spec_bits().len()
    }
}

/// The managed size is exactly the managed frame count times the frame
/// size: each region allocator spans one bit's worth of bytes per frame.
pub proof fn lemma_size_is_frame_count(sras: Seq<SingleRegionPageFrameAllocator>)
    requires
        forall|i: int| 0 <= i < sras.len() ==> (#[trigger] sras[i]).wf(),
    ensures
        spec_total_size(sras) == spec_total_frames(sras) * 4096,
    decreases sras.len(),
{
    if sras.len() > 0 {
        lemma_size_is_frame_count(sras.drop_last());
        assert((spec_total_frames(sras.drop_last()) + sras.last().spec_bits().len()) * 4096
            == spec_total_frames(sras.drop_last()) * 4096 + sras.last().spec_bits().len() * 4096)
            by (nonlinear_arith);
    }
}


} // verus!
