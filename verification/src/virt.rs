//! The kernel heap: power-of-two slab allocation backed by the physical
//! frame allocator, typed single-frame handles, and the routing that sends
//! small requests to a slab and large ones to the big first-fit heap.
use vstd::prelude::*;
use crate::bitmap::{
    Bitmap, bitmap_model, bitmap_new, bitmap_set, bitmap_first_zero_from, bitmap_count_zeros,
    bitmap_len, count_zeros, lemma_count_zeros_le_len, lemma_count_zeros_update,
    lemma_count_zeros_all_clear,
};
use crate::phys::{
    PageFrameAllocator, spec_alloc_rel, spec_total_size, spec_total_free,
    spec_frame_allocated, spec_owner_index, lemma_allocate_fresh,
    lemma_all_set_no_free, lemma_frame_addr_bounded,
};

verus! {

/// The fixed virtual address at which all of physical memory is mapped.
pub const OFFSET: u64 = 0xffff800000000000;

/// Size in bytes of the kernel heap's virtual window.
pub const HEAP_VIRT_SIZE: usize = 0x40000000;

/// First virtual address of the kernel heap's window, which ends at the
/// top of the address space.
pub const HEAP_VIRT_BASE: u64 = 0xffffffffc0000000;

/// Bytes by which the big heap grows at a time.
pub const HEAP_BLOCK_SIZE: usize = 0x100000;

/// Slab elements that fit in one frame beside the chain link and length.
pub const SLAB_ELEMENTS_PER_FRAME: usize = 169;

/// Where an allocation request of a given size is served.
#[derive(Clone, Copy, Debug, PartialEq, Eq, Hash, Structural)]
pub enum AllocRoute {
    /// Served by the slab with this index.
    Slab(usize),
    /// Served by the big first-fit heap.
    Big,
}

/// The slab class that serves a size: the smallest power of two between 32
/// and 4096 bytes that is at least the size; zero for sizes the slabs do not
/// serve.
pub open spec fn spec_size_class(size: int) -> int {
    if size <= 32 {
        32
    } else if size <= 64 {
        64
    } else if size <= 128 {
        128
    } else if size <= 256 {
        256
    } else if size <= 512 {
        512
    } else if size <= 1024 {
        1024
    } else if size <= 2048 {
        2048
    } else if size <= 4096 {
        4096
    } else {
        0
    }
}

/// The slab index serving a class: 32-byte blocks in slab 0 up to whole
/// frames in slab 7.
pub open spec fn spec_class_index(class: int) -> int {
    if class == 32 {
        0
    } else if class == 64 {
        1
    } else if class == 128 {
        2
    } else if class == 256 {
        3
    } else if class == 512 {
        4
    } else if class == 1024 {
        5
    } else if class == 2048 {
        6
    } else {
        7
    }
}

/// Decides where an allocation of `size` bytes is served: sizes of at most
/// one frame go to the slab of their class, anything larger to the big heap.
pub fn route_layout(size: usize) -> (r: AllocRoute)
    ensures
        size <= 4096 ==> r == AllocRoute::Slab(
            spec_class_index(spec_size_class(size as int)) as usize,
        ),
        size > 4096 ==> r == AllocRoute::Big,
{
    if size <= 32 {
        AllocRoute::Slab(0)
    } else if size <= 64 {
        AllocRoute::Slab(1)
    } else if size <= 128 {
        AllocRoute::Slab(2)
    } else if size <= 256 {
        AllocRoute::Slab(3)
    } else if size <= 512 {
        AllocRoute::Slab(4)
    } else if size <= 1024 {
        AllocRoute::Slab(5)
    } else if size <= 2048 {
        AllocRoute::Slab(6)
    } else if size <= 4096 {
        AllocRoute::Slab(7)
    } else {
        AllocRoute::Big
    }
}

/// Whether `size` is one of the eight slab classes.
pub open spec fn spec_valid_class(size: int) -> bool {
    size == 32 || size == 64 || size == 128 || size == 256 || size == 512 || size == 1024 || size
        == 2048 || size == 4096
}

/// One slab element: a data frame carved into `4096 / size` blocks of the
/// slab's class, with one bit per block (set means handed out).
#[derive(Debug)]
pub struct SlabElement {
    data: u64,
    bitmap: Bitmap,
}

impl SlabElement {
    /// The physical address of the data frame.
    pub closed spec fn spec_data(&self) -> u64 {
        self.data
    }

    /// The per-block allocation map.
    pub closed spec fn spec_bits(&self) -> Seq<bool> {
        bitmap_model(self.bitmap)
    }

    /// Well-formed for a class: an aligned data frame and one bit per block.
    pub open spec fn wf(&self, size: int) -> bool {
        &&& self.spec_data() % 4096 == 0
        &&& self.spec_data() + 4096 <= u64::MAX
        &&& spec_valid_class(size)
        &&& self.spec_bits().len() * size == 4096
    }

    /// Blocks of this element currently handed out.
    pub open spec fn spec_used(&self) -> int {
        self.spec_bits().len() - count_zeros(self.spec_bits())
    }

    /// Builds an element over a freshly allocated data frame.
    pub fn new(phys: &mut PageFrameAllocator, size: usize) -> (r: Self)
        requires
            old(phys).wf(),
            spec_total_free(old(phys).spec_sras()) > 0,
            spec_valid_class(size as int),
        ensures
            final(phys).wf(),
            r.wf(size as int),
            r.spec_used() == 0,
            spec_alloc_rel(old(phys).spec_sras(), final(phys).spec_sras(), r.spec_data()),
            spec_total_size(final(phys).spec_sras()) == spec_total_size(old(phys).spec_sras()),
            spec_total_free(final(phys).spec_sras()) == spec_total_free(old(phys).spec_sras())
                - 4096,
    {
        let frame = match phys.allocate_frame() {
            Some(f) => f,
            None => {
                proof {
                    lemma_all_set_no_free(old(phys).spec_sras());
                }
                vstd::pervasive::unreached()
            },
        };
        proof {
            lemma_allocate_fresh(old(phys).spec_sras(), phys.spec_sras(), frame);
            lemma_frame_addr_bounded(phys.spec_sras(), frame);
        }
        let blocks = 4096 / size;
        let bitmap = bitmap_new(blocks);
        proof {
            assert(blocks as int * size as int == 4096) by (nonlinear_arith)
                requires
                    spec_valid_class(size as int),
                    blocks == 4096 as int / size as int,
            ;
            lemma_count_zeros_all_clear(bitmap_model(bitmap));
        }
        SlabElement { data: frame, bitmap }
    }

    /// Whether every block is handed out.
    pub fn full(&self, size: usize) -> (r: bool)
        requires
            self.wf(size as int),
        ensures
            r == (count_zeros(self.spec_bits()) == 0),
    {
        proof {
            lemma_count_zeros_le_len(self.spec_bits());
            lemma_first_zero_count(self.spec_bits());
        }
        match bitmap_first_zero_from(&self.bitmap, 0) {
            Some(_) => false,
            None => true,
        }
    }

    /// Whether no block is handed out.
    pub fn empty(&self, size: usize) -> (r: bool)
        requires
            self.wf(size as int),
        ensures
            r == (count_zeros(self.spec_bits()) == self.spec_bits().len()),
    {
        proof {
            lemma_count_zeros_le_len(self.spec_bits());
        }
        let zeros = bitmap_count_zeros(&self.bitmap);
        let len = bitmap_len(&self.bitmap);
        zeros == len
    }

    /// Hands out the lowest free block, returning its physical address.
    pub fn allocate(&mut self, size: usize) -> (r: u64)
        requires
            old(self).wf(size as int),
            count_zeros(old(self).spec_bits()) > 0,
        ensures
            final(self).wf(size as int),
            final(self).spec_data() == old(self).spec_data(),
            final(self).spec_used() == old(self).spec_used() + 1,
            ({
                let j = (r - old(self).spec_data()) as int / (size as int);
                &&& old(self).spec_data() <= r < old(self).spec_data() + 4096
                &&& (r - old(self).spec_data()) % (size as int) == 0
                &&& 0 <= j < old(self).spec_bits().len()
                &&& !old(self).spec_bits()[j]
                &&& final(self).spec_bits() == old(self).spec_bits().update(j, true)
            }),
    {
        proof {
            lemma_first_zero_count(self.spec_bits());
        }
        let index = match bitmap_first_zero_from(&self.bitmap, 0) {
            Some(off) => off,
            None => vstd::pervasive::unreached(),
        };
        let ghost blocks = self.spec_bits().len() as int;
        bitmap_set(&mut self.bitmap, index, true);
        proof {
            lemma_count_zeros_update(old(self).spec_bits(), index as int, true);
            assert((index as int) * (size as int) + (size as int) <= 4096 && (index as int) * (
            size as int) % (size as int) == 0 && ((index as int) * (size as int)) / (size as int)
                == index as int) by (nonlinear_arith)
                requires
                    spec_valid_class(size as int),
                    0 <= (index as int) < blocks,
                    blocks * (size as int) == 4096,
            ;
        }
        self.data + (index as u64) * (size as u64)
    }

    /// Takes back the block holding `ptr` if this element owns it; the
    /// caller warrants that an owned block is currently handed out.
    pub fn try_deallocate(&mut self, ptr: u64, size: usize) -> (r: bool)
        requires
            old(self).wf(size as int),
            old(self).spec_data() <= ptr < old(self).spec_data() + 4096 ==> old(self).spec_bits()[(
            ptr - old(self).spec_data()) as int / (size as int)],
        ensures
            final(self).wf(size as int),
            final(self).spec_data() == old(self).spec_data(),
            r == (old(self).spec_data() <= ptr < old(self).spec_data() + 4096),
            r ==> final(self).spec_used() == old(self).spec_used() - 1 && final(self).spec_bits()
                == old(self).spec_bits().update((ptr - old(self).spec_data()) as int / (size as int), false),
            !r ==> *final(self) == *old(self),
    {
        if self.data <= ptr && ptr < self.data + 4096 {
            proof {
                assert(0 <= ((ptr - self.spec_data()) as int) / (size as int) < self.spec_bits().len())
                    by (nonlinear_arith)
                    requires
                        spec_valid_class(size as int),
                        self.spec_data() <= ptr < self.spec_data() + 4096,
                        self.spec_bits().len() * (size as int) == 4096,
                ;
            }
            let index = ((ptr - self.data) / (size as u64)) as usize;
            bitmap_set(&mut self.bitmap, index, false);
            proof {
                lemma_count_zeros_update(old(self).spec_bits(), index as int, false);
            }
            true
        } else {
            false
        }
    }

    /// Gives the data frame back to the physical allocator, consuming the
    /// element.
    pub fn release(self, phys: &mut PageFrameAllocator)
        requires
            old(phys).wf(),
            spec_owner_index(old(phys).spec_sras(), self.spec_data()) is Some,
            spec_frame_allocated(old(phys).spec_sras(), self.spec_data()),
            self.spec_data() % 4096 == 0,
        ensures
            final(phys).wf(),
            crate::phys::spec_free_rel(old(phys).spec_sras(), final(phys).spec_sras(), self.spec_data()),
            spec_total_size(final(phys).spec_sras()) == spec_total_size(old(phys).spec_sras()),
            spec_total_free(final(phys).spec_sras()) == spec_total_free(old(phys).spec_sras())
                + 4096,
    {
        phys.deallocate_frame(self.data)
    }
}

/// In a sequence with clear bits, the first clear bit exists; with none, a
/// scan finds nothing. Bridges `count_zeros` and the first-zero scan.
proof fn lemma_first_zero_count(s: Seq<bool>)
    ensures
        count_zeros(s) == 0 ==> forall|k: int| 0 <= k < s.len() ==> s[k],
        count_zeros(s) > 0 ==> exists|k: int| 0 <= k < s.len() && !s[k],
    decreases s.len(),
{
    if s.len() > 0 {
        lemma_first_zero_count(s.drop_last());
        lemma_count_zeros_le_len(s.drop_last());
        if count_zeros(s) == 0 {
            assert(count_zeros(s.drop_last()) == 0);
            assert(s.last());
            assert forall|k: int| 0 <= k < s.len() implies s[k] by {
                if k < s.len() - 1 {
                    assert(s.drop_last()[k]);
                } else {
                    assert(s[k] == s.last());
                }
            }
        }
        if count_zeros(s) > 0 {
            if !s.last() {
                assert(!s[s.len() - 1]);
            } else {
                let k = choose|k: int| 0 <= k < s.drop_last().len() && !s.drop_last()[k];
                assert(!s[k]);
            }
        }
    }
}

/// Blocks handed out over a sequence of elements.
pub open spec fn spec_els_used(els: Seq<SlabElement>) -> int
    decreases els.len(),
{
    if els.len() == 0 {
        0
    } else {
        spec_els_used(els.drop_last()) + els.last().spec_used()
    }
}

/// Every element is well-formed for the class.
pub open spec fn spec_els_wf(els: Seq<SlabElement>, size: int) -> bool {
    forall|j: int| 0 <= j < els.len() ==> (#[trigger] els[j]).wf(size)
}

/// Every element has no free block.
pub open spec fn spec_els_all_full(els: Seq<SlabElement>) -> bool {
    forall|j: int| 0 <= j < els.len() ==> count_zeros((#[trigger] els[j]).spec_bits()) == 0
}

/// Replacing one element changes the used count by that element's change.
proof fn lemma_els_used_update(els: Seq<SlabElement>, i: int, x: SlabElement)
    requires
        0 <= i < els.len(),
    ensures
        spec_els_used(els.update(i, x)) == spec_els_used(els) + x.spec_used() - els[i].spec_used(),
    decreases els.len(),
{
    let t = els.update(i, x);
    if i == els.len() - 1 {
        assert(t.drop_last() =~= els.drop_last());
    } else {
        assert(t.drop_last() =~= els.drop_last().update(i, x));
        lemma_els_used_update(els.drop_last(), i, x);
    }
}

/// Appending an element adds its used count.
proof fn lemma_els_used_push(els: Seq<SlabElement>, x: SlabElement)
    ensures
        spec_els_used(els.push(x)) == spec_els_used(els) + x.spec_used(),
{
    assert(els.push(x).drop_last() =~= els);
}

/// One frame of slab-element bookkeeping plus one data frame per element:
/// elements packed into a single frame beside the chain link and length.
#[derive(Debug)]
pub struct SlabElementSlab {
    frame: u64,
    elements: Vec<SlabElement>,
}

impl SlabElementSlab {
    /// The physical frame holding this group of elements.
    pub closed spec fn spec_frame(&self) -> u64 {
        self.frame
    }

    /// The elements of the group.
    pub closed spec fn spec_els(&self) -> Seq<SlabElement> {
        self.elements@
    }

    /// Well-formed for a class: an aligned own frame, at most a frame's
    /// worth of elements, each well-formed.
    pub open spec fn wf(&self, size: int) -> bool {
        &&& self.spec_frame() % 4096 == 0
        &&& spec_valid_class(size)
        &&& self.spec_els().len() <= SLAB_ELEMENTS_PER_FRAME
        &&& spec_els_wf(self.spec_els(), size)
    }

    /// Every frame this group holds is held in the physical allocator.
    pub open spec fn backed(&self, sras: Seq<crate::phys::SingleRegionPageFrameAllocator>) -> bool {
        &&& crate::phys::spec_frame_held(sras, self.spec_frame())
        &&& forall|j: int|
            0 <= j < self.spec_els().len() ==> crate::phys::spec_frame_held(
                sras,
                (#[trigger] self.spec_els()[j]).spec_data(),
            )
    }

    /// Builds an empty group over a freshly allocated frame of its own.
    pub fn new(phys: &mut PageFrameAllocator, size: usize) -> (r: Self)
        requires
            old(phys).wf(),
            spec_total_free(old(phys).spec_sras()) > 0,
            spec_valid_class(size as int),
        ensures
            final(phys).wf(),
            r.wf(size as int),
            r.spec_els().len() == 0,
            spec_alloc_rel(old(phys).spec_sras(), final(phys).spec_sras(), r.spec_frame()),
            r.backed(final(phys).spec_sras()),
            spec_total_size(final(phys).spec_sras()) == spec_total_size(old(phys).spec_sras()),
            spec_total_free(final(phys).spec_sras()) == spec_total_free(old(phys).spec_sras())
                - 4096,
    {
        let frame = match phys.allocate_frame() {
            Some(f) => f,
            None => {
                proof {
                    lemma_all_set_no_free(old(phys).spec_sras());
                }
                vstd::pervasive::unreached()
            },
        };
        proof {
            lemma_allocate_fresh(old(phys).spec_sras(), phys.spec_sras(), frame);
        }
        SlabElementSlab { frame, elements: Vec::new() }
    }
}


/// Whether some element of the sequence owns the pointer.
pub open spec fn spec_els_own(els: Seq<SlabElement>, ptr: u64) -> bool {
    exists|j: int|
        0 <= j < els.len() && (#[trigger] els[j]).spec_data() <= ptr < els[j].spec_data() + 4096
}

/// Whether some element owns the pointer and holds its block handed out:
/// the block's bit is set in that element's map.
pub open spec fn spec_els_block_allocated(els: Seq<SlabElement>, ptr: u64, size: int) -> bool {
    exists|j: int|
        0 <= j < els.len() && (#[trigger] els[j]).spec_data() <= ptr < els[j].spec_data() + 4096
            && els[j].spec_bits()[(ptr - els[j].spec_data()) as int / size]
}

/// No two frames held by the group coincide.
pub open spec fn spec_ses_distinct(ses: &SlabElementSlab) -> bool {
    &&& forall|a: int, b: int|
        0 <= a < b < ses.spec_els().len() ==> (#[trigger] ses.spec_els()[a]).spec_data() != (
        #[trigger] ses.spec_els()[b]).spec_data()
    &&& forall|j: int|
        0 <= j < ses.spec_els().len() ==> (#[trigger] ses.spec_els()[j]).spec_data()
            != ses.spec_frame()
}

/// The used sum of well-formed elements is never negative.
proof fn lemma_els_used_nonneg(els: Seq<SlabElement>, size: int)
    requires
        spec_els_wf(els, size),
    ensures
        spec_els_used(els) >= 0,
    decreases els.len(),
{
    if els.len() > 0 {
        assert(spec_els_wf(els.drop_last(), size));
        lemma_els_used_nonneg(els.drop_last(), size);
        lemma_count_zeros_le_len(els.last().spec_bits());
    }
}

/// The used sum is at least any single element's used count.
proof fn lemma_els_used_at_least(els: Seq<SlabElement>, j: int, size: int)
    requires
        spec_els_wf(els, size),
        0 <= j < els.len(),
    ensures
        spec_els_used(els) >= els[j].spec_used(),
    decreases els.len(),
{
    assert(spec_els_wf(els.drop_last(), size));
    if j == els.len() - 1 {
        lemma_els_used_nonneg(els.drop_last(), size);
    } else {
        lemma_els_used_at_least(els.drop_last(), j, size);
        lemma_count_zeros_le_len(els.last().spec_bits());
        assert(els.drop_last()[j] == els[j]);
    }
}

/// A used sum is zero exactly when every element is entirely free.
proof fn lemma_els_used_zero(els: Seq<SlabElement>)
    ensures
        spec_els_used(els) >= 0,
        (spec_els_used(els) == 0) <==> (forall|j: int|
            0 <= j < els.len() ==> count_zeros((#[trigger] els[j]).spec_bits())
                == els[j].spec_bits().len()),
    decreases els.len(),
{
    if els.len() > 0 {
        lemma_els_used_zero(els.drop_last());
        lemma_count_zeros_le_len(els.last().spec_bits());
        if spec_els_used(els) == 0 {
            assert forall|j: int|
                0 <= j < els.len() implies count_zeros((#[trigger] els[j]).spec_bits())
                == els[j].spec_bits().len() by {
                if j < els.len() - 1 {
                    assert(els.drop_last()[j] == els[j]);
                }
            }
        }
        if forall|j: int|
            0 <= j < els.len() ==> count_zeros((#[trigger] els[j]).spec_bits())
                == els[j].spec_bits().len() {
            assert forall|j: int|
                0 <= j < els.drop_last().len() implies count_zeros(
                (#[trigger] els.drop_last()[j]).spec_bits(),
            ) == els.drop_last()[j].spec_bits().len() by {
                assert(els.drop_last()[j] == els[j]);
            }
        }
    }
}

impl SlabElementSlab {
    /// Hands out one block: the first element with room serves it; when all
    /// elements are full and the group has room, a new element over a fresh
    /// data frame is appended and serves it; a group at capacity with all
    /// elements full declines.
    #[verifier::loop_isolation(false)]
    pub fn allocate(&mut self, phys: &mut PageFrameAllocator, size: usize) -> (r: Option<u64>)
        requires
            old(self).wf(size as int),
            old(phys).wf(),
            old(self).backed(old(phys).spec_sras()),
            spec_ses_distinct(old(self)),
            spec_els_all_full(old(self).spec_els()) && old(self).spec_els().len()
                < SLAB_ELEMENTS_PER_FRAME ==> spec_total_free(old(phys).spec_sras()) > 0,
        ensures
            final(phys).wf(),
            final(self).wf(size as int),
            final(self).spec_frame() == old(self).spec_frame(),
            final(self).backed(final(phys).spec_sras()),
            spec_total_size(final(phys).spec_sras()) == spec_total_size(old(phys).spec_sras()),
            !spec_els_all_full(old(self).spec_els()) ==> r is Some && final(phys).spec_sras()
                == old(phys).spec_sras() && final(self).spec_els().len()
                == old(self).spec_els().len() && (forall|j: int|
                0 <= j < old(self).spec_els().len() ==> (#[trigger] final(self).spec_els()[j]).spec_data() == old(self).spec_els()[j].spec_data()),
            spec_els_all_full(old(self).spec_els()) && old(self).spec_els().len()
                < SLAB_ELEMENTS_PER_FRAME ==> r is Some && final(self).spec_els().len() == old(self).spec_els().len() + 1 && (forall|j: int|
                0 <= j < old(self).spec_els().len() ==> #[trigger] final(self).spec_els()[j] == old(self).spec_els()[j]) && spec_alloc_rel(
                old(phys).spec_sras(),
                final(phys).spec_sras(),
                final(self).spec_els().last().spec_data(),
            ) && spec_total_free(final(phys).spec_sras()) == spec_total_free(
                old(phys).spec_sras(),
            ) - 4096,
            spec_els_all_full(old(self).spec_els()) && old(self).spec_els().len()
                == SLAB_ELEMENTS_PER_FRAME ==> r is None && *final(self) == *old(self) && final(phys).spec_sras() == old(phys).spec_sras(),
            match r {
                Some(ptr) => {
                    &&& spec_els_used(final(self).spec_els()) == spec_els_used(
                        old(self).spec_els(),
                    ) + 1
                    &&& spec_els_own(final(self).spec_els(), ptr)
                    &&& spec_els_block_allocated(final(self).spec_els(), ptr, size as int)
                    &&& !spec_els_block_allocated(old(self).spec_els(), ptr, size as int)
                    &&& spec_els_all_full(old(self).spec_els()) ==> !spec_els_own(
                        old(self).spec_els(),
                        ptr,
                    )
                },
                None => spec_els_used(final(self).spec_els()) == spec_els_used(
                    old(self).spec_els(),
                ),
            },
    {
        let n = self.elements.len();
        let mut j: usize = 0;
        while j < n
            invariant
                n == self.spec_els().len(),
                j <= n,
                *self == *old(self),
                self.wf(size as int),
                forall|h: int|
                    0 <= h < j ==> count_zeros((#[trigger] self.spec_els()[h]).spec_bits()) == 0,
            decreases n - j,
        {
            let is_full = self.elements[j].full(size);
            if !is_full {
                let ghost pre_els = self.spec_els();
                proof {
                    lemma_count_zeros_le_len(pre_els[j as int].spec_bits());
                }
                let el = &mut self.elements[j];
                let ptr = el.allocate(size);
                proof {
                    lemma_els_used_update(pre_els, j as int, self.spec_els()[j as int]);
                    assert(self.spec_els() =~= pre_els.update(j as int, self.spec_els()[j as int]));
                    assert(spec_els_wf(self.spec_els(), size as int));
                    assert((#[trigger] self.spec_els()[j as int]).spec_data() <= ptr < self.spec_els()[j as int].spec_data() + 4096);
                    assert(self.spec_els()[j as int].spec_bits()[(ptr - self.spec_els()[j as int].spec_data()) as int
                        / (size as int)]);
                    assert(!pre_els[j as int].spec_bits()[(ptr - pre_els[j as int].spec_data()) as int
                        / (size as int)]);
                    if spec_els_block_allocated(pre_els, ptr, size as int) {
                        let w = choose|w: int|
                            0 <= w < pre_els.len() && (#[trigger] pre_els[w]).spec_data() <= ptr
                                < pre_els[w].spec_data() + 4096 && pre_els[w].spec_bits()[(ptr
                                - pre_els[w].spec_data()) as int / (size as int)];
                        if w != j as int {
                            lemma_aligned_frames_disjoint(
                                pre_els[j as int].spec_data(),
                                pre_els[w].spec_data(),
                                ptr,
                            );
                        }
                        assert(false);
                    }
                }
                return Some(ptr);
            }
            j = j + 1;
        }
        if self.elements.len() < SLAB_ELEMENTS_PER_FRAME {
            let ghost pre_phys = phys.spec_sras();
            let mut el = SlabElement::new(phys, size);
            let ghost eldata = el.spec_data();
            proof {
                lemma_allocate_fresh(pre_phys, phys.spec_sras(), el.spec_data());
                assert forall|h: int| 0 <= h < self.spec_els().len() implies crate::phys::spec_frame_held(
                    phys.spec_sras(),
                    (#[trigger] self.spec_els()[h]).spec_data(),
                ) by {
                    crate::phys::lemma_alloc_preserves_held(
                        pre_phys,
                        phys.spec_sras(),
                        eldata,
                        self.spec_els()[h].spec_data(),
                    );
                }
                crate::phys::lemma_alloc_preserves_held(
                    pre_phys,
                    phys.spec_sras(),
                    eldata,
                    self.spec_frame(),
                );
                assert(el.spec_bits().len() * (size as int) == 4096);
                assert(el.spec_bits().len() > 0) by (nonlinear_arith)
                    requires
                        el.spec_bits().len() * (size as int) == 4096,
                        size as int > 0,
                ;
                lemma_count_zeros_le_len(el.spec_bits());
            }
            let ptr = el.allocate(size);
            let ghost pre_els = self.spec_els();
            self.elements.push(el);
            proof {
                lemma_els_used_push(pre_els, self.spec_els().last());
                assert(spec_els_wf(self.spec_els(), size as int));
                assert((#[trigger] self.spec_els()[pre_els.len() as int]).spec_data() <= ptr
                    < self.spec_els()[pre_els.len() as int].spec_data() + 4096);
                assert(self.spec_els()[pre_els.len() as int].spec_bits()[(ptr
                    - self.spec_els()[pre_els.len() as int].spec_data()) as int / (size as int)]);
                assert forall|w: int|
                    0 <= w < pre_els.len() implies !((#[trigger] pre_els[w]).spec_data() <= ptr
                    < pre_els[w].spec_data() + 4096) by {
                    crate::phys::lemma_alloc_preserves_held(
                        pre_phys,
                        phys.spec_sras(),
                        eldata,
                        pre_els[w].spec_data(),
                    );
                    lemma_aligned_frames_disjoint(eldata, pre_els[w].spec_data(), ptr);
                }
            }
            Some(ptr)
        } else {
            None
        }
    }

    /// Takes back the block holding `ptr` if one of the group's elements
    /// owns it; the caller warrants that an owned block is handed out.
    #[verifier::loop_isolation(false)]
    pub fn try_deallocate(&mut self, ptr: u64, size: usize) -> (r: bool)
        requires
            old(self).wf(size as int),
            spec_ses_distinct(old(self)),
            forall|j: int|
                0 <= j < old(self).spec_els().len() && (#[trigger] old(self).spec_els()[j]).spec_data() <= ptr < old(self).spec_els()[j].spec_data() + 4096
                    ==> old(self).spec_els()[j].spec_bits()[(ptr - old(self).spec_els()[j].spec_data()) as int / (size as int)],
        ensures
            final(self).wf(size as int),
            final(self).spec_frame() == old(self).spec_frame(),
            final(self).spec_els().len() == old(self).spec_els().len(),
            forall|j: int|
                0 <= j < old(self).spec_els().len() ==> (#[trigger] final(self).spec_els()[j]).spec_data() == old(self).spec_els()[j].spec_data(),
            r == spec_els_own(old(self).spec_els(), ptr),
            r ==> spec_els_used(final(self).spec_els()) == spec_els_used(old(self).spec_els()) - 1,
            r ==> !spec_els_block_allocated(final(self).spec_els(), ptr, size as int),
            !r ==> *final(self) == *old(self),
    {
        let n = self.elements.len();
        let mut j: usize = 0;
        while j < n
            invariant
                n == self.spec_els().len(),
                j <= n,
                *self == *old(self),
                self.wf(size as int),
                forall|h: int|
                    0 <= h < j ==> !((#[trigger] self.spec_els()[h]).spec_data() <= ptr
                        < self.spec_els()[h].spec_data() + 4096),
            decreases n - j,
        {
            let owned = self.elements[j].owns(ptr);
            if owned {
                let ghost pre_els = self.spec_els();
                proof {
                    assert(old(self).spec_els()[j as int].spec_data() <= ptr < old(
                        self,
                    ).spec_els()[j as int].spec_data() + 4096);
                    assert(old(self).spec_els()[j as int].spec_bits()[(ptr - old(
                        self,
                    ).spec_els()[j as int].spec_data()) as int / (size as int)]);
                }
                let el = &mut self.elements[j];
                let freed = el.try_deallocate(ptr, size);
                proof {
                    assert(freed);
                    lemma_els_used_update(pre_els, j as int, self.spec_els()[j as int]);
                    assert(self.spec_els() =~= pre_els.update(j as int, self.spec_els()[j as int]));
                    assert(spec_els_wf(self.spec_els(), size as int));
                    assert((#[trigger] pre_els[j as int]).spec_data() <= ptr < pre_els[j as int].spec_data()
                        + 4096);
                    if spec_els_block_allocated(self.spec_els(), ptr, size as int) {
                        let w = choose|w: int|
                            0 <= w < self.spec_els().len() && (#[trigger] self.spec_els()[w]).spec_data()
                                <= ptr < self.spec_els()[w].spec_data() + 4096
                                && self.spec_els()[w].spec_bits()[(ptr
                                - self.spec_els()[w].spec_data()) as int / (size as int)];
                        if w != j as int {
                            lemma_aligned_frames_disjoint(
                                pre_els[j as int].spec_data(),
                                self.spec_els()[w].spec_data(),
                                ptr,
                            );
                        }
                        assert(false);
                    }
                }
                return true;
            }
            j = j + 1;
        }
        proof {
            if spec_els_own(self.spec_els(), ptr) {
                let w = choose|w: int|
                    0 <= w < self.spec_els().len() && (#[trigger] self.spec_els()[w]).spec_data()
                        <= ptr < self.spec_els()[w].spec_data() + 4096;
                assert(false);
            }
        }
        false
    }

    /// Whether every block of every element is free.
    #[verifier::loop_isolation(false)]
    pub fn all_empty(&self, size: usize) -> (r: bool)
        requires
            self.wf(size as int),
        ensures
            r == (spec_els_used(self.spec_els()) == 0),
    {
        proof {
            lemma_els_used_zero(self.spec_els());
        }
        let n = self.elements.len();
        let mut j: usize = 0;
        while j < n
            invariant
                n == self.spec_els().len(),
                self.wf(size as int),
                j <= n,
                forall|h: int|
                    0 <= h < j ==> count_zeros((#[trigger] self.spec_els()[h]).spec_bits()) == (
                    self.spec_els()[h]).spec_bits().len(),
            decreases n - j,
        {
            let is_empty = self.elements[j].empty(size);
            if !is_empty {
                proof {
                    lemma_els_used_at_least(self.spec_els(), j as int, size as int);
                    lemma_count_zeros_le_len(self.spec_els()[j as int].spec_bits());
                }
                return false;
            }
            j = j + 1;
        }
        true
    }

    /// Gives every frame of the group back to the physical allocator:
    /// each element's data frame and then the group's own frame.
    #[verifier::loop_isolation(false)]
    pub fn release_all(self, phys: &mut PageFrameAllocator, size: usize)
        requires
            self.wf(size as int),
            old(phys).wf(),
            self.backed(old(phys).spec_sras()),
            spec_ses_distinct(&self),
        ensures
            final(phys).wf(),
            spec_total_size(final(phys).spec_sras()) == spec_total_size(old(phys).spec_sras()),
            spec_total_free(final(phys).spec_sras()) == spec_total_free(old(phys).spec_sras())
                + 4096 * (1 + self.spec_els().len()),
            forall|f: u64|
                crate::phys::spec_frame_held(old(phys).spec_sras(), f) && f != self.spec_frame()
                    && (forall|j: int|
                    0 <= j < self.spec_els().len() ==> f != (#[trigger] self.spec_els()[j]).spec_data())
                    ==> #[trigger] crate::phys::spec_frame_held(final(phys).spec_sras(), f),
    {
        let ghost all = self.spec_els();
        let mut this = self;
        while this.elements.len() > 0
            invariant
                phys.wf(),
                this.spec_frame() == self.spec_frame(),
                this.spec_els().len() <= all.len(),
                this.spec_els() =~= all.subrange(0, this.spec_els().len() as int),
                spec_els_wf(this.spec_els(), size as int),
                this.backed(phys.spec_sras()),
                spec_ses_distinct(&this),
                spec_total_size(phys.spec_sras()) == spec_total_size(old(phys).spec_sras()),
                spec_total_free(phys.spec_sras()) == spec_total_free(old(phys).spec_sras()) + 4096
                    * (all.len() - this.spec_els().len()),
                forall|f: u64|
                    crate::phys::spec_frame_held(old(phys).spec_sras(), f) && f
                        != self.spec_frame() && (forall|j: int|
                        0 <= j < all.len() ==> f != (#[trigger] all[j]).spec_data())
                        ==> #[trigger] crate::phys::spec_frame_held(phys.spec_sras(), f),
            decreases this.spec_els().len(),
        {
            let ghost pre_phys = phys.spec_sras();
            let ghost pre_els = this.spec_els();
            match this.elements.pop() {
                Some(el) => {
                    proof {
                        assert(pre_els[pre_els.len() - 1] == el);
                        assert(crate::phys::spec_frame_held(pre_phys, el.spec_data()));
                    }
                    let ghost eldata = el.spec_data();
                    el.release(phys);
                    proof {
                        assert forall|f: u64|
                            crate::phys::spec_frame_held(pre_phys, f) && f
                                != eldata implies #[trigger] crate::phys::spec_frame_held(
                            phys.spec_sras(),
                            f,
                        ) by {
                            crate::phys::lemma_free_preserves_held(
                                pre_phys,
                                phys.spec_sras(),
                                eldata,
                                f,
                            );
                        }
                        assert(this.spec_els() =~= all.subrange(0, this.spec_els().len() as int));
                    }
                },
                None => {
                    proof {
                        assert(false);
                    }
                },
            }
        }
        let ghost pre_phys = phys.spec_sras();
        let ghost own = this.frame;
        phys.deallocate_frame(this.frame);
        proof {
            assert forall|f: u64|
                crate::phys::spec_frame_held(pre_phys, f) && f
                    != own implies #[trigger] crate::phys::spec_frame_held(
                phys.spec_sras(),
                f,
            ) by {
                crate::phys::lemma_free_preserves_held(pre_phys, phys.spec_sras(), own, f);
            }
        }
    }
}

impl SlabElement {
    /// Whether this element's data frame holds the pointer.
    pub fn owns(&self, ptr: u64) -> (r: bool)
        requires
            self.spec_data() + 4096 <= u64::MAX,
        ensures
            r == (self.spec_data() <= ptr < self.spec_data() + 4096),
    {
        self.data <= ptr && ptr < self.data + 4096
    }
}


/// Blocks handed out over a sequence of element groups.
pub open spec fn spec_slabs_used(sls: Seq<SlabElementSlab>) -> int
    decreases sls.len(),
{
    if sls.len() == 0 {
        0
    } else {
        spec_slabs_used(sls.drop_last()) + spec_els_used(sls.last().spec_els())
    }
}

/// Frames held by a sequence of element groups: one per group plus one per
/// element.
pub open spec fn spec_slabs_frames(sls: Seq<SlabElementSlab>) -> int
    decreases sls.len(),
{
    if sls.len() == 0 {
        0
    } else {
        spec_slabs_frames(sls.drop_last()) + 1 + sls.last().spec_els().len()
    }
}

/// Elements over a sequence of element groups.
pub open spec fn spec_slabs_elements(sls: Seq<SlabElementSlab>) -> int
    decreases sls.len(),
{
    if sls.len() == 0 {
        0
    } else {
        spec_slabs_elements(sls.drop_last()) + sls.last().spec_els().len()
    }
}

/// Every group is well-formed for the class.
pub open spec fn spec_slabs_wf(sls: Seq<SlabElementSlab>, size: int) -> bool {
    forall|i: int| 0 <= i < sls.len() ==> (#[trigger] sls[i]).wf(size)
}

/// Every frame of every group is held in the physical allocator.
pub open spec fn spec_slabs_backed(
    sls: Seq<SlabElementSlab>,
    sras: Seq<crate::phys::SingleRegionPageFrameAllocator>,
) -> bool {
    forall|i: int| 0 <= i < sls.len() ==> (#[trigger] sls[i]).backed(sras)
}

/// Whether some element of some group owns the pointer.
pub open spec fn spec_slabs_own(sls: Seq<SlabElementSlab>, ptr: u64) -> bool {
    exists|i: int| 0 <= i < sls.len() && spec_els_own((#[trigger] sls[i]).spec_els(), ptr)
}

/// Whether some group's element owns the pointer with its block handed out.
pub open spec fn spec_slabs_block_allocated(sls: Seq<SlabElementSlab>, ptr: u64, size: int) -> bool {
    exists|i: int|
        0 <= i < sls.len() && spec_els_block_allocated((#[trigger] sls[i]).spec_els(), ptr, size)
}

/// Whether some group can still take an element.
pub open spec fn spec_slab_has_room(sls: Seq<SlabElementSlab>) -> bool {
    exists|i: int| 0 <= i < sls.len() && (#[trigger] sls[i]).spec_els().len() < SLAB_ELEMENTS_PER_FRAME
}

/// Every block of every group is handed out.
pub open spec fn spec_slabs_all_full(sls: Seq<SlabElementSlab>) -> bool {
    forall|i: int| 0 <= i < sls.len() ==> spec_els_all_full((#[trigger] sls[i]).spec_els())
}

/// No two frames anywhere in the sequence of groups coincide.
pub open spec fn spec_slabs_distinct(sls: Seq<SlabElementSlab>) -> bool {
    &&& forall|a: int| 0 <= a < sls.len() ==> spec_ses_distinct(&(#[trigger] sls[a]))
    &&& forall|a: int, b: int|
        0 <= a < sls.len() && 0 <= b < sls.len() && a != b ==> (#[trigger] sls[a]).spec_frame() != (
        #[trigger] sls[b]).spec_frame()
    &&& forall|a: int, b: int, j: int|
        0 <= a < sls.len() && 0 <= b < sls.len() && a != b && 0 <= j < sls[b].spec_els().len() ==> (
        #[trigger] sls[a]).spec_frame() != (#[trigger] sls[b].spec_els()[j]).spec_data()
    &&& forall|a: int, b: int, j1: int, j2: int|
        0 <= a < sls.len() && 0 <= b < sls.len() && a != b && 0 <= j1 < sls[a].spec_els().len() && 0
            <= j2 < sls[b].spec_els().len() ==> (#[trigger] sls[a].spec_els()[j1]).spec_data() != (
        #[trigger] sls[b].spec_els()[j2]).spec_data()
}

/// Replacing one group changes each sum by that group's change.
proof fn lemma_slabs_sums_update(sls: Seq<SlabElementSlab>, i: int, x: SlabElementSlab)
    requires
        0 <= i < sls.len(),
    ensures
        spec_slabs_used(sls.update(i, x)) == spec_slabs_used(sls) + spec_els_used(x.spec_els())
            - spec_els_used(sls[i].spec_els()),
        spec_slabs_frames(sls.update(i, x)) == spec_slabs_frames(sls) + x.spec_els().len()
            - sls[i].spec_els().len(),
        spec_slabs_elements(sls.update(i, x)) == spec_slabs_elements(sls) + x.spec_els().len()
            - sls[i].spec_els().len(),
    decreases sls.len(),
{
    let t = sls.update(i, x);
    if i == sls.len() - 1 {
        assert(t.drop_last() =~= sls.drop_last());
    } else {
        assert(t.drop_last() =~= sls.drop_last().update(i, x));
        lemma_slabs_sums_update(sls.drop_last(), i, x);
    }
}

/// Appending a group adds its own sums.
proof fn lemma_slabs_sums_push(sls: Seq<SlabElementSlab>, x: SlabElementSlab)
    ensures
        spec_slabs_used(sls.push(x)) == spec_slabs_used(sls) + spec_els_used(x.spec_els()),
        spec_slabs_frames(sls.push(x)) == spec_slabs_frames(sls) + 1 + x.spec_els().len(),
        spec_slabs_elements(sls.push(x)) == spec_slabs_elements(sls) + x.spec_els().len(),
{
    assert(sls.push(x).drop_last() =~= sls);
}

/// Removing one group subtracts its sums.
proof fn lemma_slabs_sums_remove(sls: Seq<SlabElementSlab>, i: int)
    requires
        0 <= i < sls.len(),
    ensures
        spec_slabs_used(sls.remove(i)) == spec_slabs_used(sls) - spec_els_used(
            sls[i].spec_els(),
        ),
        spec_slabs_frames(sls.remove(i)) == spec_slabs_frames(sls) - 1 - sls[i].spec_els().len(),
        spec_slabs_elements(sls.remove(i)) == spec_slabs_elements(sls) - sls[i].spec_els().len(),
    decreases sls.len(),
{
    let t = sls.remove(i);
    if i == sls.len() - 1 {
        assert(t =~= sls.drop_last());
    } else {
        assert(t.drop_last() =~= sls.drop_last().remove(i));
        lemma_slabs_sums_remove(sls.drop_last(), i);
        assert(t.last() == sls.last());
    }
}

/// One slab: a chain of element groups serving one power-of-two class.
#[derive(Debug)]
pub struct Slab {
    size: usize,
    slabs: Vec<SlabElementSlab>,
}

impl Slab {
    /// The block size served by this slab.
    pub closed spec fn spec_size(&self) -> usize {
        self.size
    }

    /// The element groups, in walk order.
    pub closed spec fn spec_slabs(&self) -> Seq<SlabElementSlab> {
        self.slabs@
    }

    /// Well-formed: a valid class, well-formed groups, room only in the
    /// last group — a new group is only ever begun once every earlier one is
    /// at capacity — and no group retained empty: a group whose last block
    /// comes back is dissolved at once, its frames returned.
    pub open spec fn wf(&self) -> bool {
        &&& spec_valid_class(self.spec_size() as int)
        &&& spec_slabs_wf(self.spec_slabs(), self.spec_size() as int)
        &&& forall|i: int|
            0 <= i < self.spec_slabs().len() - 1 ==> (#[trigger] self.spec_slabs()[i]).spec_els().len()
                == SLAB_ELEMENTS_PER_FRAME
        &&& forall|i: int|
            0 <= i < self.spec_slabs().len() ==> spec_els_used(
                (#[trigger] self.spec_slabs()[i]).spec_els(),
            ) > 0
    }

    /// Builds an empty slab of one class.
    pub fn new(size: usize) -> (r: Self)
        requires
            spec_valid_class(size as int),
        ensures
            r.wf(),
            r.spec_size() == size,
            r.spec_slabs().len() == 0,
    {
        Slab { size, slabs: Vec::new() }
    }
}


impl Slab {
    /// Hands out one block of the slab's class: the first group with room
    /// serves it, and when every group is at capacity with every block
    /// handed out, a fresh group is appended. Grows by at most two frames,
    /// and by exactly one element when the slab was entirely full.
    #[verifier::loop_isolation(false)]
    #[verifier::rlimit(60)]
    pub fn allocate(&mut self, phys: &mut PageFrameAllocator) -> (r: u64)
        requires
            old(self).wf(),
            old(phys).wf(),
            spec_slabs_backed(old(self).spec_slabs(), old(phys).spec_sras()),
            spec_slabs_distinct(old(self).spec_slabs()),
            spec_slabs_all_full(old(self).spec_slabs()) && spec_slab_has_room(
                old(self).spec_slabs(),
            ) ==> spec_total_free(old(phys).spec_sras()) >= 4096,
            spec_slabs_all_full(old(self).spec_slabs()) && !spec_slab_has_room(
                old(self).spec_slabs(),
            ) ==> spec_total_free(old(phys).spec_sras()) >= 2 * 4096,
        ensures
            final(self).wf(),
            final(phys).wf(),
            final(self).spec_size() == old(self).spec_size(),
            spec_slabs_backed(final(self).spec_slabs(), final(phys).spec_sras()),
            spec_slabs_distinct(final(self).spec_slabs()),
            spec_total_size(final(phys).spec_sras()) == spec_total_size(old(phys).spec_sras()),
            spec_slabs_used(final(self).spec_slabs()) == spec_slabs_used(old(self).spec_slabs())
                + 1,
            0 <= spec_slabs_frames(final(self).spec_slabs()) - spec_slabs_frames(
                old(self).spec_slabs(),
            ) <= 2,
            spec_total_free(final(phys).spec_sras()) == spec_total_free(old(phys).spec_sras())
                - 4096 * (spec_slabs_frames(final(self).spec_slabs()) - spec_slabs_frames(
                old(self).spec_slabs(),
            )),
            spec_slabs_all_full(old(self).spec_slabs()) ==> spec_slabs_elements(
                final(self).spec_slabs(),
            ) == spec_slabs_elements(old(self).spec_slabs()) + 1,
            spec_slabs_own(final(self).spec_slabs(), r),
            spec_slabs_block_allocated(
                final(self).spec_slabs(),
                r,
                old(self).spec_size() as int,
            ),
            !spec_slabs_block_allocated(
                old(self).spec_slabs(),
                r,
                old(self).spec_size() as int,
            ),
            spec_slabs_all_full(old(self).spec_slabs()) ==> !spec_slabs_own(
                old(self).spec_slabs(),
                r,
            ),
            !spec_slabs_all_full(old(self).spec_slabs()) ==> final(phys).spec_sras() == old(
                phys,
            ).spec_sras() && spec_slabs_frames(final(self).spec_slabs()) == spec_slabs_frames(
                old(self).spec_slabs(),
            ),
    {
        let size = self.size;
        let n = self.slabs.len();
        let mut i: usize = 0;
        while i < n
            invariant
                n == self.spec_slabs().len(),
                i <= n,
                self.spec_slabs() == old(self).spec_slabs(),
                self.size == old(self).spec_size(),
                phys.spec_sras() == old(phys).spec_sras(),
                forall|h: int|
                    0 <= h < i ==> spec_els_all_full(
                        (#[trigger] self.spec_slabs()[h]).spec_els(),
                    ) && self.spec_slabs()[h].spec_els().len() == SLAB_ELEMENTS_PER_FRAME,
            decreases n - i,
        {
            let ghost pre_slabs = self.spec_slabs();
            let ghost pre_phys = phys.spec_sras();
            let ses = &mut self.slabs[i];
            let got = ses.allocate(phys, size);
            match got {
                Some(ptr) => {
                    proof {
                        let post_ses = self.spec_slabs()[i as int];
                        let pre_ses = pre_slabs[i as int];
                        assert(self.spec_slabs() =~= pre_slabs.update(i as int, post_ses));
                        lemma_slabs_sums_update(pre_slabs, i as int, post_ses);
                        if !spec_els_all_full(pre_ses.spec_els()) {
                            assert forall|a: int|
                                0 <= a < self.spec_slabs().len() implies (
                            #[trigger] self.spec_slabs()[a]).backed(phys.spec_sras()) by {
                                if a != i as int {
                                    assert(self.spec_slabs()[a] == pre_slabs[a]);
                                }
                            }
                            assert(spec_slabs_distinct(self.spec_slabs())) by {
                                lemma_slabs_distinct_datas_same(
                                    pre_slabs,
                                    self.spec_slabs(),
                                    i as int,
                                );
                            }
                        } else {
                            let d = post_ses.spec_els().last().spec_data();
                            lemma_allocate_fresh(pre_phys, phys.spec_sras(), d);
                            assert forall|a: int|
                                0 <= a < self.spec_slabs().len() implies (
                            #[trigger] self.spec_slabs()[a]).backed(phys.spec_sras()) by {
                                if a != i as int {
                                    assert(self.spec_slabs()[a] == pre_slabs[a]);
                                    lemma_ses_backed_after_alloc(
                                        pre_slabs[a],
                                        pre_phys,
                                        phys.spec_sras(),
                                        d,
                                    );
                                }
                            }
                            assert(spec_slabs_distinct(self.spec_slabs())) by {
                                lemma_slabs_distinct_after_grow(
                                    pre_slabs,
                                    self.spec_slabs(),
                                    i as int,
                                    pre_phys,
                                    phys.spec_sras(),
                                    d,
                                );
                            }
                        }
                        assert(spec_els_own(self.spec_slabs()[i as int].spec_els(), ptr));
                        assert(spec_slabs_own(self.spec_slabs(), ptr));
                        assert(spec_els_block_allocated(
                            self.spec_slabs()[i as int].spec_els(),
                            ptr,
                            size as int,
                        ));
                        assert(spec_slabs_block_allocated(self.spec_slabs(), ptr, size as int));
                        if !spec_els_all_full(pre_ses.spec_els()) {
                            let w = choose|w: int|
                                0 <= w < post_ses.spec_els().len() && (
                                #[trigger] post_ses.spec_els()[w]).spec_data() <= ptr
                                    < post_ses.spec_els()[w].spec_data() + 4096;
                            assert(pre_ses.spec_els()[w].spec_data()
                                == post_ses.spec_els()[w].spec_data());
                            assert(spec_els_own(pre_ses.spec_els(), ptr));
                            lemma_slab_ptr_one_group(pre_slabs, ptr, size as int, i as int);
                            if spec_slabs_block_allocated(pre_slabs, ptr, size as int) {
                                let a = choose|a: int|
                                    0 <= a < pre_slabs.len() && spec_els_block_allocated(
                                        (#[trigger] pre_slabs[a]).spec_els(),
                                        ptr,
                                        size as int,
                                    );
                                if a != i as int {
                                    let b = choose|b: int|
                                        0 <= b < pre_slabs[a].spec_els().len() && (
                                        #[trigger] pre_slabs[a].spec_els()[b]).spec_data() <= ptr
                                            < pre_slabs[a].spec_els()[b].spec_data() + 4096
                                            && pre_slabs[a].spec_els()[b].spec_bits()[(ptr
                                            - pre_slabs[a].spec_els()[b].spec_data()) as int / (
                                        size as int)];
                                    assert(spec_els_own(pre_slabs[a].spec_els(), ptr));
                                }
                                assert(false);
                            }
                        } else {
                            if (i as int) < pre_slabs.len() - 1 {
                                assert(pre_slabs[i as int].spec_els().len()
                                    == SLAB_ELEMENTS_PER_FRAME);
                                assert(false);
                            }
                            assert forall|h: int|
                                0 <= h < pre_slabs.len() implies spec_els_all_full(
                                (#[trigger] pre_slabs[h]).spec_els(),
                            ) by {
                                if h < i as int {
                                    assert(spec_els_all_full(pre_slabs[h].spec_els()));
                                }
                            }
                            assert(spec_slabs_all_full(pre_slabs));
                            let d = post_ses.spec_els().last().spec_data();
                            let w = choose|w: int|
                                0 <= w < post_ses.spec_els().len() && (
                                #[trigger] post_ses.spec_els()[w]).spec_data() <= ptr
                                    < post_ses.spec_els()[w].spec_data() + 4096;
                            if w < pre_ses.spec_els().len() as int {
                                assert(post_ses.spec_els()[w] == pre_ses.spec_els()[w]);
                                assert(spec_els_own(pre_ses.spec_els(), ptr));
                                assert(false);
                            }
                            assert(d <= ptr < d + 4096);
                            assert forall|a: int, b: int|
                                0 <= a < pre_slabs.len() && 0 <= b
                                    < pre_slabs[a].spec_els().len() implies !((
                            #[trigger] pre_slabs[a].spec_els()[b]).spec_data() <= ptr
                                < pre_slabs[a].spec_els()[b].spec_data() + 4096) by {
                                assert(pre_slabs[a].backed(pre_phys));
                                crate::phys::lemma_alloc_preserves_held(
                                    pre_phys,
                                    phys.spec_sras(),
                                    d,
                                    pre_slabs[a].spec_els()[b].spec_data(),
                                );
                                lemma_aligned_frames_disjoint(
                                    d,
                                    pre_slabs[a].spec_els()[b].spec_data(),
                                    ptr,
                                );
                            }
                            if spec_slabs_own(pre_slabs, ptr) {
                                let a = choose|a: int|
                                    0 <= a < pre_slabs.len() && spec_els_own(
                                        (#[trigger] pre_slabs[a]).spec_els(),
                                        ptr,
                                    );
                                let b = choose|b: int|
                                    0 <= b < pre_slabs[a].spec_els().len() && (
                                    #[trigger] pre_slabs[a].spec_els()[b]).spec_data() <= ptr
                                        < pre_slabs[a].spec_els()[b].spec_data() + 4096;
                                assert(false);
                            }
                            if spec_slabs_block_allocated(pre_slabs, ptr, size as int) {
                                let a = choose|a: int|
                                    0 <= a < pre_slabs.len() && spec_els_block_allocated(
                                        (#[trigger] pre_slabs[a]).spec_els(),
                                        ptr,
                                        size as int,
                                    );
                                let b = choose|b: int|
                                    0 <= b < pre_slabs[a].spec_els().len() && (
                                    #[trigger] pre_slabs[a].spec_els()[b]).spec_data() <= ptr
                                        < pre_slabs[a].spec_els()[b].spec_data() + 4096
                                        && pre_slabs[a].spec_els()[b].spec_bits()[(ptr
                                        - pre_slabs[a].spec_els()[b].spec_data()) as int / (
                                    size as int)];
                                assert(false);
                            }
                        }
                    }
                    return ptr;
                },
                None => {
                    proof {
                        assert(self.spec_slabs() =~= pre_slabs);
                    }
                },
            }
            i = i + 1;
        }
        let ghost pre_slabs = self.spec_slabs();
        let ghost pre_phys = phys.spec_sras();
        let mut ses = SlabElementSlab::new(phys, size);
        let ghost f_ses = ses.spec_frame();
        let ghost mid_phys = phys.spec_sras();
        proof {
            lemma_allocate_fresh(pre_phys, mid_phys, f_ses);
            assert forall|a: int|
                0 <= a < pre_slabs.len() implies (#[trigger] pre_slabs[a]).backed(mid_phys) by {
                lemma_ses_backed_after_alloc(pre_slabs[a], pre_phys, mid_phys, f_ses);
            }
        }
        let got = ses.allocate(phys, size);
        let ptr = match got {
            Some(p) => p,
            None => vstd::pervasive::unreached(),
        };
        let ghost d = ses.spec_els().last().spec_data();
        proof {
            lemma_allocate_fresh(mid_phys, phys.spec_sras(), d);
            assert forall|a: int|
                0 <= a < pre_slabs.len() implies (#[trigger] pre_slabs[a]).backed(
                phys.spec_sras(),
            ) by {
                lemma_ses_backed_after_alloc(pre_slabs[a], mid_phys, phys.spec_sras(), d);
            }
            crate::phys::lemma_alloc_preserves_held(mid_phys, phys.spec_sras(), d, f_ses);
        }
        self.slabs.push(ses);
        proof {
            let new_ses = self.spec_slabs().last();
            assert(self.spec_slabs() =~= pre_slabs.push(new_ses));
            lemma_slabs_sums_push(pre_slabs, new_ses);
            assert(spec_els_used(new_ses.spec_els()) == 1);
            assert(new_ses.backed(phys.spec_sras()));
            assert(spec_slabs_backed(self.spec_slabs(), phys.spec_sras())) by {
                assert forall|a: int|
                    0 <= a < self.spec_slabs().len() implies (#[trigger] self.spec_slabs()[a]).backed(
                    phys.spec_sras(),
                ) by {
                    if a < pre_slabs.len() {
                        assert(self.spec_slabs()[a] == pre_slabs[a]);
                    }
                }
            }
            lemma_slabs_distinct_after_append(
                pre_slabs,
                self.spec_slabs(),
                pre_phys,
                mid_phys,
                phys.spec_sras(),
                f_ses,
                d,
            );
            assert(spec_els_own(new_ses.spec_els(), ptr));
            assert(spec_slabs_own(self.spec_slabs(), ptr));
            assert(spec_els_block_allocated(new_ses.spec_els(), ptr, size as int));
            assert(spec_els_block_allocated(
                self.spec_slabs()[pre_slabs.len() as int].spec_els(),
                ptr,
                size as int,
            ));
            assert(spec_slabs_block_allocated(self.spec_slabs(), ptr, size as int));
            assert(spec_slabs_all_full(pre_slabs));
            let w = choose|w: int|
                0 <= w < new_ses.spec_els().len() && (#[trigger] new_ses.spec_els()[w]).spec_data()
                    <= ptr < new_ses.spec_els()[w].spec_data() + 4096;
            assert(w == 0 && new_ses.spec_els()[0].spec_data() == d);
            assert(d <= ptr < d + 4096);
            assert forall|a: int, b: int|
                0 <= a < pre_slabs.len() && 0 <= b < pre_slabs[a].spec_els().len() implies !((
            #[trigger] pre_slabs[a].spec_els()[b]).spec_data() <= ptr
                < pre_slabs[a].spec_els()[b].spec_data() + 4096) by {
                assert(pre_slabs[a].backed(pre_phys));
                crate::phys::lemma_alloc_preserves_held(
                    pre_phys,
                    mid_phys,
                    f_ses,
                    pre_slabs[a].spec_els()[b].spec_data(),
                );
                crate::phys::lemma_alloc_preserves_held(
                    mid_phys,
                    phys.spec_sras(),
                    d,
                    pre_slabs[a].spec_els()[b].spec_data(),
                );
                lemma_aligned_frames_disjoint(d, pre_slabs[a].spec_els()[b].spec_data(), ptr);
            }
            if spec_slabs_own(pre_slabs, ptr) {
                let a = choose|a: int|
                    0 <= a < pre_slabs.len() && spec_els_own(
                        (#[trigger] pre_slabs[a]).spec_els(),
                        ptr,
                    );
                let b = choose|b: int|
                    0 <= b < pre_slabs[a].spec_els().len() && (
                    #[trigger] pre_slabs[a].spec_els()[b]).spec_data() <= ptr
                        < pre_slabs[a].spec_els()[b].spec_data() + 4096;
                assert(false);
            }
            if spec_slabs_block_allocated(pre_slabs, ptr, size as int) {
                let a = choose|a: int|
                    0 <= a < pre_slabs.len() && spec_els_block_allocated(
                        (#[trigger] pre_slabs[a]).spec_els(),
                        ptr,
                        size as int,
                    );
                let b = choose|b: int|
                    0 <= b < pre_slabs[a].spec_els().len() && (
                    #[trigger] pre_slabs[a].spec_els()[b]).spec_data() <= ptr
                        < pre_slabs[a].spec_els()[b].spec_data() + 4096
                        && pre_slabs[a].spec_els()[b].spec_bits()[(ptr
                        - pre_slabs[a].spec_els()[b].spec_data()) as int / (size as int)];
                assert(false);
            }
        }
        ptr
    }
}

/// A group whose frames are held before an allocation keeps them held.
proof fn lemma_ses_backed_after_alloc(
    ses: SlabElementSlab,
    pre: Seq<crate::phys::SingleRegionPageFrameAllocator>,
    post: Seq<crate::phys::SingleRegionPageFrameAllocator>,
    addr: u64,
)
    requires
        crate::phys::spec_sras_wf(pre),
        spec_alloc_rel(pre, post, addr),
        ses.backed(pre),
    ensures
        ses.backed(post),
{
    crate::phys::lemma_alloc_preserves_held(pre, post, addr, ses.spec_frame());
    assert forall|j: int|
        0 <= j < ses.spec_els().len() implies crate::phys::spec_frame_held(
        post,
        (#[trigger] ses.spec_els()[j]).spec_data(),
    ) by {
        crate::phys::lemma_alloc_preserves_held(pre, post, addr, ses.spec_els()[j].spec_data());
    }
}

/// Distinctness carries over when every frame of every group is unchanged.
proof fn lemma_slabs_distinct_datas_same(
    pre: Seq<SlabElementSlab>,
    post: Seq<SlabElementSlab>,
    i: int,
)
    requires
        spec_slabs_distinct(pre),
        0 <= i < pre.len(),
        post.len() == pre.len(),
        forall|a: int| 0 <= a < pre.len() && a != i ==> #[trigger] post[a] == pre[a],
        post[i].spec_frame() == pre[i].spec_frame(),
        post[i].spec_els().len() == pre[i].spec_els().len(),
        forall|j: int|
            0 <= j < pre[i].spec_els().len() ==> (#[trigger] post[i].spec_els()[j]).spec_data()
                == pre[i].spec_els()[j].spec_data(),
    ensures
        spec_slabs_distinct(post),
{
}

/// Distinctness carries over when group `i` gained one element over a frame
/// that was free beforehand, while every already-held frame stays held.
proof fn lemma_slabs_distinct_after_grow(
    pre: Seq<SlabElementSlab>,
    post: Seq<SlabElementSlab>,
    i: int,
    pre_p: Seq<crate::phys::SingleRegionPageFrameAllocator>,
    post_p: Seq<crate::phys::SingleRegionPageFrameAllocator>,
    d: u64,
)
    requires
        spec_slabs_distinct(pre),
        spec_slabs_backed(pre, pre_p),
        crate::phys::spec_sras_wf(pre_p),
        spec_alloc_rel(pre_p, post_p, d),
        0 <= i < pre.len(),
        post.len() == pre.len(),
        forall|a: int| 0 <= a < pre.len() && a != i ==> #[trigger] post[a] == pre[a],
        post[i].spec_frame() == pre[i].spec_frame(),
        post[i].spec_els().len() == pre[i].spec_els().len() + 1,
        forall|j: int|
            0 <= j < pre[i].spec_els().len() ==> #[trigger] post[i].spec_els()[j]
                == pre[i].spec_els()[j],
        post[i].spec_els().last().spec_data() == d,
    ensures
        spec_slabs_distinct(post),
{
    assert forall|f: u64| crate::phys::spec_frame_held(pre_p, f) implies f != d by {
        crate::phys::lemma_alloc_preserves_held(pre_p, post_p, d, f);
    }
}

/// Distinctness carries over when a fresh one-element group was appended:
/// both of its frames were free when taken.
proof fn lemma_slabs_distinct_after_append(
    pre: Seq<SlabElementSlab>,
    post: Seq<SlabElementSlab>,
    pre_p: Seq<crate::phys::SingleRegionPageFrameAllocator>,
    mid_p: Seq<crate::phys::SingleRegionPageFrameAllocator>,
    post_p: Seq<crate::phys::SingleRegionPageFrameAllocator>,
    f_ses: u64,
    d: u64,
)
    requires
        spec_slabs_distinct(pre),
        spec_slabs_backed(pre, pre_p),
        crate::phys::spec_sras_wf(pre_p),
        crate::phys::spec_sras_wf(mid_p),
        spec_alloc_rel(pre_p, mid_p, f_ses),
        spec_alloc_rel(mid_p, post_p, d),
        post.len() == pre.len() + 1,
        forall|a: int| 0 <= a < pre.len() ==> #[trigger] post[a] == pre[a],
        post.last().spec_frame() == f_ses,
        post.last().spec_els().len() == 1,
        post.last().spec_els()[0].spec_data() == d,
    ensures
        spec_slabs_distinct(post),
{
    assert forall|f: u64| crate::phys::spec_frame_held(pre_p, f) implies f != f_ses by {
        crate::phys::lemma_alloc_preserves_held(pre_p, mid_p, f_ses, f);
    }
    assert forall|f: u64| crate::phys::spec_frame_held(mid_p, f) implies f != d by {
        crate::phys::lemma_alloc_preserves_held(mid_p, post_p, d, f);
    }
    crate::phys::lemma_allocate_fresh(pre_p, mid_p, f_ses);
    assert(crate::phys::spec_frame_held(mid_p, f_ses));
    assert(f_ses != d);
    assert forall|f: u64| crate::phys::spec_frame_held(pre_p, f) implies crate::phys::spec_frame_held(
        mid_p,
        f,
    ) by {
        crate::phys::lemma_alloc_preserves_held(pre_p, mid_p, f_ses, f);
    }
}


impl Slab {
    /// Takes back the block holding `ptr` if one of the slab's groups owns
    /// it; the caller warrants that an owned block is handed out. A group
    /// whose blocks all come back is dissolved and its frames returned.
    #[verifier::loop_isolation(false)]
    #[verifier::rlimit(60)]
    pub fn try_deallocate(&mut self, phys: &mut PageFrameAllocator, ptr: u64) -> (r: bool)
        requires
            old(self).wf(),
            old(phys).wf(),
            spec_slabs_backed(old(self).spec_slabs(), old(phys).spec_sras()),
            spec_slabs_distinct(old(self).spec_slabs()),
            forall|i: int, j: int|
                0 <= i < old(self).spec_slabs().len() && 0 <= j < old(
                    self,
                ).spec_slabs()[i].spec_els().len() && (#[trigger] old(
                    self,
                ).spec_slabs()[i].spec_els()[j]).spec_data() <= ptr < old(
                    self,
                ).spec_slabs()[i].spec_els()[j].spec_data() + 4096 ==> old(
                    self,
                ).spec_slabs()[i].spec_els()[j].spec_bits()[(ptr - old(
                    self,
                ).spec_slabs()[i].spec_els()[j].spec_data()) as int / (old(
                    self,
                ).spec_size() as int)],
        ensures
            final(self).wf(),
            final(phys).wf(),
            final(self).spec_size() == old(self).spec_size(),
            spec_slabs_backed(final(self).spec_slabs(), final(phys).spec_sras()),
            spec_slabs_distinct(final(self).spec_slabs()),
            spec_total_size(final(phys).spec_sras()) == spec_total_size(old(phys).spec_sras()),
            r == spec_slabs_own(old(self).spec_slabs(), ptr),
            r ==> spec_slabs_used(final(self).spec_slabs()) == spec_slabs_used(
                old(self).spec_slabs(),
            ) - 1,
            r ==> !spec_slabs_block_allocated(
                final(self).spec_slabs(),
                ptr,
                old(self).spec_size() as int,
            ),
            r ==> spec_slabs_frames(old(self).spec_slabs()) - spec_slabs_frames(
                final(self).spec_slabs(),
            ) >= 0 && spec_total_free(final(phys).spec_sras()) == spec_total_free(
                old(phys).spec_sras(),
            ) + 4096 * (spec_slabs_frames(old(self).spec_slabs()) - spec_slabs_frames(
                final(self).spec_slabs(),
            )),
            !r ==> final(self).spec_slabs() == old(self).spec_slabs() && final(phys).spec_sras()
                == old(phys).spec_sras(),
    {
        let size = self.size;
        let n = self.slabs.len();
        let mut i: usize = 0;
        while i < n
            invariant
                n == self.spec_slabs().len(),
                i <= n,
                self.spec_slabs() == old(self).spec_slabs(),
                self.size == old(self).spec_size(),
                phys.spec_sras() == old(phys).spec_sras(),
                forall|h: int|
                    0 <= h < i ==> !spec_els_own((#[trigger] self.spec_slabs()[h]).spec_els(), ptr),
            decreases n - i,
        {
            let ghost pre_slabs = self.spec_slabs();
            let ghost pre_phys = phys.spec_sras();
            let ses = &mut self.slabs[i];
            proof {
                assert forall|j: int|
                    0 <= j < pre_slabs[i as int].spec_els().len() && (#[trigger] pre_slabs[i as int].spec_els()[j]).spec_data()
                        <= ptr < pre_slabs[i as int].spec_els()[j].spec_data()
                        + 4096 implies pre_slabs[i as int].spec_els()[j].spec_bits()[(ptr
                    - pre_slabs[i as int].spec_els()[j].spec_data()) as int / (size as int)] by {
                    assert(old(self).spec_slabs()[i as int].spec_els()[j].spec_data() <= ptr < old(
                        self,
                    ).spec_slabs()[i as int].spec_els()[j].spec_data() + 4096);
                }
            }
            let freed = ses.try_deallocate(ptr, size);
            if freed {
                let ghost post_ses = self.spec_slabs()[i as int];
                proof {
                    assert(self.spec_slabs() =~= pre_slabs.update(i as int, post_ses));
                    lemma_slabs_sums_update(pre_slabs, i as int, post_ses);
                    assert(spec_els_own(pre_slabs[i as int].spec_els(), ptr));
                    assert(spec_slabs_own(pre_slabs, ptr));
                    assert forall|a: int|
                        0 <= a < self.spec_slabs().len() implies (#[trigger] self.spec_slabs()[a]).backed(
                        phys.spec_sras(),
                    ) by {
                        if a != i as int {
                            assert(self.spec_slabs()[a] == pre_slabs[a]);
                        }
                    }
                    lemma_slabs_distinct_datas_same(pre_slabs, self.spec_slabs(), i as int);
                    lemma_slab_ptr_one_group(pre_slabs, ptr, size as int, i as int);
                    if spec_slabs_block_allocated(self.spec_slabs(), ptr, size as int) {
                        let a = choose|a: int|
                            0 <= a < self.spec_slabs().len() && spec_els_block_allocated(
                                (#[trigger] self.spec_slabs()[a]).spec_els(),
                                ptr,
                                size as int,
                            );
                        if a != i as int {
                            assert(self.spec_slabs()[a] == pre_slabs[a]);
                            let b = choose|b: int|
                                0 <= b < pre_slabs[a].spec_els().len() && (
                                #[trigger] pre_slabs[a].spec_els()[b]).spec_data() <= ptr
                                    < pre_slabs[a].spec_els()[b].spec_data() + 4096
                                    && pre_slabs[a].spec_els()[b].spec_bits()[(ptr
                                    - pre_slabs[a].spec_els()[b].spec_data()) as int / (
                                size as int)];
                            assert(spec_els_own(pre_slabs[a].spec_els(), ptr));
                        }
                        assert(false);
                    }
                }
                let ghost cleared_slabs = self.spec_slabs();
                let is_empty = {
                    let ses_ref = &self.slabs[i];
                    ses_ref.all_empty(size)
                };
                if is_empty {
                    let ghost mid_slabs = self.spec_slabs();
                    let ghost mid_phys = phys.spec_sras();
                    let removed = self.slabs.remove(i);
                    proof {
                        assert(self.spec_slabs() =~= mid_slabs.remove(i as int));
                        lemma_slabs_sums_remove(mid_slabs, i as int);
                        lemma_els_used_zero(removed.spec_els());
                    }
                    removed.release_all(phys, size);
                    proof {
                        lemma_slabs_after_release(
                            mid_slabs,
                            self.spec_slabs(),
                            i as int,
                            mid_phys,
                            phys.spec_sras(),
                        );
                        if spec_slabs_block_allocated(self.spec_slabs(), ptr, size as int) {
                            let a = choose|a: int|
                                0 <= a < self.spec_slabs().len() && spec_els_block_allocated(
                                    (#[trigger] self.spec_slabs()[a]).spec_els(),
                                    ptr,
                                    size as int,
                                );
                            let a0 = if a < i as int {
                                a
                            } else {
                                a + 1
                            };
                            assert(self.spec_slabs()[a] == cleared_slabs[a0]);
                            assert(spec_els_block_allocated(
                                cleared_slabs[a0].spec_els(),
                                ptr,
                                size as int,
                            ));
                            assert(spec_slabs_block_allocated(cleared_slabs, ptr, size as int));
                            assert(false);
                        }
                    }
                }
                return true;
            }
            proof {
                assert(self.spec_slabs() =~= pre_slabs);
            }
            i = i + 1;
        }
        proof {
            if spec_slabs_own(self.spec_slabs(), ptr) {
                let w = choose|w: int|
                    0 <= w < self.spec_slabs().len() && spec_els_own(
                        (#[trigger] self.spec_slabs()[w]).spec_els(),
                        ptr,
                    );
                assert(false);
            }
        }
        false
    }
}

/// After one group of a distinct, backed family is dissolved, the remaining
/// groups are still distinct and still backed.
proof fn lemma_slabs_after_release(
    mid: Seq<SlabElementSlab>,
    post: Seq<SlabElementSlab>,
    i: int,
    mid_p: Seq<crate::phys::SingleRegionPageFrameAllocator>,
    post_p: Seq<crate::phys::SingleRegionPageFrameAllocator>,
)
    requires
        spec_slabs_distinct(mid),
        spec_slabs_backed(mid, mid_p),
        0 <= i < mid.len(),
        post == mid.remove(i),
        forall|f: u64|
            crate::phys::spec_frame_held(mid_p, f) && f != mid[i].spec_frame() && (forall|j: int|
                0 <= j < mid[i].spec_els().len() ==> f != (#[trigger] mid[i].spec_els()[j]).spec_data())
                ==> #[trigger] crate::phys::spec_frame_held(post_p, f),
    ensures
        spec_slabs_distinct(post),
        spec_slabs_backed(post, post_p),
{
    assert forall|a: int| 0 <= a < post.len() implies (#[trigger] post[a]).backed(post_p) by {
        let a0 = if a < i {
            a
        } else {
            a + 1
        };
        assert(post[a] == mid[a0]);
        assert(crate::phys::spec_frame_held(post_p, mid[a0].spec_frame()));
        assert forall|j: int|
            0 <= j < mid[a0].spec_els().len() implies crate::phys::spec_frame_held(
            post_p,
            (#[trigger] mid[a0].spec_els()[j]).spec_data(),
        ) by {
            assert(mid[a0].spec_els()[j].spec_data() != mid[i].spec_frame());
            assert forall|k: int|
                0 <= k < mid[i].spec_els().len() implies mid[a0].spec_els()[j].spec_data() != (
            #[trigger] mid[i].spec_els()[k]).spec_data() by {}
        }
    }
    assert forall|a: int, b: int|
        0 <= a < post.len() && 0 <= b < post.len() && a != b implies (#[trigger] post[a]).spec_frame()
        != (#[trigger] post[b]).spec_frame() by {
        let a0 = if a < i {
            a
        } else {
            a + 1
        };
        let b0 = if b < i {
            b
        } else {
            b + 1
        };
        assert(post[a] == mid[a0] && post[b] == mid[b0]);
    }
    assert forall|a: int, b: int, j: int|
        0 <= a < post.len() && 0 <= b < post.len() && a != b && 0 <= j
            < post[b].spec_els().len() implies (#[trigger] post[a]).spec_frame() != (
    #[trigger] post[b].spec_els()[j]).spec_data() by {
        let a0 = if a < i {
            a
        } else {
            a + 1
        };
        let b0 = if b < i {
            b
        } else {
            b + 1
        };
        assert(post[a] == mid[a0] && post[b] == mid[b0]);
    }
    assert forall|a: int, b: int, j1: int, j2: int|
        0 <= a < post.len() && 0 <= b < post.len() && a != b && 0 <= j1 < post[a].spec_els().len()
            && 0 <= j2 < post[b].spec_els().len() implies (#[trigger] post[a].spec_els()[j1]).spec_data()
        != (#[trigger] post[b].spec_els()[j2]).spec_data() by {
        let a0 = if a < i {
            a
        } else {
            a + 1
        };
        let b0 = if b < i {
            b
        } else {
            b + 1
        };
        assert(post[a] == mid[a0] && post[b] == mid[b0]);
    }
    assert forall|a: int| 0 <= a < post.len() implies spec_ses_distinct(&(#[trigger] post[a])) by {
        let a0 = if a < i {
            a
        } else {
            a + 1
        };
        assert(post[a] == mid[a0]);
        assert(spec_ses_distinct(&mid[a0]));
    }
}


/// The class served by slab index `i`.
pub open spec fn spec_index_class(i: int) -> int {
    if i == 0 {
        32
    } else if i == 1 {
        64
    } else if i == 2 {
        128
    } else if i == 3 {
        256
    } else if i == 4 {
        512
    } else if i == 5 {
        1024
    } else if i == 6 {
        2048
    } else {
        4096
    }
}

/// The kernel heap allocator: one slab per power-of-two class from 32 bytes
/// to one frame. Larger requests go to the big first-fit heap, which lives
/// outside this allocator.
#[derive(Debug)]
pub struct KAlloc {
    slabs: Vec<Slab>,
}

impl KAlloc {
    /// The slabs in class order.
    pub closed spec fn spec_slab_vec(&self) -> Seq<Slab> {
        self.slabs@
    }

    /// Well-formed: eight well-formed slabs, one per class, in order.
    pub open spec fn wf(&self) -> bool {
        &&& self.spec_slab_vec().len() == 8
        &&& forall|i: int|
            0 <= i < 8 ==> (#[trigger] self.spec_slab_vec()[i]).wf()
                && self.spec_slab_vec()[i].spec_size() == spec_index_class(i)
    }

    /// Builds the empty heap allocator with its eight slabs.
    pub fn new() -> (r: Self)
        ensures
            r.wf(),
            forall|i: int| 0 <= i < 8 ==> (#[trigger] r.spec_slab_vec()[i]).spec_slabs().len() == 0,
    {
        let mut slabs: Vec<Slab> = Vec::new();
        slabs.push(Slab::new(32));
        slabs.push(Slab::new(64));
        slabs.push(Slab::new(128));
        slabs.push(Slab::new(256));
        slabs.push(Slab::new(512));
        slabs.push(Slab::new(1024));
        slabs.push(Slab::new(2048));
        slabs.push(Slab::new(4096));
        KAlloc { slabs }
    }

    /// Serves a small allocation from the slab of its class.
    pub fn allocate(&mut self, phys: &mut PageFrameAllocator, size: usize) -> (r: u64)
        requires
            old(self).wf(),
            old(phys).wf(),
            size <= 4096,
            ({
                let idx = spec_class_index(spec_size_class(size as int));
                &&& spec_slabs_backed(
                    old(self).spec_slab_vec()[idx].spec_slabs(),
                    old(phys).spec_sras(),
                )
                &&& spec_slabs_distinct(old(self).spec_slab_vec()[idx].spec_slabs())
                &&& spec_slabs_all_full(old(self).spec_slab_vec()[idx].spec_slabs())
                    && spec_slab_has_room(old(self).spec_slab_vec()[idx].spec_slabs())
                    ==> spec_total_free(old(phys).spec_sras()) >= 4096
                &&& spec_slabs_all_full(old(self).spec_slab_vec()[idx].spec_slabs())
                    && !spec_slab_has_room(old(self).spec_slab_vec()[idx].spec_slabs())
                    ==> spec_total_free(old(phys).spec_sras()) >= 2 * 4096
            }),
        ensures
            final(self).wf(),
            final(phys).wf(),
            spec_total_size(final(phys).spec_sras()) == spec_total_size(old(phys).spec_sras()),
            ({
                let idx = spec_class_index(spec_size_class(size as int));
                let pre = old(self).spec_slab_vec()[idx].spec_slabs();
                let post = final(self).spec_slab_vec()[idx].spec_slabs();
                &&& forall|h: int|
                    0 <= h < 8 && h != idx ==> #[trigger] final(self).spec_slab_vec()[h] == old(
                        self,
                    ).spec_slab_vec()[h]
                &&& spec_slabs_backed(post, final(phys).spec_sras())
                &&& spec_slabs_distinct(post)
                &&& spec_slabs_used(post) == spec_slabs_used(pre) + 1
                &&& 0 <= spec_slabs_frames(post) - spec_slabs_frames(pre) <= 2
                &&& spec_total_free(final(phys).spec_sras()) == spec_total_free(
                    old(phys).spec_sras(),
                ) - 4096 * (spec_slabs_frames(post) - spec_slabs_frames(pre))
                &&& spec_slabs_own(post, r)
                &&& spec_slabs_block_allocated(post, r, spec_index_class(idx))
                &&& !spec_slabs_block_allocated(pre, r, spec_index_class(idx))
                &&& (spec_slabs_all_full(pre) ==> !spec_slabs_own(pre, r))
                &&& (!spec_slabs_all_full(pre) ==> final(phys).spec_sras() == old(
                    phys,
                ).spec_sras() && spec_slabs_frames(post) == spec_slabs_frames(pre))
            }),
    {
        let idx = match route_layout(size) {
            AllocRoute::Slab(idx) => idx,
            AllocRoute::Big => vstd::pervasive::unreached(),
        };
        let ghost pre_vec = self.spec_slab_vec();
        let slab = &mut self.slabs[idx];
        let ptr = slab.allocate(phys);
        proof {
            assert(self.spec_slab_vec() =~= pre_vec.update(
                idx as int,
                self.spec_slab_vec()[idx as int],
            ));
        }
        ptr
    }

    /// Takes a small allocation back into the slab of its class; true when
    /// the slab owned the pointer.
    pub fn deallocate(&mut self, phys: &mut PageFrameAllocator, ptr: u64, size: usize) -> (r: bool)
        requires
            old(self).wf(),
            old(phys).wf(),
            size <= 4096,
            ({
                let idx = spec_class_index(spec_size_class(size as int));
                let pre = old(self).spec_slab_vec()[idx].spec_slabs();
                &&& spec_slabs_backed(pre, old(phys).spec_sras())
                &&& spec_slabs_distinct(pre)
                &&& forall|i: int, j: int|
                    0 <= i < pre.len() && 0 <= j < pre[i].spec_els().len() && (
                    #[trigger] pre[i].spec_els()[j]).spec_data() <= ptr
                        < pre[i].spec_els()[j].spec_data() + 4096
                        ==> pre[i].spec_els()[j].spec_bits()[(ptr
                        - pre[i].spec_els()[j].spec_data()) as int / spec_index_class(idx)]
            }),
        ensures
            final(self).wf(),
            final(phys).wf(),
            spec_total_size(final(phys).spec_sras()) == spec_total_size(old(phys).spec_sras()),
            ({
                let idx = spec_class_index(spec_size_class(size as int));
                let pre = old(self).spec_slab_vec()[idx].spec_slabs();
                let post = final(self).spec_slab_vec()[idx].spec_slabs();
                &&& forall|h: int|
                    0 <= h < 8 && h != idx ==> #[trigger] final(self).spec_slab_vec()[h] == old(
                        self,
                    ).spec_slab_vec()[h]
                &&& spec_slabs_backed(post, final(phys).spec_sras())
                &&& spec_slabs_distinct(post)
                &&& r == spec_slabs_own(pre, ptr)
                &&& (r ==> !spec_slabs_block_allocated(post, ptr, spec_index_class(idx)))
                &&& (r ==> spec_slabs_used(post) == spec_slabs_used(pre) - 1
                    && spec_slabs_frames(pre) - spec_slabs_frames(post) >= 0 && spec_total_free(
                    final(phys).spec_sras(),
                ) == spec_total_free(old(phys).spec_sras()) + 4096 * (spec_slabs_frames(pre)
                    - spec_slabs_frames(post)))
                &&& (!r ==> post == pre && final(phys).spec_sras() == old(phys).spec_sras())
            }),
    {
        let idx = match route_layout(size) {
            AllocRoute::Slab(idx) => idx,
            AllocRoute::Big => vstd::pervasive::unreached(),
        };
        let ghost pre_vec = self.spec_slab_vec();
        let slab = &mut self.slabs[idx];
        let r = slab.try_deallocate(phys, ptr);
        proof {
            assert(self.spec_slab_vec() =~= pre_vec.update(
                idx as int,
                self.spec_slab_vec()[idx as int],
            ));
        }
        r
    }
}

/// An owning handle to exactly one physical frame holding one value of type
/// `T`; the storage is reached through the fixed physical-memory offset
/// mapping.
#[derive(Debug)]
pub struct VirtFrame<T> {
    phys: u64,
    value: T,
}

impl<T> VirtFrame<T> {
    /// The backing physical frame.
    pub closed spec fn spec_phys(&self) -> u64 {
        self.phys
    }

    /// The value stored in the frame.
    pub closed spec fn spec_value(&self) -> T {
        self.value
    }

    /// Allocates a frame and moves `element` into its storage.
    pub fn new(element: T, phys_alloc: &mut PageFrameAllocator) -> (r: Self)
        requires
            old(phys_alloc).wf(),
            spec_total_free(old(phys_alloc).spec_sras()) > 0,
        ensures
            final(phys_alloc).wf(),
            r.spec_value() == element,
            spec_alloc_rel(old(phys_alloc).spec_sras(), final(phys_alloc).spec_sras(), r.spec_phys()),
            crate::phys::spec_frame_held(final(phys_alloc).spec_sras(), r.spec_phys()),
            spec_total_size(final(phys_alloc).spec_sras()) == spec_total_size(
                old(phys_alloc).spec_sras(),
            ),
            spec_total_free(final(phys_alloc).spec_sras()) == spec_total_free(
                old(phys_alloc).spec_sras(),
            ) - 4096,
    {
        let frame = match phys_alloc.allocate_frame() {
            Some(f) => f,
            None => {
                proof {
                    lemma_all_set_no_free(old(phys_alloc).spec_sras());
                }
                vstd::pervasive::unreached()
            },
        };
        proof {
            lemma_allocate_fresh(old(phys_alloc).spec_sras(), phys_alloc.spec_sras(), frame);
        }
        VirtFrame { phys: frame, value: element }
    }

    /// Allocates a frame holding the type's default value. What the default
    /// is cannot be promised through the trait, so only the frame ownership
    /// is stated.
    pub fn new_default(phys_alloc: &mut PageFrameAllocator) -> (r: Self) where T: Default
        requires
            old(phys_alloc).wf(),
            spec_total_free(old(phys_alloc).spec_sras()) > 0,
        ensures
            final(phys_alloc).wf(),
            spec_alloc_rel(old(phys_alloc).spec_sras(), final(phys_alloc).spec_sras(), r.spec_phys()),
            crate::phys::spec_frame_held(final(phys_alloc).spec_sras(), r.spec_phys()),
            spec_total_size(final(phys_alloc).spec_sras()) == spec_total_size(
                old(phys_alloc).spec_sras(),
            ),
            spec_total_free(final(phys_alloc).spec_sras()) == spec_total_free(
                old(phys_alloc).spec_sras(),
            ) - 4096,
    {
        let element = T::default();
        Self::new(element, phys_alloc)
    }

    /// The virtual address of the frame's storage under the physical-memory
    /// offset mapping.
    pub fn addr(&self) -> (r: u64)
        requires
            self.spec_phys() <= u64::MAX - OFFSET,
        ensures
            r == OFFSET + self.spec_phys(),
    {
        OFFSET + self.phys
    }

    /// Reads the stored value.
    pub fn value(&self) -> (r: &T)
        ensures
            *r == self.spec_value(),
    {
        &self.value
    }

    /// Borrows the stored value for writing.
    pub fn value_mut(&mut self) -> (r: &mut T)
        ensures
            *r == old(self).spec_value(),
            final(self).spec_phys() == old(self).spec_phys(),
            final(self).spec_value() == *final(r),
    {
        &mut self.value
    }

    /// Returns the frame to the allocator and hands the value back,
    /// consuming the handle.
    pub fn into_inner(self, phys_alloc: &mut PageFrameAllocator) -> (r: T)
        requires
            old(phys_alloc).wf(),
            crate::phys::spec_frame_held(old(phys_alloc).spec_sras(), self.spec_phys()),
        ensures
            final(phys_alloc).wf(),
            r == self.spec_value(),
            crate::phys::spec_free_rel(
                old(phys_alloc).spec_sras(),
                final(phys_alloc).spec_sras(),
                self.spec_phys(),
            ),
            spec_total_free(final(phys_alloc).spec_sras()) == spec_total_free(
                old(phys_alloc).spec_sras(),
            ) + 4096,
            spec_total_size(final(phys_alloc).spec_sras()) == spec_total_size(
                old(phys_alloc).spec_sras(),
            ),
    {
        phys_alloc.deallocate_frame(self.phys);
        self.value
    }

    /// Forgets the handle, leaving the frame allocated for the rest of the
    /// kernel's lifetime, and names the frame left behind.
    pub fn leak(self) -> (r: u64)
        ensures
            r == self.spec_phys(),
    {
        self.phys
    }
}

/// While a frame handle lives — its backing frame stays allocated — a new
/// handle never receives the same backing frame: a fresh allocation hands
/// out only a frame that was free.
pub proof fn lemma_virt_frame_backing_fresh(
    pre: Seq<crate::phys::SingleRegionPageFrameAllocator>,
    post: Seq<crate::phys::SingleRegionPageFrameAllocator>,
    fresh: u64,
    live: u64,
)
    requires
        crate::phys::spec_sras_wf(pre),
        spec_alloc_rel(pre, post, fresh),
        crate::phys::spec_frame_held(pre, live),
    ensures
        fresh != live,
        crate::phys::spec_frame_held(post, live),
{
    crate::phys::lemma_alloc_preserves_held(pre, post, fresh, live);
}


/// Two distinct frame-aligned data frames never both contain one pointer.
proof fn lemma_aligned_frames_disjoint(a: u64, b: u64, p: u64)
    requires
        a % 4096 == 0,
        b % 4096 == 0,
        a != b,
        a <= p < a + 4096,
    ensures
        !(b <= p < b + 4096),
{
    assert(!(b <= p < b + 4096)) by (nonlinear_arith)
        requires
            a % 4096 == 0,
            b % 4096 == 0,
            a != b,
            a <= p < a + 4096,
    ;
}

/// Under distinct frames, a pointer owned by one group's element is owned
/// by no element of any other group.
proof fn lemma_slab_ptr_one_group(sls: Seq<SlabElementSlab>, ptr: u64, size: int, i: int)
    requires
        spec_slabs_wf(sls, size),
        spec_slabs_distinct(sls),
        0 <= i < sls.len(),
        spec_els_own(sls[i].spec_els(), ptr),
    ensures
        forall|a: int|
            0 <= a < sls.len() && a != i ==> !spec_els_own((#[trigger] sls[a]).spec_els(), ptr),
{
    let j = choose|j: int|
        0 <= j < sls[i].spec_els().len() && (#[trigger] sls[i].spec_els()[j]).spec_data() <= ptr
            < sls[i].spec_els()[j].spec_data() + 4096;
    assert forall|a: int|
        0 <= a < sls.len() && a != i implies !spec_els_own(
        (#[trigger] sls[a]).spec_els(),
        ptr,
    ) by {
        if spec_els_own(sls[a].spec_els(), ptr) {
            let b = choose|b: int|
                0 <= b < sls[a].spec_els().len() && (#[trigger] sls[a].spec_els()[b]).spec_data()
                    <= ptr < sls[a].spec_els()[b].spec_data() + 4096;
            assert(sls[i].wf(size));
            assert(sls[a].wf(size));
            assert(sls[i].spec_els()[j].wf(size));
            assert(sls[a].spec_els()[b].wf(size));
            assert(sls[i].spec_els()[j].spec_data() != sls[a].spec_els()[b].spec_data());
            lemma_aligned_frames_disjoint(
                sls[i].spec_els()[j].spec_data(),
                sls[a].spec_els()[b].spec_data(),
                ptr,
            );
        }
    }
}

/// Under distinct frames, exactly one element owns a pointer, so a block
/// known to be handed out discharges the no-double-free obligation of
/// deallocation: every owning element holds the block's bit set.
pub proof fn lemma_allocated_block_deallocatable(sls: Seq<SlabElementSlab>, ptr: u64, size: int)
    requires
        spec_valid_class(size),
        spec_slabs_wf(sls, size),
        spec_slabs_distinct(sls),
        spec_slabs_block_allocated(sls, ptr, size),
    ensures
        forall|i: int, j: int|
            0 <= i < sls.len() && 0 <= j < sls[i].spec_els().len() && (#[trigger] sls[i].spec_els()[j]).spec_data()
                <= ptr < sls[i].spec_els()[j].spec_data() + 4096
                ==> sls[i].spec_els()[j].spec_bits()[(ptr - sls[i].spec_els()[j].spec_data()) as int
                / size],
{
    let i0 = choose|i: int|
        0 <= i < sls.len() && spec_els_block_allocated((#[trigger] sls[i]).spec_els(), ptr, size);
    let j0 = choose|j: int|
        0 <= j < sls[i0].spec_els().len() && (#[trigger] sls[i0].spec_els()[j]).spec_data() <= ptr
            < sls[i0].spec_els()[j].spec_data() + 4096 && sls[i0].spec_els()[j].spec_bits()[(ptr
            - sls[i0].spec_els()[j].spec_data()) as int / size];
    assert forall|i: int, j: int|
        0 <= i < sls.len() && 0 <= j < sls[i].spec_els().len() && (#[trigger] sls[i].spec_els()[j]).spec_data()
            <= ptr < sls[i].spec_els()[j].spec_data() + 4096 implies sls[i].spec_els()[j].spec_bits()[(
    ptr - sls[i].spec_els()[j].spec_data()) as int / size] by {
        assert(sls[i].wf(size));
        assert(sls[i].spec_els()[j].wf(size));
        assert(sls[i0].spec_els()[j0].wf(size));
        if i != i0 || j != j0 {
            assert(sls[i].spec_els()[j].spec_data() != sls[i0].spec_els()[j0].spec_data());
            lemma_aligned_frames_disjoint(
                sls[i].spec_els()[j].spec_data(),
                sls[i0].spec_els()[j0].spec_data(),
                ptr,
            );
        }
    }
}

impl SlabElementSlab {
    /// Whether every block of every element is handed out.
    #[verifier::loop_isolation(false)]
    pub fn all_full(&self, size: usize) -> (r: bool)
        requires
            self.wf(size as int),
        ensures
            r == spec_els_all_full(self.spec_els()),
    {
        let n = self.elements.len();
        let mut j: usize = 0;
        while j < n
            invariant
                n == self.spec_els().len(),
                j <= n,
                forall|h: int|
                    0 <= h < j ==> count_zeros((#[trigger] self.spec_els()[h]).spec_bits()) == 0,
            decreases n - j,
        {
            let is_full = self.elements[j].full(size);
            if !is_full {
                return false;
            }
            j = j + 1;
        }
        true
    }
}

impl SlabElement {
    /// Whether the block of this element holding `ptr` is handed out.
    pub fn is_block_allocated(&self, ptr: u64, size: usize) -> (r: bool)
        requires
            self.wf(size as int),
            self.spec_data() <= ptr < self.spec_data() + 4096,
        ensures
            r == self.spec_bits()[(ptr - self.spec_data()) as int / (size as int)],
    {
        proof {
            assert(0 <= ((ptr - self.spec_data()) as int) / (size as int) < self.spec_bits().len())
                by (nonlinear_arith)
                requires
                    spec_valid_class(size as int),
                    self.spec_data() <= ptr < self.spec_data() + 4096,
                    self.spec_bits().len() * (size as int) == 4096,
            ;
        }
        let index = ((ptr - self.data) / (size as u64)) as usize;
        crate::bitmap::bitmap_get(&self.bitmap, index)
    }
}

impl Slab {
    /// Frames a coming allocation will take: none while a block is free,
    /// one data frame when only a new element is needed, two when a new
    /// group must be begun as well.
    #[verifier::loop_isolation(false)]
    pub fn frames_needed(&self) -> (r: usize)
        requires
            self.wf(),
        ensures
            !spec_slabs_all_full(self.spec_slabs()) ==> r == 0,
            spec_slabs_all_full(self.spec_slabs()) && spec_slab_has_room(self.spec_slabs()) ==> r
                == 1,
            spec_slabs_all_full(self.spec_slabs()) && !spec_slab_has_room(self.spec_slabs()) ==> r
                == 2,
    {
        let size = self.size;
        let n = self.slabs.len();
        let mut i: usize = 0;
        let mut any_room = false;
        while i < n
            invariant
                n == self.spec_slabs().len(),
                i <= n,
                self.size == self.spec_size(),
                forall|h: int|
                    0 <= h < i ==> spec_els_all_full((#[trigger] self.spec_slabs()[h]).spec_els()),
                any_room == exists|h: int|
                    0 <= h < i && (#[trigger] self.spec_slabs()[h]).spec_els().len()
                        < SLAB_ELEMENTS_PER_FRAME,
            decreases n - i,
        {
            let ses = &self.slabs[i];
            if !ses.all_full(size) {
                return 0;
            }
            if ses.elements.len() < SLAB_ELEMENTS_PER_FRAME {
                proof {
                    assert((#[trigger] self.spec_slabs()[i as int]).spec_els().len()
                        < SLAB_ELEMENTS_PER_FRAME);
                }
                any_room = true;
            }
            i = i + 1;
        }
        if any_room {
            1
        } else {
            proof {
                if spec_slab_has_room(self.spec_slabs()) {
                    let w = choose|h: int|
                        0 <= h < self.spec_slabs().len() && (#[trigger] self.spec_slabs()[h]).spec_els().len()
                            < SLAB_ELEMENTS_PER_FRAME;
                    assert(false);
                }
            }
            2
        }
    }

    /// Whether the block of this slab's class holding `ptr` is handed out.
    #[verifier::loop_isolation(false)]
    pub fn is_block_allocated(&self, ptr: u64) -> (r: bool)
        requires
            self.wf(),
            spec_slabs_distinct(self.spec_slabs()),
        ensures
            r == spec_slabs_block_allocated(
                self.spec_slabs(),
                ptr,
                self.spec_size() as int,
            ),
    {
        let size = self.size;
        let n = self.slabs.len();
        let mut i: usize = 0;
        while i < n
            invariant
                n == self.spec_slabs().len(),
                i <= n,
                self.size == self.spec_size(),
                forall|h: int, j: int|
                    0 <= h < i && 0 <= j < self.spec_slabs()[h].spec_els().len() ==> !((
                    #[trigger] self.spec_slabs()[h].spec_els()[j]).spec_data() <= ptr
                        < self.spec_slabs()[h].spec_els()[j].spec_data() + 4096),
            decreases n - i,
        {
            let ses = &self.slabs[i];
            let m = ses.elements.len();
            let mut j: usize = 0;
            while j < m
                invariant
                    n == self.spec_slabs().len(),
                    i < n,
                    m == self.spec_slabs()[i as int].spec_els().len(),
                    j <= m,
                    ses == &self.slabs[i as int],
                    self.size == self.spec_size(),
                    forall|jj: int|
                        0 <= jj < j ==> !((#[trigger] self.spec_slabs()[i as int].spec_els()[jj]).spec_data()
                            <= ptr < self.spec_slabs()[i as int].spec_els()[jj].spec_data() + 4096),
                decreases m - j,
            {
                let owned = ses.elements[j].owns(ptr);
                if owned {
                    let b = ses.elements[j].is_block_allocated(ptr, size);
                    proof {
                        if b {
                            assert(spec_els_block_allocated(
                                self.spec_slabs()[i as int].spec_els(),
                                ptr,
                                size as int,
                            ));
                        } else {
                            if spec_slabs_block_allocated(
                                self.spec_slabs(),
                                ptr,
                                self.spec_size() as int,
                            ) {
                                lemma_allocated_block_deallocatable(
                                    self.spec_slabs(),
                                    ptr,
                                    self.spec_size() as int,
                                );
                                assert(false);
                            }
                        }
                    }
                    return b;
                }
                j = j + 1;
            }
            i = i + 1;
        }
        proof {
            if spec_slabs_block_allocated(self.spec_slabs(), ptr, self.spec_size() as int) {
                let w = choose|h: int|
                    0 <= h < self.spec_slabs().len() && spec_els_block_allocated(
                        (#[trigger] self.spec_slabs()[h]).spec_els(),
                        ptr,
                        self.spec_size() as int,
                    );
                let wj = choose|j: int|
                    0 <= j < self.spec_slabs()[w].spec_els().len() && (
                    #[trigger] self.spec_slabs()[w].spec_els()[j]).spec_data() <= ptr
                        < self.spec_slabs()[w].spec_els()[j].spec_data() + 4096
                        && self.spec_slabs()[w].spec_els()[j].spec_bits()[(ptr
                        - self.spec_slabs()[w].spec_els()[j].spec_data()) as int / (
                    self.spec_size() as int)];
                assert(false);
            }
        }
        false
    }
}

impl KAlloc {
    /// Frames the next allocation of `size` bytes will take from the
    /// physical allocator.
    pub fn frames_needed(&self, size: usize) -> (r: usize)
        requires
            self.wf(),
            size <= 4096,
        ensures
            ({
                let sls = self.spec_slab_vec()[spec_class_index(
                    spec_size_class(size as int),
                )].spec_slabs();
                &&& (!spec_slabs_all_full(sls) ==> r == 0)
                &&& (spec_slabs_all_full(sls) && spec_slab_has_room(sls) ==> r == 1)
                &&& (spec_slabs_all_full(sls) && !spec_slab_has_room(sls) ==> r == 2)
            }),
    {
        let idx = match route_layout(size) {
            AllocRoute::Slab(idx) => idx,
            AllocRoute::Big => vstd::pervasive::unreached(),
        };
        self.slabs[idx].frames_needed()
    }

    /// Whether the block of `size`'s class holding `ptr` is handed out.
    pub fn is_block_allocated(&self, ptr: u64, size: usize) -> (r: bool)
        requires
            self.wf(),
            size <= 4096,
            spec_slabs_distinct(
                self.spec_slab_vec()[spec_class_index(spec_size_class(size as int))].spec_slabs(),
            ),
        ensures
            r == spec_slabs_block_allocated(
                self.spec_slab_vec()[spec_class_index(spec_size_class(size as int))].spec_slabs(),
                ptr,
                spec_index_class(spec_class_index(spec_size_class(size as int))),
            ),
    {
        let idx = match route_layout(size) {
            AllocRoute::Slab(idx) => idx,
            AllocRoute::Big => vstd::pervasive::unreached(),
        };
        self.slabs[idx].is_block_allocated(ptr)
    }
}


/// What the big first-fit heap does after one allocation attempt.
#[derive(Clone, Copy, Debug, PartialEq, Eq, Hash, Structural)]
pub enum BigHeapAction {
    /// The attempt succeeded; hand its block out.
    UseFit,
    /// Map one fresh block of frames at this address, extend the heap over
    /// it, and try again.
    Extend {
        /// The first virtual address of the block to map.
        new_bottom: u64,
    },
    /// The next block would end at the top of the address space: the heap
    /// window is exhausted, which is fatal.
    OutOfMemory,
}

/// Decides the big heap's next step from one first-fit attempt over a heap
/// at `heap_bottom` spanning `heap_size` bytes: a failed fit grows the heap
/// by exactly one block, and a block whose top would wrap to the null
/// address means the window is exhausted.
pub fn big_heap_grow_step(fit_succeeded: bool, heap_bottom: u64, heap_size: u64) -> (r:
    BigHeapAction)
    ensures
        fit_succeeded ==> r == BigHeapAction::UseFit,
        !fit_succeeded ==> ({
            let new_bottom = vstd::wrapping::u64_specs::wrapping_add(heap_bottom, heap_size);
            let new_top = vstd::wrapping::u64_specs::wrapping_add(new_bottom, HEAP_BLOCK_SIZE as u64);
            if new_top == 0 {
                r == BigHeapAction::OutOfMemory
            } else {
                r == (BigHeapAction::Extend { new_bottom })
            }
        }),
{
    if fit_succeeded {
        BigHeapAction::UseFit
    } else {
        let new_bottom = heap_bottom.wrapping_add(heap_size);
        let new_top = new_bottom.wrapping_add(HEAP_BLOCK_SIZE as u64);
        if new_top == 0 {
            BigHeapAction::OutOfMemory
        } else {
            BigHeapAction::Extend { new_bottom }
        }
    }
}




} // verus!
