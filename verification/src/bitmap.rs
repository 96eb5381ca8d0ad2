//! A packed bit set used as the allocation map of the frame allocators, kept
//! in an outside bit-vector; its contents are named by `bitmap_model` and
//! every operation is specified against that name.
use vstd::prelude::*;

verus! {

/// A growable set of bits, one per page frame.
#[verifier::external_body]
#[derive(Debug)]
pub struct Bitmap {
    bits: bitvec::vec::BitVec<u8, bitvec::order::Lsb0>,
}

/// What the bitmap holds: the sequence of its bits.
pub uninterp spec fn bitmap_model(b: Bitmap) -> Seq<bool>;

/// Relies on bitvec's BitVec::repeat: a fresh vector of `len` bits, all
/// clear.
#[verifier::external_body]
pub fn bitmap_new(len: usize) -> (r: Bitmap)
    ensures
        bitmap_model(r) == Seq::new(len as nat, |i: int| false),
{
    Bitmap { bits: bitvec::vec::BitVec::repeat(false, len) }
}

/// Relies on bitvec's BitSlice::len: the number of bits held.
#[verifier::external_body]
pub fn bitmap_len(b: &Bitmap) -> (r: usize)
    ensures
        r == bitmap_model(*b).len(),
{
    b.bits.len()
}

/// Relies on bitvec's BitSlice::set: writes one bit, keeping the rest.
#[verifier::external_body]
pub fn bitmap_set(b: &mut Bitmap, i: usize, v: bool)
    requires
        i < bitmap_model(*old(b)).len(),
    ensures
        bitmap_model(*final(b)) == bitmap_model(*old(b)).update(i as int, v),
{
    b.bits.set(i, v)
}

/// Relies on bitvec's BitSlice range indexing: reads one bit.
#[verifier::external_body]
pub fn bitmap_get(b: &Bitmap, i: usize) -> (r: bool)
    requires
        i < bitmap_model(*b).len(),
    ensures
        r == bitmap_model(*b)[i as int],
{
    b.bits[i]
}

/// Relies on bitvec's BitSlice::first_zero, applied to the tail of the
/// vector from `start` on: the offset from `start` of the first clear bit,
/// or `None` when every bit from `start` on is set.
#[verifier::external_body]
pub fn bitmap_first_zero_from(b: &Bitmap, start: usize) -> (r: Option<usize>)
    requires
        start <= bitmap_model(*b).len(),
    ensures
        match r {
            Some(off) => {
                &&& start + off < bitmap_model(*b).len()
                &&& !bitmap_model(*b)[start + off]
                &&& forall|k: int| start <= k < start + off ==> bitmap_model(*b)[k]
            },
            None => forall|k: int|
                start <= k < bitmap_model(*b).len() ==> bitmap_model(*b)[k],
        },
{
    b.bits[start..].first_zero()
}

/// Relies on bitvec's BitSlice::count_zeros: how many bits are clear.
#[verifier::external_body]
pub fn bitmap_count_zeros(b: &Bitmap) -> (r: usize)
    ensures
        r == count_zeros(bitmap_model(*b)),
{
    b.bits.count_zeros()
}

/// The number of clear bits in a bit sequence.
pub open spec fn count_zeros(s: Seq<bool>) -> int
    decreases s.len(),
{
    if s.len() == 0 {
        0
    } else {
        count_zeros(s.drop_last()) + if s.last() {
            0int
        } else {
            1int
        }
    }
}

/// No sequence has more clear bits than bits.
pub proof fn lemma_count_zeros_le_len(s: Seq<bool>)
    ensures
        0 <= count_zeros(s) <= s.len(),
    decreases s.len(),
{
    if s.len() > 0 {
        lemma_count_zeros_le_len(s.drop_last());
    }
}

/// Writing one bit changes the number of clear bits by exactly one step:
/// setting a clear bit removes one clear bit, clearing a set bit adds one,
/// and rewriting a bit with its own value changes nothing.
pub proof fn lemma_count_zeros_update(s: Seq<bool>, i: int, v: bool)
    requires
        0 <= i < s.len(),
    ensures
        count_zeros(s.update(i, v)) == count_zeros(s) + if s[i] == v {
            0int
        } else if v {
            -1int
        } else {
            1int
        },
    decreases s.len(),
{
    let t = s.update(i, v);
    if i == s.len() - 1 {
        assert(t.drop_last() =~= s.drop_last());
    } else {
        assert(t.drop_last() =~= s.drop_last().update(i, v));
        lemma_count_zeros_update(s.drop_last(), i, v);
    }
}

/// A sequence of clear bits has as many clear bits as its length.
pub proof fn lemma_count_zeros_all_clear(s: Seq<bool>)
    requires
        forall|k: int| 0 <= k < s.len() ==> !s[k],
    ensures
        count_zeros(s) == s.len(),
    decreases s.len(),
{
    if s.len() > 0 {
        lemma_count_zeros_all_clear(s.drop_last());
    }
}

} // verus!
