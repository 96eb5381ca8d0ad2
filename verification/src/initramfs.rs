//! The read-only initial ram filesystem: a byte blob holding a little-endian
//! entry count, a table of (name offset, name length, data length) triples,
//! and a packed region of names and file contents.
use vstd::prelude::*;
use vstd::bytes::{spec_u64_from_le_bytes, u64_from_le_bytes};
use vstd::slice::{slice_subrange, slice_index_get};
use vstd::string::*;
use vstd::utf8::valid_utf8;

verus! {

/// The number of entries the blob claims to hold.
pub open spec fn spec_count(raw: Seq<u8>) -> int {
    spec_u64_from_le_bytes(raw.subrange(0, 8)) as int
}

/// Where the name of entry `i` starts, as an absolute offset into the blob.
pub open spec fn spec_name_off(raw: Seq<u8>, i: int) -> int {
    spec_u64_from_le_bytes(raw.subrange(8 + 24 * i, 8 + 24 * i + 8)) as int
}

/// The length in bytes of the name of entry `i`.
pub open spec fn spec_name_len(raw: Seq<u8>, i: int) -> int {
    spec_u64_from_le_bytes(raw.subrange(8 + 24 * i + 8, 8 + 24 * i + 16)) as int
}

/// The length in bytes of the contents of entry `i`.
pub open spec fn spec_data_len(raw: Seq<u8>, i: int) -> int {
    spec_u64_from_le_bytes(raw.subrange(8 + 24 * i + 16, 8 + 24 * i + 24)) as int
}

/// The name bytes of entry `i`.
pub open spec fn spec_name_bytes(raw: Seq<u8>, i: int) -> Seq<u8> {
    raw.subrange(spec_name_off(raw, i), spec_name_off(raw, i) + spec_name_len(raw, i))
}

/// The contents of entry `i`, which begin directly after its name.
pub open spec fn spec_data_bytes(raw: Seq<u8>, i: int) -> Seq<u8> {
    let off = spec_name_off(raw, i) + spec_name_len(raw, i);
    raw.subrange(off, off + spec_data_len(raw, i))
}

/// The name and contents of entry `i` lie within the blob.
pub open spec fn spec_entry_wf(raw: Seq<u8>, i: int) -> bool {
    spec_name_off(raw, i) + spec_name_len(raw, i) + spec_data_len(raw, i) <= raw.len()
}

/// A well-formed blob: the count and the whole entry table are present,
/// every entry stays in bounds, and every name is well-formed UTF-8.
pub open spec fn spec_fs_wf(raw: Seq<u8>) -> bool {
    &&& raw.len() >= 8
    &&& 8 + 24 * spec_count(raw) <= raw.len()
    &&& forall|i: int| 0 <= i < spec_count(raw) ==> #[trigger] spec_entry_wf(raw, i)
    &&& forall|i: int| 0 <= i < spec_count(raw) ==> valid_utf8(#[trigger] spec_name_bytes(raw, i))
}

/// The first entry at or after `i` whose name bytes are `name`, if any.
pub open spec fn spec_find_file(raw: Seq<u8>, name: Seq<u8>, i: int) -> Option<int>
    decreases spec_count(raw) - i,
{
    if i < 0 || i >= spec_count(raw) {
        None
    } else if spec_name_bytes(raw, i) == name {
        Some(i)
    } else {
        spec_find_file(raw, name, i + 1)
    }
}

/// What opening a file named by the byte sequence `name` returns: the
/// contents of the first entry with that name.
pub open spec fn spec_open_file(raw: Seq<u8>, name: Seq<u8>) -> Option<Seq<u8>> {
    match spec_find_file(raw, name, 0) {
        Some(i) => Some(spec_data_bytes(raw, i)),
        None => None,
    }
}

/// Relies on core::str::from_utf8: it succeeds exactly on well-formed UTF-8
/// and decodes those bytes.
#[verifier::external_body]
fn bytes_to_str(bytes: &[u8]) -> (r: Option<&str>)
    ensures
        r is Some <==> valid_utf8(bytes@),
        match r {
            Some(s) => s.spec_bytes() == bytes@,
            None => true,
        },
{
    core::str::from_utf8(bytes).ok()
}

/// Whether two byte slices hold the same bytes.
fn bytes_eq(a: &[u8], b: &[u8]) -> (r: bool)
    ensures
        r == (a@ == b@),
{
    if a.len() != b.len() {
        proof {
            assert(a@.len() != b@.len());
        }
        return false;
    }
    let n = a.len();
    let mut i: usize = 0;
    while i < n
        invariant
            n == a@.len() == b@.len(),
            i <= n,
            forall|j: int| 0 <= j < i ==> a@[j] == b@[j],
        decreases n - i,
    {
        if *slice_index_get(a, i) != *slice_index_get(b, i) {
            return false;
        }
        i = i + 1;
    }
    proof {
        assert(a@ =~= b@);
    }
    true
}

/// Reads the three little-endian fields of entry `i` from the table.
fn read_entry(raw: &[u8], i: usize) -> (r: (u64, u64, u64))
    requires
        0 <= i < spec_count(raw@),
        spec_fs_wf_table(raw@),
    ensures
        r.0 == spec_name_off(raw@, i as int),
        r.1 == spec_name_len(raw@, i as int),
        r.2 == spec_data_len(raw@, i as int),
{
    let n = raw.len();
    proof {
        assert(24 * (i as int) + 24 <= 24 * spec_count(raw@)) by (nonlinear_arith)
            requires
                (i as int) < spec_count(raw@),
        ;
        assert(8 + 24 * (i as int) + 24 <= n as int);
    }
    let base = 8 + 24 * i;
    let name_off = u64_from_le_bytes(slice_subrange(raw, base, base + 8));
    let name_len = u64_from_le_bytes(slice_subrange(raw, base + 8, base + 16));
    let data_len = u64_from_le_bytes(slice_subrange(raw, base + 16, base + 24));
    (name_off, name_len, data_len)
}

/// The count and the whole entry table lie within the blob.
pub open spec fn spec_fs_wf_table(raw: Seq<u8>) -> bool {
    raw.len() >= 8 && 8 + 24 * spec_count(raw) <= raw.len()
}

/// A blob whose entry `i` reaches out of bounds is not well-formed.
proof fn lemma_bad_entry_not_wf(raw: Seq<u8>, i: int)
    requires
        0 <= i < spec_count(raw),
        !spec_entry_wf(raw, i),
    ensures
        !spec_fs_wf(raw),
{
}

/// A blob whose entry `i` has a name that is not UTF-8 is not well-formed.
proof fn lemma_bad_name_not_wf(raw: Seq<u8>, i: int)
    requires
        0 <= i < spec_count(raw),
        !valid_utf8(spec_name_bytes(raw, i)),
    ensures
        !spec_fs_wf(raw),
{
    if spec_fs_wf(raw) {
        assert(spec_entry_wf(raw, i) && valid_utf8(spec_name_bytes(raw, i)));
    }
}

/// The in-memory read-only filesystem handed over by the bootloader.
pub struct InitRamFs {
    raw: Vec<u8>,
}

impl InitRamFs {
    /// The held blob is well-formed.
    #[verifier::type_invariant]
    spec fn inv(self) -> bool {
        spec_fs_wf(self.raw@)
    }

    /// The raw bytes of the filesystem image.
    pub closed spec fn spec_raw(&self) -> Seq<u8> {
        self.raw@
    }

    /// Takes ownership of a filesystem image, accepting it exactly when its
    /// count, entry table, entry bounds and name encodings are well-formed.
    pub fn new(raw: Vec<u8>) -> (r: Option<InitRamFs>)
        ensures
            r is Some <==> spec_fs_wf(raw@),
            match r {
                Some(fs) => fs.spec_raw() == raw@,
                None => true,
            },
    {
        let len = raw.len();
        if len < 8 {
            return None;
        }
        let count_u64 = u64_from_le_bytes(slice_subrange(raw.as_slice(), 0, 8));
        if count_u64 > ((len - 8) / 24) as u64 {
            proof {
                assert(24 * spec_count(raw@) > len - 8) by (nonlinear_arith)
                    requires
                        spec_count(raw@) > (len - 8) as int / 24,
                        len >= 8,
                ;
            }
            return None;
        }
        let count = count_u64 as usize;
        proof {
            assert(24 * (count as int) <= len - 8) by (nonlinear_arith)
                requires
                    (count as int) <= (len - 8) as int / 24,
                    len >= 8,
            ;
        }
        let mut i: usize = 0;
        while i < count
            invariant
                spec_fs_wf_table(raw@),
                count == spec_count(raw@),
                len == raw@.len(),
                i <= count,
                forall|j: int| 0 <= j < i ==> #[trigger] spec_entry_wf(raw@, j),
                forall|j: int| 0 <= j < i ==> valid_utf8(#[trigger] spec_name_bytes(raw@, j)),
            decreases count - i,
        {
            let (name_off, name_len, data_len) = read_entry(raw.as_slice(), i);
            if name_off > len as u64 {
                proof {
                    lemma_bad_entry_not_wf(raw@, i as int);
                }
                return None;
            }
            if name_len > len as u64 - name_off {
                proof {
                    lemma_bad_entry_not_wf(raw@, i as int);
                }
                return None;
            }
            if data_len > len as u64 - name_off - name_len {
                proof {
                    lemma_bad_entry_not_wf(raw@, i as int);
                }
                return None;
            }
            let name_slice = slice_subrange(
                raw.as_slice(),
                name_off as usize,
                (name_off + name_len) as usize,
            );
            match bytes_to_str(name_slice) {
                Some(_) => {},
                None => {
                    proof {
                        lemma_bad_name_not_wf(raw@, i as int);
                    }
                    return None;
                },
            }
            proof {
                assert(spec_entry_wf(raw@, i as int));
                assert(valid_utf8(spec_name_bytes(raw@, i as int)));
            }
            i = i + 1;
        }
        Some(InitRamFs { raw })
    }

    /// Opens the first file of that name and hands out its contents.
    pub fn open_file(&self, name: &str) -> (r: Option<&[u8]>)
        ensures
            ({
                let found = spec_open_file(self.spec_raw(), name.spec_bytes());
                match r {
                    Some(d) => found == Some(d@),
                    None => found is None,
                }
            }),
    {
        proof {
            use_type_invariant(&*self);
        }
        let name_bytes = name.as_bytes();
        let len = self.raw.len();
        let count_u64 = u64_from_le_bytes(slice_subrange(self.raw.as_slice(), 0, 8));
        proof {
            assert(count_u64 <= len);
        }
        let count = count_u64 as usize;
        let mut i: usize = 0;
        while i < count
            invariant
                spec_fs_wf(self.raw@),
                count == spec_count(self.raw@),
                len == self.raw@.len(),
                i <= count,
                name_bytes@ == name.spec_bytes(),
                spec_find_file(self.raw@, name_bytes@, 0) == spec_find_file(
                    self.raw@,
                    name_bytes@,
                    i as int,
                ),
            decreases count - i,
        {
            let (name_off, name_len, data_len) = read_entry(self.raw.as_slice(), i);
            proof {
                assert(spec_entry_wf(self.raw@, i as int));
            }
            let entry_name = slice_subrange(
                self.raw.as_slice(),
                name_off as usize,
                (name_off + name_len) as usize,
            );
            if bytes_eq(entry_name, name_bytes) {
                let data_off = name_off + name_len;
                let data = slice_subrange(
                    self.raw.as_slice(),
                    data_off as usize,
                    (data_off + data_len) as usize,
                );
                return Some(data);
            }
            i = i + 1;
        }
        None
    }

    /// A cursor over the `(name, contents)` pairs of the filesystem, in the
    /// order the packer wrote them.
    pub fn iter(&self) -> (r: InitRamFileIterator<'_>)
        ensures
            r.spec_raw() == self.spec_raw(),
            r.spec_index() == 0,
    {
        proof {
            use_type_invariant(&*self);
        }
        let len = self.raw.len();
        let count_u64 = u64_from_le_bytes(slice_subrange(self.raw.as_slice(), 0, 8));
        proof {
            assert(count_u64 <= len);
        }
        let file_count = count_u64 as usize;
        InitRamFileIterator { raw: self.raw.as_slice(), file_count, current_file: 0 }
    }
}

/// A cursor over the files of an `InitRamFs`.
pub struct InitRamFileIterator<'a> {
    raw: &'a [u8],
    file_count: usize,
    current_file: usize,
}

impl<'a> InitRamFileIterator<'a> {
    /// The blob is well-formed and the cached count is its entry count.
    #[verifier::type_invariant]
    spec fn inv(self) -> bool {
        &&& spec_fs_wf(self.raw@)
        &&& self.file_count == spec_count(self.raw@)
    }

    /// The raw bytes of the filesystem image being walked.
    pub closed spec fn spec_raw(&self) -> Seq<u8> {
        self.raw@
    }

    /// The index of the next entry to yield.
    pub closed spec fn spec_index(&self) -> int {
        self.current_file as int
    }

    /// Yields the name and contents of the next entry, or `None` after the
    /// last one.
    pub fn next(&mut self) -> (r: Option<(&'a str, &'a [u8])>)
        ensures
            final(self).spec_raw() == old(self).spec_raw(),
            old(self).spec_index() >= spec_count(old(self).spec_raw()) ==> r is None
                && final(self).spec_index() == old(self).spec_index(),
            old(self).spec_index() < spec_count(old(self).spec_raw()) ==> final(self).spec_index()
                == old(self).spec_index() + 1 && match r {
                Some((nm, d)) => nm.spec_bytes() == spec_name_bytes(
                    old(self).spec_raw(),
                    old(self).spec_index(),
                ) && d@ == spec_data_bytes(old(self).spec_raw(), old(self).spec_index()),
                None => false,
            },
    {
        proof {
            use_type_invariant(&*self);
        }
        if self.current_file >= self.file_count {
            return None;
        }
        let len = self.raw.len();
        let ghost idx = self.current_file as int;
        let (name_off, name_len, data_len) = read_entry(self.raw, self.current_file);
        proof {
            assert(spec_entry_wf(self.raw@, idx));
            assert(valid_utf8(spec_name_bytes(self.raw@, idx)));
        }
        let name_slice = slice_subrange(self.raw, name_off as usize, (name_off + name_len) as usize);
        let data_off = name_off + name_len;
        let data = slice_subrange(self.raw, data_off as usize, (data_off + data_len) as usize);
        self.current_file = self.current_file + 1;
        proof {
            assert(name_slice@ == spec_name_bytes(self.raw@, idx));
            assert(data@ == spec_data_bytes(self.raw@, idx));
        }
        match bytes_to_str(name_slice) {
            Some(name) => Some((name, data)),
            None => vstd::pervasive::unreached(),
        }
    }
}

/// Looking a name up starting at a later entry never finds an earlier one:
/// helper induction for the round-trip law below.
proof fn lemma_find_file_unique(raw: Seq<u8>, i: int, k: int)
    requires
        0 <= k < spec_count(raw),
        0 <= i <= k,
        forall|j1: int, j2: int|
            0 <= j1 < j2 < spec_count(raw) ==> #[trigger] spec_name_bytes(raw, j1)
                != #[trigger] spec_name_bytes(raw, j2),
    ensures
        spec_find_file(raw, spec_name_bytes(raw, k), i) == Some(k),
    decreases k - i,
{
    if i < k {
        assert(spec_name_bytes(raw, i) != spec_name_bytes(raw, k));
        lemma_find_file_unique(raw, i + 1, k);
    }
}

/// Round trip between iteration and lookup: when no two entries share a
/// name, opening the name yielded for any entry returns exactly the contents
/// yielded with it.
pub proof fn lemma_open_file_finds_iterated(raw: Seq<u8>, i: int)
    requires
        spec_fs_wf(raw),
        0 <= i < spec_count(raw),
        forall|j1: int, j2: int|
            0 <= j1 < j2 < spec_count(raw) ==> #[trigger] spec_name_bytes(raw, j1)
                != #[trigger] spec_name_bytes(raw, j2),
    ensures
        spec_open_file(raw, spec_name_bytes(raw, i)) == Some(spec_data_bytes(raw, i)),
{
    lemma_find_file_unique(raw, 0, i);
}

} // verus!
