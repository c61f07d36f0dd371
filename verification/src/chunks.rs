//! Chunk descriptors and the byte source they slice.
//!
//! A job over `total_size` bytes with a fixed `chunk_size` is split into
//! `chunk_count(total_size, chunk_size)` chunks: every chunk but the last
//! is exactly `chunk_size` bytes, and the last holds the remainder. All
//! descriptors for a job are generated eagerly, before any read completes.

use vstd::prelude::*;

verus! {

/// How many chunks a source of `total_size` bytes yields with the given
/// `chunk_size`: the least `n` with `n * chunk_size >= total_size`
/// (zero when the source is empty).
pub open spec fn chunk_count(total_size: nat, chunk_size: nat) -> nat
    recommends
        chunk_size > 0,
    decreases total_size,
{
    if total_size == 0 || chunk_size == 0 {
        0
    } else if total_size <= chunk_size {
        1
    } else {
        1 + chunk_count((total_size - chunk_size) as nat, chunk_size)
    }
}

/// The byte offset at which chunk `i` starts.
pub open spec fn chunk_offset_at(i: int, chunk_size: int) -> int {
    i * chunk_size
}

/// The length of chunk `i`: `chunk_size` for every chunk but possibly the
/// last, which holds what remains of the source.
pub open spec fn chunk_len_at(i: int, total_size: int, chunk_size: int) -> int {
    if total_size - i * chunk_size < chunk_size {
        total_size - i * chunk_size
    } else {
        chunk_size
    }
}

/// One fixed-maximum-size contiguous byte range of the source, processed as
/// one asynchronous unit. Immutable once created.
#[derive(Clone, Copy, Debug, PartialEq, Eq, Structural)]
pub struct ChunkDescriptor {
    pub index: usize,
    pub byte_offset: usize,
    pub byte_length: usize,
}

/// Whether `d` is the descriptor of chunk `i` of a job over `total_size`
/// bytes in chunks of `chunk_size`.
pub open spec fn desc_matches(d: ChunkDescriptor, i: int, total_size: int, chunk_size: int) -> bool {
    &&& d.index == i
    &&& d.byte_offset == chunk_offset_at(i, chunk_size)
    &&& d.byte_length == chunk_len_at(i, total_size, chunk_size)
}

/// Every chunk index below the count starts strictly inside the source and
/// carries between one and `chunk_size` bytes, ending by the source's end.
pub proof fn lemma_chunk_bounds(i: int, total_size: int, chunk_size: int)
    requires
        chunk_size >= 1,
        total_size >= 0,
        0 <= i < chunk_count(total_size as nat, chunk_size as nat),
    ensures
        0 <= chunk_offset_at(i, chunk_size) < total_size,
        0 < chunk_len_at(i, total_size, chunk_size) <= chunk_size,
        chunk_offset_at(i, chunk_size) + chunk_len_at(i, total_size, chunk_size) <= total_size,
    decreases i,
{
    if i > 0 {
        lemma_chunk_bounds(i - 1, total_size - chunk_size, chunk_size);
        assert((i - 1) * chunk_size == i * chunk_size - chunk_size) by (nonlinear_arith);
    }
}

/// A source never yields more chunks than it has bytes.
pub proof fn lemma_chunk_count_le_total(total_size: nat, chunk_size: nat)
    requires
        chunk_size >= 1,
    ensures
        chunk_count(total_size, chunk_size) <= total_size,
    decreases total_size,
{
    if total_size > chunk_size {
        lemma_chunk_count_le_total((total_size - chunk_size) as nat, chunk_size);
    }
}

/// The chunks of a job cover the whole source: the count times the chunk
/// size reaches at least the total size.
pub proof fn lemma_chunk_count_covers(total_size: int, chunk_size: int)
    requires
        chunk_size >= 1,
        total_size >= 0,
    ensures
        chunk_count(total_size as nat, chunk_size as nat) * chunk_size >= total_size,
    decreases total_size,
{
    if total_size == 0 {
    } else if total_size <= chunk_size {
        assert(1 * chunk_size == chunk_size) by (nonlinear_arith);
    } else {
        lemma_chunk_count_covers(total_size - chunk_size, chunk_size);
        let tail = chunk_count((total_size - chunk_size) as nat, chunk_size as nat) as int;
        assert((1 + tail) * chunk_size == chunk_size + tail * chunk_size) by (nonlinear_arith);
    }
}

/// A total size that is an exact multiple of the chunk size yields exactly
/// that many chunks, and the last chunk is a full one — not a short chunk.
pub proof fn lemma_chunk_count_exact_multiple(k: nat, chunk_size: nat)
    requires
        chunk_size >= 1,
    ensures
        chunk_count(k * chunk_size, chunk_size) == k,
        k > 0 ==> chunk_len_at(k - 1 as int, (k * chunk_size) as int, chunk_size as int) == chunk_size,
    decreases k,
{
    if k == 0 {
        assert(k * chunk_size == 0) by (nonlinear_arith)
            requires k == 0;
    } else {
        assert(k * chunk_size - chunk_size == (k - 1) * chunk_size) by (nonlinear_arith);
        assert(k * chunk_size >= 1 * chunk_size) by (nonlinear_arith)
            requires k >= 1 && chunk_size >= 1;
        lemma_chunk_count_exact_multiple((k - 1) as nat, chunk_size);
        if k == 1 {
            assert(chunk_len_at(0, chunk_size as int, chunk_size as int) == chunk_size);
        } else {
            assert(chunk_count(k * chunk_size, chunk_size) == k);
            assert(chunk_len_at(k - 1 as int, (k * chunk_size) as int, chunk_size as int) == chunk_size) by (nonlinear_arith)
                requires k >= 2 && chunk_size >= 1;
        }
    }
}

/// Generates all descriptors of a job, eagerly and in index order: offsets
/// advance by `chunk_size` from zero until they reach `total_size`, and the
/// last descriptor holds the remainder.
pub fn descriptors_of(total_size: usize, chunk_size: usize) -> (descs: Vec<ChunkDescriptor>)
    requires
        chunk_size >= 1,
    ensures
        descs@.len() == chunk_count(total_size as nat, chunk_size as nat),
        forall|i: int|
            0 <= i < descs@.len() ==> desc_matches(
                #[trigger] descs@[i],
                i,
                total_size as int,
                chunk_size as int,
            ),
{
    let mut descs: Vec<ChunkDescriptor> = Vec::new();
    let mut index: usize = 0;
    let mut offset: usize = 0;
    while offset < total_size
        invariant
            chunk_size >= 1,
            offset <= total_size,
            descs@.len() == index,
            index as int * chunk_size as int <= total_size as int ==> offset == index as int
                * chunk_size as int,
            offset == index as int * chunk_size as int || offset == total_size,
            index as nat + chunk_count((total_size - offset) as nat, chunk_size as nat)
                == chunk_count(total_size as nat, chunk_size as nat),
            forall|i: int|
                0 <= i < descs@.len() ==> desc_matches(
                    #[trigger] descs@[i],
                    i,
                    total_size as int,
                    chunk_size as int,
                ),
        decreases total_size - offset,
    {
        let remaining = total_size - offset;
        let byte_length = if remaining < chunk_size {
            remaining
        } else {
            chunk_size
        };
        assert(offset == index as int * chunk_size as int);
        descs.push(ChunkDescriptor { index, byte_offset: offset, byte_length });
        assert((index + 1) as int * chunk_size as int == index as int * chunk_size as int
            + chunk_size as int) by (nonlinear_arith);
        proof {
            lemma_chunk_count_le_total(total_size as nat, chunk_size as nat);
        }
        offset = offset + byte_length;
        index = index + 1;
    }
    descs
}

/// The user-selected file: a plain byte buffer exposing its total length
/// and a byte-range slicing operation, with no side effects.
pub struct ByteSource {
    data: Vec<u8>,
}

impl View for ByteSource {
    type V = Seq<u8>;

    closed spec fn view(&self) -> Seq<u8> {
        self.data@
    }
}

impl ByteSource {
    /// Wraps an in-memory byte buffer as a source.
    pub fn new(data: Vec<u8>) -> (s: Self)
        ensures
            s@ == data@,
    {
        ByteSource { data }
    }

    /// The total length of the source in bytes.
    pub fn length(&self) -> (n: usize)
        ensures
            n == self@.len(),
    {
        self.data.len()
    }

    /// A copy of the bytes in `[offset, min(limit, length))`. An `offset` at
    /// or past that upper end yields an empty view; `slice` never fails.
    pub fn slice(&self, offset: usize, limit: usize) -> (r: Vec<u8>)
        ensures
            r@ == (if offset < vstd::math::min(limit as int, self@.len() as int) {
                self@.subrange(offset as int, vstd::math::min(limit as int, self@.len() as int))
            } else {
                Seq::<u8>::empty()
            }),
    {
        let end = if limit < self.data.len() {
            limit
        } else {
            self.data.len()
        };
        let mut out: Vec<u8> = Vec::new();
        if offset >= end {
            assert(out@ =~= Seq::<u8>::empty());
            return out;
        }
        let mut i = offset;
        while i < end
            invariant
                offset <= i <= end,
                end <= self.data@.len(),
                out@ == self.data@.subrange(offset as int, i as int),
            decreases end - i,
        {
            out.push(self.data[i]);
            assert(out@ =~= self.data@.subrange(offset as int, i as int + 1));
            i = i + 1;
        }
        assert(out@ =~= self@.subrange(offset as int, end as int));
        out
    }
}

/// Decodes one descriptor's byte range of the source into an owned buffer:
/// exactly the bytes of `[byte_offset, byte_offset + byte_length)`.
pub fn read_chunk(source: &ByteSource, desc: &ChunkDescriptor) -> (bytes: Vec<u8>)
    requires
        desc.byte_offset + desc.byte_length <= source@.len(),
    ensures
        bytes@ == source@.subrange(
            desc.byte_offset as int,
            desc.byte_offset + desc.byte_length,
        ),
{
    let n = source.length();
    assert(desc.byte_offset + desc.byte_length <= n);
    let r = source.slice(desc.byte_offset, desc.byte_offset + desc.byte_length);
    assert(r@ =~= source@.subrange(desc.byte_offset as int, desc.byte_offset + desc.byte_length));
    r
}

} // verus!
