//! The reassembly theory: what the destination object must hold.
//!
//! The central correctness invariant of the whole system is that the
//! destination object's byte stream equals the concatenation of the chunk
//! results in index order, regardless of the order completions arrived.
//! [`concat_upto`] is that concatenation; the lemmas here show that it
//! depends only on the results themselves, and that concatenating the
//! chunks of a source in index order reproduces the source byte for byte.

use vstd::prelude::*;

use crate::chunks::{chunk_count, chunk_len_at, lemma_chunk_bounds, lemma_chunk_count_covers};

verus! {

/// The concatenation of `results[0]`, `results[1]`, …, `results[k - 1]`,
/// in index order.
pub open spec fn concat_upto(results: Map<int, Seq<u8>>, k: int) -> Seq<u8>
    decreases k,
{
    if k <= 0 {
        Seq::empty()
    } else {
        concat_upto(results, k - 1) + results[k - 1]
    }
}

/// The concatenation reads only the results at indices below `k`: two
/// result maps that agree there concatenate to the same stream. This is
/// why the delivery order of completions cannot matter — only the results
/// themselves enter the final object.
pub proof fn lemma_concat_upto_congruence(a: Map<int, Seq<u8>>, b: Map<int, Seq<u8>>, k: int)
    requires
        forall|i: int| 0 <= i < k ==> a[i] == b[i],
    ensures
        concat_upto(a, k) == concat_upto(b, k),
    decreases k,
{
    if k > 0 {
        lemma_concat_upto_congruence(a, b, k - 1);
    }
}

/// If every result below `k` is exactly its chunk's slice of the source,
/// their concatenation is exactly the source's first `min(k * chunk_size,
/// total)` bytes.
proof fn lemma_chunk_prefix_reassembles(
    source: Seq<u8>,
    chunk_size: int,
    results: Map<int, Seq<u8>>,
    k: int,
)
    requires
        chunk_size >= 1,
        0 <= k <= chunk_count(source.len(), chunk_size as nat),
        forall|i: int|
            0 <= i < k ==> results[i] == source.subrange(
                i * chunk_size,
                i * chunk_size + chunk_len_at(i, source.len() as int, chunk_size),
            ),
    ensures
        concat_upto(results, k) == source.subrange(
            0,
            vstd::math::min(k * chunk_size, source.len() as int),
        ),
    decreases k,
{
    if k == 0 {
        assert(concat_upto(results, 0) =~= source.subrange(0, 0));
    } else {
        lemma_chunk_prefix_reassembles(source, chunk_size, results, k - 1);
        lemma_chunk_bounds(k - 1, source.len() as int, chunk_size);
        assert((k - 1) * chunk_size == k * chunk_size - chunk_size) by (nonlinear_arith);
        let off = (k - 1) * chunk_size;
        let len = chunk_len_at(k - 1, source.len() as int, chunk_size);
        assert(vstd::math::min((k - 1) * chunk_size, source.len() as int) == off);
        assert(off + len == vstd::math::min(k * chunk_size, source.len() as int));
        assert(source.subrange(0, off) + source.subrange(off, off + len) =~= source.subrange(
            0,
            off + len,
        ));
    }
}

/// Concatenating the chunk results for index `0 .. N - 1` in index order
/// reproduces exactly the original source bytes, whenever each result is
/// its chunk's slice of the source. Together with
/// [`lemma_concat_upto_congruence`] this makes the round trip independent
/// of the order in which completions were delivered.
pub proof fn lemma_chunks_reassemble_source(
    source: Seq<u8>,
    chunk_size: int,
    results: Map<int, Seq<u8>>,
)
    requires
        chunk_size >= 1,
        forall|i: int|
            0 <= i < chunk_count(source.len(), chunk_size as nat) ==> results[i]
                == source.subrange(
                i * chunk_size,
                i * chunk_size + chunk_len_at(i, source.len() as int, chunk_size),
            ),
    ensures
        concat_upto(results, chunk_count(source.len(), chunk_size as nat) as int) == source,
{
    let n = chunk_count(source.len(), chunk_size as nat) as int;
    lemma_chunk_prefix_reassembles(source, chunk_size, results, n);
    if source.len() == 0 {
        assert(source.subrange(0, 0) =~= source);
    } else {
        lemma_chunk_count_covers(source.len() as int, chunk_size);
        assert(vstd::math::min(n * chunk_size, source.len() as int) == source.len() as int);
        assert(source.subrange(0, source.len() as int) =~= source);
    }
}

} // verus!
