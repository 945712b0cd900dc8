//! Plans capped, chunked batch retrieval of work items.
//!
//! An identifier list is first capped at [`crate::MAX_FETCH_IDS`] entries
//! (silent truncation: the operation never fails for an oversized list) and
//! then split into contiguous chunks of at most [`crate::CHUNK_SIZE`]
//! identifiers, preserving the original order. The caller issues exactly one
//! retrieval per chunk and concatenates the results in chunk order.

use vstd::prelude::*;
use crate::{CHUNK_SIZE, MAX_FETCH_IDS};

verus! {

/// The identifier list with everything beyond the retrieval cap dropped.
pub open spec fn spec_capped(ids: Seq<u32>) -> Seq<u32> {
    if ids.len() > MAX_FETCH_IDS {
        ids.take(MAX_FETCH_IDS as int)
    } else {
        ids
    }
}

/// How many chunks a capped list of the given length occupies: zero for an
/// empty list, otherwise one chunk per full [`CHUNK_SIZE`] identifiers plus
/// one for any remainder.
pub open spec fn spec_chunk_count(len: nat) -> nat
    decreases len,
{
    if len == 0 {
        0
    } else if len <= CHUNK_SIZE {
        1
    } else {
        1 + spec_chunk_count((len - CHUNK_SIZE) as nat)
    }
}

/// The intended upper bound of chunk number `i` in a capped list of length
/// `len`: a full chunk's end, or the end of the list for the final remainder.
pub open spec fn spec_chunk_end(len: nat, i: int) -> int {
    if (i + 1) * CHUNK_SIZE <= len {
        (i + 1) * (CHUNK_SIZE as int)
    } else {
        len as int
    }
}

/// Every chunk number below the count starts strictly inside the list.
pub proof fn lemma_chunk_start_in_range(len: nat, i: nat)
    requires
        i < spec_chunk_count(len),
    ensures
        i * CHUNK_SIZE < len,
    decreases i,
{
    if i > 0 {
        assert(len > CHUNK_SIZE);
        lemma_chunk_start_in_range((len - CHUNK_SIZE) as nat, (i - 1) as nat);
    }
}

/// Whether the identifier list was longer than the retrieval cap, so that its
/// tail will be dropped; callers log a warning exactly in this case.
pub fn exceeds_fetch_cap(ids: &Vec<u32>) -> (r: bool)
    ensures
        r == (ids@.len() > MAX_FETCH_IDS),
{
    ids.len() > MAX_FETCH_IDS
}

/// Splits the identifier list into retrieval chunks.
///
/// At most [`MAX_FETCH_IDS`] identifiers are kept, in order; every chunk but
/// the last holds exactly [`CHUNK_SIZE`] identifiers and the last holds the
/// remainder. An empty list yields no chunks at all.
pub fn plan_chunks(ids: &Vec<u32>) -> (chunks: Vec<Vec<u32>>)
    ensures
        chunks@.len() == spec_chunk_count(spec_capped(ids@).len()),
        forall|i: int|
            0 <= i < chunks@.len() ==> chunks@[i]@ == spec_capped(ids@).subrange(
                i * CHUNK_SIZE,
                spec_chunk_end(spec_capped(ids@).len(), i),
            ),
{
    let total: usize = if ids.len() > MAX_FETCH_IDS {
        MAX_FETCH_IDS
    } else {
        ids.len()
    };
    let ghost capped = spec_capped(ids@);
    proof {
        assert(capped.len() == total);
        assert(forall|k: int| 0 <= k < total ==> capped[k] == ids@[k]);
    }
    let mut chunks: Vec<Vec<u32>> = Vec::new();
    let mut start: usize = 0;
    while start < total
        invariant
            total == capped.len(),
            capped == spec_capped(ids@),
            forall|k: int| 0 <= k < total ==> capped[k] == ids@[k],
            total <= ids@.len(),
            start <= total,
            start == chunks@.len() * CHUNK_SIZE || start == total,
            chunks@.len() + spec_chunk_count((total - start) as nat) == spec_chunk_count(
                total as nat,
            ),
            forall|i: int|
                0 <= i < chunks@.len() ==> chunks@[i]@ == capped.subrange(
                    i * CHUNK_SIZE,
                    spec_chunk_end(capped.len(), i),
                ),
        decreases total - start,
    {
        let end: usize = if CHUNK_SIZE <= total && start <= total - CHUNK_SIZE {
            start + CHUNK_SIZE
        } else {
            total
        };
        proof {
            assert(start == chunks@.len() * CHUNK_SIZE);
        }
        let mut chunk: Vec<u32> = Vec::new();
        let mut j: usize = start;
        while j < end
            invariant
                start <= j <= end <= total,
                total <= ids@.len(),
                total == capped.len(),
                forall|k: int| 0 <= k < total ==> capped[k] == ids@[k],
                chunk@ == capped.subrange(start as int, j as int),
            decreases end - j,
        {
            chunk.push(ids[j]);
            j = j + 1;
            proof {
                assert(chunk@ =~= capped.subrange(start as int, j as int));
            }
        }
        let ghost k = chunks@.len() as int;
        chunks.push(chunk);
        proof {
            assert(chunks@[k]@ == capped.subrange(k * CHUNK_SIZE, end as int));
            assert(end as int == spec_chunk_end(capped.len(), k));
            assert(forall|i: int|
                0 <= i < chunks@.len() ==> chunks@[i]@ == capped.subrange(
                    i * CHUNK_SIZE,
                    spec_chunk_end(capped.len(), i),
                ));
        }
        start = end;
    }
    proof {
        assert(spec_chunk_count(0) == 0);
    }
    chunks
}

/// Concatenating the chunks in order restores the capped identifier list:
/// nothing is lost, reordered or duplicated below the cap.
pub proof fn lemma_chunks_concat(ids: Seq<u32>, chunks: Seq<Seq<u32>>)
    requires
        chunks.len() == spec_chunk_count(spec_capped(ids).len()),
        forall|i: int|
            0 <= i < chunks.len() ==> chunks[i] == spec_capped(ids).subrange(
                i * CHUNK_SIZE,
                spec_chunk_end(spec_capped(ids).len(), i),
            ),
    ensures
        chunks.flatten() == spec_capped(ids),
{
    lemma_prefix_chunks_concat(spec_capped(ids), chunks, chunks.len() as int);
    assert(chunks.subrange(0, chunks.len() as int) =~= chunks);
    if chunks.len() > 0 {
        let n = chunks.len() as int;
        assert(spec_chunk_end(spec_capped(ids).len(), n - 1) == spec_capped(ids).len()) by {
            lemma_chunk_count_is_minimal(spec_capped(ids).len());
        }
        assert(spec_capped(ids).take(spec_capped(ids).len() as int) =~= spec_capped(ids));
    } else {
        assert(spec_capped(ids).len() == 0);
        assert(chunks.flatten() =~= spec_capped(ids));
    }
}

/// The final chunk ends exactly at the end of the list.
proof fn lemma_chunk_count_is_minimal(len: nat)
    requires
        len > 0,
    ensures
        spec_chunk_count(len) * CHUNK_SIZE >= len,
        (spec_chunk_count(len) - 1) * CHUNK_SIZE < len,
    decreases len,
{
    if len > CHUNK_SIZE {
        lemma_chunk_count_is_minimal((len - CHUNK_SIZE) as nat);
    }
}

/// The first `n` chunks concatenate to the corresponding prefix of the capped
/// list.
proof fn lemma_prefix_chunks_concat(capped: Seq<u32>, chunks: Seq<Seq<u32>>, n: int)
    requires
        0 <= n <= chunks.len(),
        chunks.len() == spec_chunk_count(capped.len()),
        forall|i: int|
            0 <= i < chunks.len() ==> chunks[i] == capped.subrange(
                i * CHUNK_SIZE,
                spec_chunk_end(capped.len(), i),
            ),
    ensures
        chunks.subrange(0, n).flatten() == capped.take(
            if n == 0 {
                0
            } else {
                spec_chunk_end(capped.len(), n - 1)
            },
        ),
    decreases n,
{
    if n == 0 {
        assert(chunks.subrange(0, 0) =~= Seq::<Seq<u32>>::empty());
        assert(Seq::<Seq<u32>>::empty().flatten() =~= Seq::<u32>::empty());
        assert(capped.take(0) =~= Seq::<u32>::empty());
    } else {
        lemma_prefix_chunks_concat(capped, chunks, n - 1);
        let prefix = chunks.subrange(0, n - 1);
        let whole = chunks.subrange(0, n);
        assert(whole =~= prefix.push(chunks[n - 1]));
        prefix.lemma_flatten_and_flatten_alt_are_equivalent();
        whole.lemma_flatten_and_flatten_alt_are_equivalent();
        assert(whole.flatten_alt() == whole.drop_last().flatten_alt() + whole.last());
        assert(whole.drop_last() =~= prefix);
        let lo: int = if n - 1 == 0 {
            0
        } else {
            spec_chunk_end(capped.len(), n - 2)
        };
        let hi: int = spec_chunk_end(capped.len(), n - 1);
        assert((n - 1) * CHUNK_SIZE < capped.len()) by {
            lemma_chunk_start_in_range(capped.len(), (n - 1) as nat);
        }
        assert(lo == (n - 1) * CHUNK_SIZE);
        assert(chunks[n - 1] == capped.subrange(lo, hi));
        assert(capped.take(lo) + capped.subrange(lo, hi) =~= capped.take(hi));
    }
}

} // verus!
