//! Dividing the rows among the workers of a concurrent scan.
use vstd::prelude::*;

verus! {

/// The number of chunks into which `length` rows are divided for `workers`
/// workers: one per worker, but no more than there are rows, and a single
/// chunk where no worker is named.
pub open spec fn chunk_count(length: nat, workers: nat) -> nat {
    if length == 0 {
        0
    } else if workers == 0 {
        1
    } else if workers < length {
        workers
    } else {
        length
    }
}

/// The index at which chunk `k` of `count` chunks begins: the chunks are
/// contiguous, and the first `length % count` of them are one row longer
/// than the others.
pub open spec fn chunk_start(length: nat, count: nat, k: nat) -> nat {
    let extra = length % count;
    k * (length / count) + if k < extra {
        k
    } else {
        extra
    }
}

/// The chunks begin at 0, end at `length`, and none is empty.
pub proof fn lemma_chunks_cover(length: nat, count: nat, k: nat)
    requires
        0 < count <= length,
        k < count,
    ensures
        chunk_start(length, count, 0) == 0,
        chunk_start(length, count, count) == length,
        chunk_start(length, count, k) < chunk_start(length, count, k + 1),
        chunk_start(length, count, k + 1) <= length,
        chunk_start(length, count, k + 1) - chunk_start(length, count, k) == length / count + if k < length
            % count {
            1nat
        } else {
            0nat
        },
{
    let share = length / count;
    let extra = length % count;
    assert(length == count * share + extra) by (nonlinear_arith)
        requires
            count > 0,
            share == length / count,
            extra == length % count,
    ;
    assert(share >= 1) by (nonlinear_arith)
        requires
            0 < count <= length,
            share == length / count,
    ;
    assert(0 * share == 0) by (nonlinear_arith);
    assert((k + 1) * share == k * share + share) by (nonlinear_arith);
    assert((k + 1) * share <= count * share) by (nonlinear_arith)
        requires
            k + 1 <= count,
    ;
}

/// Every row belongs to exactly one chunk.
pub proof fn lemma_chunk_of_row(length: nat, count: nat, row: nat) -> (k: nat)
    requires
        0 < count <= length,
        row < length,
    ensures
        k < count,
        chunk_start(length, count, k) <= row < chunk_start(length, count, k + 1),
        forall|other: nat|
            other < count && (#[trigger] chunk_start(length, count, other)) <= row < chunk_start(
                length,
                count,
                other + 1,
            ) ==> other == k,
{
    lemma_chunks_cover(length, count, 0);
    let k = lemma_find_chunk(length, count, row, count);
    assert forall|other: nat|
        other < count && (#[trigger] chunk_start(length, count, other)) <= row < chunk_start(
            length,
            count,
            other + 1,
        ) implies other == k by {
        if other < k {
            lemma_chunk_starts_ordered(length, count, other + 1, k);
        } else if other > k {
            lemma_chunk_starts_ordered(length, count, k + 1, other);
        }
    }
    k
}

/// Searching downwards from chunk `upper`, the chunk that holds `row`.
proof fn lemma_find_chunk(length: nat, count: nat, row: nat, upper: nat) -> (k: nat)
    requires
        0 < count <= length,
        0 < upper <= count,
        row < chunk_start(length, count, upper),
    ensures
        k < upper,
        chunk_start(length, count, k) <= row < chunk_start(length, count, k + 1),
    decreases upper,
{
    let below = (upper - 1) as nat;
    lemma_chunks_cover(length, count, below);
    if chunk_start(length, count, below) <= row {
        below
    } else {
        lemma_find_chunk(length, count, row, below)
    }
}

/// Later chunks begin later.
pub proof fn lemma_chunk_starts_ordered(length: nat, count: nat, a: nat, b: nat)
    requires
        0 < count <= length,
        a <= b <= count,
    ensures
        chunk_start(length, count, a) <= chunk_start(length, count, b),
    decreases b - a,
{
    if a < b {
        lemma_chunks_cover(length, count, (b - 1) as nat);
        lemma_chunk_starts_ordered(length, count, a, (b - 1) as nat);
    }
}

/// Divides the indices `0..length` into contiguous chunks, one for each of
/// `workers` workers, whose lengths differ by at most one. Each chunk is a
/// pair of its first index and the index behind its last. There are no
/// more chunks than rows; `workers == 0` gives a single chunk.
pub fn partition(length: usize, workers: usize) -> (chunks: Vec<(usize, usize)>)
    ensures
        chunks@.len() == chunk_count(length as nat, workers as nat),
        forall|k: int|
            0 <= k < chunks@.len() ==> (#[trigger] chunks@[k]).0 == chunk_start(
                length as nat,
                chunks@.len(),
                k as nat,
            ) && chunks@[k].1 == chunk_start(length as nat, chunks@.len(), (k + 1) as nat),
{
    let mut chunks: Vec<(usize, usize)> = Vec::new();
    if length == 0 {
        return chunks;
    }
    let count: usize = if workers == 0 {
        1
    } else if workers < length {
        workers
    } else {
        length
    };
    let share: usize = length / count;
    let extra: usize = length % count;
    let mut start: usize = 0;
    let mut k: usize = 0;
    proof {
        lemma_chunks_cover(length as nat, count as nat, 0);
    }
    while k < count
        invariant
            0 < count <= length,
            count == chunk_count(length as nat, workers as nat),
            share == length / count,
            extra == length % count,
            k <= count,
            chunks@.len() == k,
            start == chunk_start(length as nat, count as nat, k as nat),
            forall|j: int|
                0 <= j < k ==> (#[trigger] chunks@[j]).0 == chunk_start(length as nat, count as nat, j as nat)
                    && chunks@[j].1 == chunk_start(length as nat, count as nat, (j + 1) as nat),
        decreases count - k,
    {
        proof {
            lemma_chunks_cover(length as nat, count as nat, k as nat);
        }
        let size: usize = if k < extra {
            share + 1
        } else {
            share
        };
        let end: usize = start + size;
        chunks.push((start, end));
        start = end;
        k = k + 1;
    }
    chunks
}

} // verus!
