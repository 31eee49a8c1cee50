//! Splitting an index space `0..total` into `size` contiguous shares.
//!
//! Every share but the trailing ones holds `chunk_len(total, size)` indices;
//! the shares are handed out by rank, lowest indices first.

use vstd::prelude::*;

verus! {

/// Number of indices in a full share: `total / size`, rounded up.
pub open spec fn chunk_len(total: nat, size: nat) -> nat
    recommends
        size >= 1,
{
    ((total + size - 1) / (size as int)) as nat
}

/// First index of the share of `rank`, clamped to `total`.
pub open spec fn chunk_start(total: nat, size: nat, rank: nat) -> nat
    recommends
        size >= 1,
{
    if rank * chunk_len(total, size) <= total {
        rank * chunk_len(total, size)
    } else {
        total
    }
}

/// One past the last index of the share of `rank`.
pub open spec fn chunk_end(total: nat, size: nat, rank: nat) -> nat
    recommends
        size >= 1,
{
    if (rank + 1) * chunk_len(total, size) <= total {
        (rank + 1) * chunk_len(total, size)
    } else {
        total
    }
}

/// Whether index `i` lies in the share of `rank`.
pub open spec fn owns(total: nat, size: nat, rank: nat, i: int) -> bool
    recommends
        size >= 1,
{
    chunk_start(total, size, rank) <= i < chunk_end(total, size, rank)
}

/// The rank whose share holds index `i`.
pub open spec fn owner(total: nat, size: nat, i: int) -> nat
    recommends
        size >= 1,
        0 <= i < total,
{
    (i / (chunk_len(total, size) as int)) as nat
}

/// A full share times the number of shares reaches `total`, and a full
/// share is empty exactly when there is nothing to split.
pub proof fn lemma_chunk_len(total: nat, size: nat)
    requires
        size >= 1,
    ensures
        chunk_len(total, size) * size >= total,
        total == 0 <==> chunk_len(total, size) == 0,
        total > 0 ==> chunk_len(total, size) == (total - 1) / (size as int) + 1,
        chunk_len(total, size) <= total,
{
    let c = (total + size - 1) / (size as int);
    assert(c * size >= total && c >= 0 && (total == 0 <==> c == 0) && c <= total && (total > 0
        ==> c == (total - 1) / (size as int) + 1)) by (nonlinear_arith)
        requires
            size >= 1,
            total >= 0,
            c == (total + size - 1) / (size as int),
    ;
}

/// `a / b`, rounded up.
pub fn div_ceil(a: usize, b: usize) -> (q: usize)
    requires
        b >= 1,
    ensures
        q == chunk_len(a as nat, b as nat),
{
    proof {
        lemma_chunk_len(a as nat, b as nat);
    }
    if a == 0 {
        0
    } else {
        (a - 1) / b + 1
    }
}

/// The half-open index range `[l, r)` that `rank` owns when `total` items
/// are split into `size` shares.
pub fn range(total: usize, size: usize, rank: usize) -> (bounds: (usize, usize))
    requires
        size >= 1,
    ensures
        bounds.0 == chunk_start(total as nat, size as nat, rank as nat),
        bounds.1 == chunk_end(total as nat, size as nat, rank as nat),
        bounds.0 <= bounds.1 <= total,
        bounds.1 - bounds.0 <= chunk_len(total as nat, size as nat),
{
    let chunk: usize = div_ceil(total, size);
    proof {
        lemma_chunk_len(total as nat, size as nat);
    }
    if chunk == 0 {
        return (0, 0);
    }
    if rank > total / chunk {
        assert(rank * chunk > total) by (nonlinear_arith)
            requires
                chunk > 0,
                rank > total / chunk,
        ;
        assert((rank + 1) * chunk > total) by (nonlinear_arith)
            requires
                chunk > 0,
                rank * chunk > total,
        ;
        return (total, total);
    }
    assert(rank * chunk <= total) by (nonlinear_arith)
        requires
            chunk > 0,
            rank <= total / chunk,
    ;
    let l: usize = rank * chunk;
    assert((rank + 1) * chunk == l + chunk) by (nonlinear_arith)
        requires
            l == rank * chunk,
    ;
    if total - l < chunk {
        (l, total)
    } else {
        (l, l + chunk)
    }
}

/// Every share is a range inside `0..total` that holds at most
/// `chunk_len(total, size)` indices.
pub proof fn lemma_chunk_bounds(total: nat, size: nat, rank: nat)
    requires
        size >= 1,
    ensures
        chunk_start(total, size, rank) <= chunk_end(total, size, rank) <= total,
        chunk_end(total, size, rank) - chunk_start(total, size, rank) <= chunk_len(total, size),
{
    let c = chunk_len(total, size);
    assert((rank + 1) * c == rank * c + c) by (nonlinear_arith);
}

/// The shares follow one another without a gap: the first starts at `0`,
/// each ends where the next starts, and the last ends at `total`.
pub proof fn lemma_chunks_contiguous(total: nat, size: nat, rank: nat)
    requires
        size >= 1,
    ensures
        chunk_start(total, size, 0) == 0,
        chunk_end(total, size, rank) == chunk_start(total, size, rank + 1),
        chunk_end(total, size, (size - 1) as nat) == total,
        rank >= size ==> chunk_start(total, size, rank) == total,
{
    let c = chunk_len(total, size);
    lemma_chunk_len(total, size);
    assert(0 * c == 0) by (nonlinear_arith);
    assert(((size - 1) as nat + 1) * c == c * size) by (nonlinear_arith)
        requires
            size >= 1,
    ;
    if rank >= size {
        assert(rank * c >= c * size) by (nonlinear_arith)
            requires
                rank >= size,
                c >= 0,
        ;
    }
}

/// The shares of ranks `0..size` partition `0..total`: every index below
/// `total` lies in the share of exactly one rank, that rank is below `size`,
/// and no share holds anything else.
pub proof fn lemma_chunks_partition(total: nat, size: nat)
    requires
        size >= 1,
    ensures
        forall|i: int|
            0 <= i < total ==> #[trigger] owner(total, size, i) < size && owns(
                total,
                size,
                owner(total, size, i),
                i,
            ),
        forall|rank: nat, i: int| #[trigger]
            owns(total, size, rank, i) ==> 0 <= i < total && rank == owner(total, size, i),
{
    let c = chunk_len(total, size);
    lemma_chunk_len(total, size);
    assert forall|i: int| 0 <= i < total implies #[trigger] owner(total, size, i) < size && owns(
        total,
        size,
        owner(total, size, i),
        i,
    ) by {
        let k = i / (c as int);
        assert(0 <= k < size && k * c <= i < (k + 1) * c) by (nonlinear_arith)
            requires
                0 <= i < total,
                c * size >= total,
                c > 0,
                k == i / (c as int),
        ;
    }
    assert forall|rank: nat, i: int| #[trigger] owns(total, size, rank, i) implies 0 <= i < total
        && rank == owner(total, size, i) by {
        lemma_chunk_bounds(total, size, rank);
        assert(c > 0);
        assert(rank * c <= i < (rank + 1) * c);
        assert(rank == i / (c as int)) by (nonlinear_arith)
            requires
                rank * c <= i < (rank + 1) * c,
                c > 0,
        ;
    }
}

} // verus!
