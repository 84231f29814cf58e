//! Laws of the kinship pipeline: the mirror step is idempotent and produces a
//! symmetric matrix, and merging partial results is commutative and
//! associative — which is why workers may complete in any order, and the
//! dispatcher may merge their batches in any order, without changing the
//! result.

use vstd::prelude::*;

use crate::geno::stream_dot;
use crate::kinship::{
    flat_idx, lemma_cell_decompose, lemma_flat_decompose, lemma_flat_idx_bounds, spec_mirrored,
};

verus! {

/// The stream may be cut into batches anywhere: the first `a` records and the
/// `b` records after them contribute to a cell exactly what the first `a + b`
/// records contribute in one piece. Together with the commutativity and
/// associativity of the merge below, this is why neither the batch size nor
/// the order in which workers complete affects the final matrix.
pub proof fn lemma_stream_dot_split(
    lines: Seq<String>,
    table: Seq<(char, i64)>,
    a: int,
    b: int,
    j: int,
    i: int,
)
    requires
        0 <= a,
        0 <= b,
        a + b <= lines.len(),
    ensures
        stream_dot(lines, table, a + b, j, i) == stream_dot(lines, table, a, j, i) + stream_dot(
            lines.skip(a),
            table,
            b,
            j,
            i,
        ),
    decreases b,
{
    if b > 0 {
        lemma_stream_dot_split(lines, table, a, b - 1, j, i);
        assert(lines.skip(a)[b - 1] == lines[a + b - 1]);
    }
}

/// The mirror step is idempotent: applying it to an already-mirrored matrix
/// yields that matrix unchanged.
pub proof fn lemma_mirror_idempotent(m: Seq<i128>, d: int)
    requires
        d >= 1,
        m.len() == d * d,
    ensures
        spec_mirrored(spec_mirrored(m, d, 1), d, 1) == spec_mirrored(m, d, 1),
{
    let m1 = spec_mirrored(m, d, 1);
    assert forall|c: int| 0 <= c < m1.len() implies spec_mirrored(m1, d, 1)[c] == m1[c] by {
        lemma_cell_decompose(d, c);
        let q = c / d;
        let r = c % d;
        if r < q {
            lemma_flat_idx_bounds(d, r, q);
            lemma_flat_decompose(d, r, q);
        }
    }
    assert(spec_mirrored(m1, d, 1) =~= m1);
}

/// The mirrored matrix is symmetric: the cells at `(j, i)` and `(i, j)` are
/// equal.
pub proof fn lemma_mirrored_symmetric(m: Seq<i128>, d: int, s: int, j: int, i: int)
    requires
        d >= 1,
        m.len() == d * d,
        0 <= j < d,
        0 <= i < d,
    ensures
        spec_mirrored(m, d, s)[flat_idx(d, j, i)] == spec_mirrored(m, d, s)[flat_idx(d, i, j)],
{
    lemma_flat_idx_bounds(d, j, i);
    lemma_flat_idx_bounds(d, i, j);
    lemma_flat_decompose(d, j, i);
    lemma_flat_decompose(d, i, j);
}

/// The accumulator after merging a partial result: the elementwise sum. The
/// cells are mathematical integers, so the sum is exact.
pub open spec fn merged(a: Seq<int>, b: Seq<int>) -> Seq<int> {
    Seq::new(a.len(), |x: int| a[x] + b[x])
}

/// Merging is commutative: a batch pair contributes the same whichever of the
/// two arrives first.
pub proof fn lemma_merge_commutative(a: Seq<int>, b: Seq<int>)
    requires
        a.len() == b.len(),
    ensures
        merged(a, b) == merged(b, a),
{
    assert(merged(a, b) =~= merged(b, a));
}

/// Merging is associative: batches may be grouped arbitrarily.
pub proof fn lemma_merge_associative(a: Seq<int>, b: Seq<int>, c: Seq<int>)
    requires
        a.len() == b.len(),
        b.len() == c.len(),
    ensures
        merged(merged(a, b), c) == merged(a, merged(b, c)),
{
    assert(merged(merged(a, b), c) =~= merged(a, merged(b, c)));
}

/// Two partial results merged into the accumulator in either order leave the
/// same accumulator: merge order across workers does not affect the result.
pub proof fn lemma_merge_order_irrelevant(acc: Seq<int>, p1: Seq<int>, p2: Seq<int>)
    requires
        acc.len() == p1.len(),
        p1.len() == p2.len(),
    ensures
        merged(merged(acc, p1), p2) == merged(merged(acc, p2), p1),
{
    assert(merged(merged(acc, p1), p2) =~= merged(merged(acc, p2), p1));
}

} // verus!
