//! The numeric core: the partial symmetric rank-k update applied to one batch
//! of rows, the merge of a partial result into the shared accumulator, and the
//! final mirror-and-scale step.
//!
//! A batch of `k` rows of length `d` is packed row-major into a flat input
//! buffer. The kernel adds, for every upper-triangle cell (column `j`, row
//! `i`, `i >= j`), the sum over the batch rows of `row[j] * row[i]` into the
//! accumulator cell `j*d + i`. That flattening follows the column-major
//! convention of the reference rank-k update routine this mirrors (its
//! "Lower, Non-Transposed" variant reinterpreted for row-major storage), and
//! the traversal order (outer `j`, then batch row, then `i` from `j` up) is
//! preserved exactly.

use vstd::prelude::*;
use vstd::arithmetic::div_mod::{
    lemma_fundamental_div_mod, lemma_fundamental_div_mod_converse, lemma_mod_bound,
};

verus! {

/// Largest magnitude a mapped dosage value may have. With values no larger
/// than this, every product of two values fits far inside `i128`, and so does
/// the sum of one product per record over any number of records a machine can
/// index.
pub const VAL_LIMIT: i64 = 1048576;

/// Headroom bound on accumulator cells: any cell within this bound can take a
/// whole further batch of products without overflowing `i128`.
pub const CELL_LIMIT: i128 = 1329227995784915872903807060280344576;

/// Every value of the sequence lies in `[-VAL_LIMIT, VAL_LIMIT]`.
pub open spec fn vals_bounded(s: Seq<i64>) -> bool {
    forall|x: int| 0 <= x < s.len() ==> -(VAL_LIMIT as int) <= #[trigger] s[x] <= VAL_LIMIT as int
}

/// Every cell of the sequence lies in `[-b, b]`.
pub open spec fn cells_bounded(s: Seq<i128>, b: int) -> bool {
    forall|x: int| 0 <= x < s.len() ==> -b <= #[trigger] s[x] <= b
}

/// Flat index of the cell in column `j`, row `i` of a `d` x `d` matrix stored
/// in the column-major convention of the reference routine.
pub open spec fn flat_idx(d: int, j: int, i: int) -> int {
    j * d + i
}

/// The contribution of the first `rows` rows of the flat row-major batch `s`
/// (row length `d`) to the cell `(j, i)`: the sum of `row[j] * row[i]` over
/// those rows.
pub open spec fn batch_dot(s: Seq<i64>, d: int, rows: int, j: int, i: int) -> int
    decreases rows,
{
    if rows <= 0 {
        0
    } else {
        batch_dot(s, d, rows - 1, j, i) + s[(rows - 1) * d + j] * s[(rows - 1) * d + i]
    }
}

/// A batch contribution to one cell is at most one bounded product per row.
pub proof fn lemma_batch_dot_bound(s: Seq<i64>, d: int, rows: int, j: int, i: int)
    requires
        vals_bounded(s),
        d >= 1,
        0 <= j < d,
        0 <= i < d,
        0 <= rows,
        rows * d <= s.len(),
    ensures
        -(rows * (VAL_LIMIT as int) * (VAL_LIMIT as int)) <= batch_dot(s, d, rows, j, i) <= rows
            * (VAL_LIMIT as int) * (VAL_LIMIT as int),
    decreases rows,
{
    let vl = VAL_LIMIT as int;
    if rows > 0 {
        assert((rows - 1) * d <= s.len() && (rows - 1) * d + j < s.len() && (rows - 1) * d + i
            < s.len() && 0 <= (rows - 1) * d) by (nonlinear_arith)
            requires
                d >= 1,
                0 <= j < d,
                0 <= i < d,
                rows >= 1,
                rows * d <= s.len(),
        ;
        lemma_batch_dot_bound(s, d, rows - 1, j, i);
        let a = s[(rows - 1) * d + j] as int;
        let b = s[(rows - 1) * d + i] as int;
        assert(-(vl * vl) <= a * b <= vl * vl) by (nonlinear_arith)
            requires
                -vl <= a <= vl,
                -vl <= b <= vl,
        ;
        assert((rows - 1) * vl * vl + vl * vl == rows * vl * vl) by (nonlinear_arith);
    }
}

/// An in-range index pair gives an in-range flat cell.
pub proof fn lemma_flat_idx_bounds(d: int, j: int, i: int)
    requires
        0 <= j < d,
        0 <= i < d,
    ensures
        0 <= flat_idx(d, j, i) < d * d,
{
    assert(0 <= j * d + i < d * d) by (nonlinear_arith)
        requires
            0 <= j < d,
            0 <= i < d,
    ;
}

/// Two distinct in-range index pairs never share a flat cell.
pub proof fn lemma_flat_idx_injective(d: int, j1: int, i1: int, j2: int, i2: int)
    requires
        0 <= j1 < d,
        0 <= i1 < d,
        0 <= j2 < d,
        0 <= i2 < d,
        flat_idx(d, j1, i1) == flat_idx(d, j2, i2),
    ensures
        j1 == j2 && i1 == i2,
{
    assert(j1 == j2 && i1 == i2) by (nonlinear_arith)
        requires
            0 <= j1 < d,
            0 <= i1 < d,
            0 <= j2 < d,
            0 <= i2 < d,
            j1 * d + i1 == j2 * d + i2,
    ;
}

/// Computes the partial symmetric rank-k update for one batch: for every
/// upper-triangle cell (`i >= j`) adds the batch's sum of `row[j] * row[i]`
/// into `partial_matrix[j*d + i]`, leaving every other cell untouched.
/// The traversal runs over `j`, then over the batch rows, then over `i`
/// from `j` to `d - 1`.
#[verifier::loop_isolation(false)]
pub fn calc_partial_kinship(snps: &Vec<i64>, partial_matrix: &mut Vec<i128>, ids_num: usize)
    requires
        ids_num >= 1,
        snps@.len() as int % (ids_num as int) == 0,
        vals_bounded(snps@),
        old(partial_matrix)@.len() == ids_num * ids_num,
        cells_bounded(old(partial_matrix)@, CELL_LIMIT as int),
    ensures
        final(partial_matrix)@.len() == old(partial_matrix)@.len(),
        forall|j: int, i: int|
            0 <= j <= i < ids_num ==> final(partial_matrix)@[flat_idx(ids_num as int, j, i)]
                == old(partial_matrix)@[flat_idx(ids_num as int, j, i)] + batch_dot(
                snps@,
                ids_num as int,
                snps@.len() as int / ids_num as int,
                j,
                i,
            ),
        forall|j: int, i: int|
            0 <= i < j < ids_num ==> final(partial_matrix)@[flat_idx(ids_num as int, j, i)] == old(
                partial_matrix,
            )@[flat_idx(ids_num as int, j, i)],
        cells_bounded(
            final(partial_matrix)@,
            CELL_LIMIT as int + (snps@.len() as int / ids_num as int) * (VAL_LIMIT as int) * (
            VAL_LIMIT as int),
        ),
{
    let d = ids_num;
    let k = snps.len() / d;
    proof {
        let len = snps@.len() as int;
        let q = len / (d as int);
        let r = len % (d as int);
        lemma_fundamental_div_mod(len, d as int);
        assert(k as int * (d as int) == len) by (nonlinear_arith)
            requires
                len == (d as int) * q + r,
                r == 0,
                k as int == q,
        ;
    }
    let ghost orig = partial_matrix@;
    let ghost dd = d as int;
    let ghost kk = k as int;
    let ghost vl = VAL_LIMIT as int;
    let plen = partial_matrix.len();
    let slen = snps.len();
    let mut j: usize = 0;
    while j < d
        invariant
            j <= d,
            partial_matrix@.len() == orig.len(),
            forall|jj: int, ii: int|
                0 <= jj <= ii < dd && jj < j ==> partial_matrix@[flat_idx(dd, jj, ii)] == orig[
                    flat_idx(dd, jj, ii)
                ] + batch_dot(snps@, dd, kk, jj, ii),
            forall|jj: int, ii: int|
                j <= jj <= ii < dd ==> partial_matrix@[flat_idx(dd, jj, ii)] == orig[flat_idx(
                    dd,
                    jj,
                    ii,
                )],
            forall|jj: int, ii: int|
                0 <= ii < jj < dd ==> partial_matrix@[flat_idx(dd, jj, ii)] == orig[flat_idx(
                    dd,
                    jj,
                    ii,
                )],
            cells_bounded(partial_matrix@, CELL_LIMIT as int + kk * vl * vl),
        decreases d - j,
    {
        let mut l: usize = 0;
        while l < k
            invariant
                j < d,
                l <= k,
                partial_matrix@.len() == orig.len(),
                forall|jj: int, ii: int|
                    0 <= jj <= ii < dd && jj < j ==> partial_matrix@[flat_idx(dd, jj, ii)] == orig[
                        flat_idx(dd, jj, ii)
                    ] + batch_dot(snps@, dd, kk, jj, ii),
                forall|ii: int|
                    j <= ii < dd ==> partial_matrix@[flat_idx(dd, j as int, ii)] == orig[flat_idx(
                        dd,
                        j as int,
                        ii,
                    )] + batch_dot(snps@, dd, l as int, j as int, ii),
                forall|jj: int, ii: int|
                    j < jj <= ii < dd ==> partial_matrix@[flat_idx(dd, jj, ii)] == orig[flat_idx(
                        dd,
                        jj,
                        ii,
                    )],
                forall|jj: int, ii: int|
                    0 <= ii < jj < dd ==> partial_matrix@[flat_idx(dd, jj, ii)] == orig[flat_idx(
                        dd,
                        jj,
                        ii,
                    )],
                cells_bounded(partial_matrix@, CELL_LIMIT as int + kk * vl * vl),
            decreases k - l,
        {
            let mut i: usize = j;
            while i < d
                invariant
                    j <= i <= d,
                    l < k,
                    partial_matrix@.len() == orig.len(),
                    forall|jj: int, ii: int|
                        0 <= jj <= ii < dd && jj < j ==> partial_matrix@[flat_idx(dd, jj, ii)]
                            == orig[flat_idx(dd, jj, ii)] + batch_dot(snps@, dd, kk, jj, ii),
                    forall|ii: int|
                        j <= ii < i ==> partial_matrix@[flat_idx(dd, j as int, ii)] == orig[
                            flat_idx(dd, j as int, ii)
                        ] + batch_dot(snps@, dd, l as int + 1, j as int, ii),
                    forall|ii: int|
                        i <= ii < dd ==> partial_matrix@[flat_idx(dd, j as int, ii)] == orig[
                            flat_idx(dd, j as int, ii)
                        ] + batch_dot(snps@, dd, l as int, j as int, ii),
                    forall|jj: int, ii: int|
                        j < jj <= ii < dd ==> partial_matrix@[flat_idx(dd, jj, ii)] == orig[
                            flat_idx(dd, jj, ii)
                        ] + 0,
                    forall|jj: int, ii: int|
                        0 <= ii < jj < dd ==> partial_matrix@[flat_idx(dd, jj, ii)] == orig[
                            flat_idx(dd, jj, ii)
                        ],
                    cells_bounded(partial_matrix@, CELL_LIMIT as int + kk * vl * vl),
                decreases d - i,
            {
                proof {
                    assert(l * dd + j < kk * dd && l * dd + i < kk * dd && 0 <= l * dd) by (
                    nonlinear_arith)
                        requires
                            0 <= l < kk,
                            0 <= j < dd,
                            (j as int) <= i < dd,
                    ;
                    assert(j * dd + i < dd * dd) by (nonlinear_arith)
                        requires
                            0 <= j < dd,
                            0 <= i < dd,
                    ;
                    assert(dd * dd == plen as int) by (nonlinear_arith)
                        requires
                            plen as int == (ids_num as int) * (ids_num as int),
                            dd == ids_num as int,
                    ;
                    assert(kk * dd == slen as int);
                }
                let a = snps[l * d + j];
                let b = snps[l * d + i];
                proof {
                    assert(-(vl * vl) <= (a as i128) * (b as i128) <= vl * vl) by (nonlinear_arith)
                        requires
                            -vl <= a as i128 <= vl,
                            -vl <= b as i128 <= vl,
                    ;
                }
                let prod: i128 = (a as i128) * (b as i128);
                proof {
                    lemma_batch_dot_bound(snps@, dd, l as int, j as int, i as int);
                    assert((l as int) * vl * vl + vl * vl == (l as int + 1) * vl * vl) by (
                    nonlinear_arith);
                    assert((l as int + 1) * vl * vl <= kk * vl * vl) by (nonlinear_arith)
                        requires
                            l as int + 1 <= kk,
                            vl >= 0,
                    ;
                }
                let idx = j * d + i;
                let cur = partial_matrix[idx];
                proof {
                    assert(partial_matrix@[idx as int] == orig[flat_idx(dd, j as int, i as int)]
                        + batch_dot(snps@, dd, l as int, j as int, i as int));
                }
                let ghost prev = partial_matrix@;
                partial_matrix[idx] = cur + prod;
                proof {
                    assert forall|jj: int, ii: int|
                        0 <= jj < dd && 0 <= ii < dd && !(jj == j as int && ii == i as int) implies (
                        0 <= flat_idx(dd, jj, ii) < prev.len() && partial_matrix@[flat_idx(
                            dd,
                            jj,
                            ii,
                        )] == prev[flat_idx(dd, jj, ii)]) by {
                        lemma_flat_idx_bounds(dd, jj, ii);
                        if flat_idx(dd, jj, ii) == idx as int {
                            lemma_flat_idx_injective(dd, jj, ii, j as int, i as int);
                        }
                    }
                    lemma_flat_idx_bounds(dd, j as int, i as int);
                }
                i = i + 1;
            }
            l = l + 1;
        }
        j = j + 1;
    }
}

/// Bound on accumulator cells over a whole run: one bounded product per record
/// and per cell, over every record count a machine can index.
pub const KINSHIP_LIMIT: i128 = 20282409603651670423947251286016;

/// A reusable pair of buffers cycled between the dispatcher and one worker:
/// the packed input batch and the batch's partial result matrix.
#[derive(Debug)]
pub struct WorkUnit {
    pub input_buf: Vec<i64>,
    pub result_buf: Vec<i128>,
    pub chr_num: usize,
}

/// The finished kinship matrix. The matrix is kept exact: the value of cell
/// `(i, j)` is `values[i * ids_num + j]` divided by `total_rows`, the common
/// divisor of every cell.
#[derive(Debug, Clone, PartialEq, Eq)]
pub struct KinshipMatrix {
    pub values: Vec<i128>,
    pub ids_num: usize,
    pub total_rows: usize,
}

/// Merges one completed partial result into the shared accumulator
/// (elementwise add) and zeroes the partial buffer in place, so the unit's
/// next batch starts clean.
#[verifier::loop_isolation(false)]
pub fn merge_partial_kinship(common: &mut Vec<i128>, partial: &mut Vec<i128>)
    requires
        old(common)@.len() == old(partial)@.len(),
        cells_bounded(old(common)@, CELL_LIMIT as int),
        cells_bounded(old(partial)@, CELL_LIMIT as int),
    ensures
        final(common)@.len() == old(common)@.len(),
        final(partial)@.len() == old(partial)@.len(),
        forall|x: int|
            0 <= x < old(common)@.len() ==> final(common)@[x] == old(common)@[x] + old(
                partial,
            )@[x],
        forall|x: int| 0 <= x < old(partial)@.len() ==> final(partial)@[x] == 0,
{
    let n = common.len();
    let mut x: usize = 0;
    while x < n
        invariant
            x <= n,
            common@.len() == n,
            partial@.len() == n,
            forall|c: int| 0 <= c < x ==> common@[c] == old(common)@[c] + old(partial)@[c],
            forall|c: int| x <= c < n ==> common@[c] == old(common)@[c],
            forall|c: int| 0 <= c < x ==> partial@[c] == 0,
            forall|c: int| x <= c < n ==> partial@[c] == old(partial)@[c],
        decreases n - x,
    {
        let s = common[x] + partial[x];
        common[x] = s;
        partial[x] = 0;
        x = x + 1;
    }
}

/// An in-range flat cell decomposes into its in-range index pair.
pub proof fn lemma_cell_decompose(d: int, c: int)
    requires
        d >= 1,
        0 <= c < d * d,
    ensures
        0 <= c / d < d,
        0 <= c % d < d,
        c == flat_idx(d, c / d, c % d),
{
    let q = c / d;
    let r = c % d;
    lemma_fundamental_div_mod(c, d);
    lemma_mod_bound(c, d);
    assert(0 <= q < d && c == q * d + r) by (nonlinear_arith)
        requires
            c == d * q + r,
            0 <= r < d,
            0 <= c < d * d,
    ;
}

/// The flat cell of an in-range index pair decomposes back into that pair.
pub proof fn lemma_flat_decompose(d: int, j: int, i: int)
    requires
        d >= 1,
        0 <= j < d,
        0 <= i < d,
    ensures
        flat_idx(d, j, i) / d == j,
        flat_idx(d, j, i) % d == i,
{
    lemma_fundamental_div_mod_converse(j * d + i, d, j, i);
}

/// The matrix after the mirror-and-scale step: every cell of the stored
/// triangle (`c % d >= c / d`) is scaled by `s`, and every other cell takes
/// the scaled value of its mirror image across the diagonal.
pub open spec fn spec_mirrored(m: Seq<i128>, d: int, s: int) -> Seq<i128> {
    Seq::new(
        m.len(),
        |c: int|
            if c % d >= c / d {
                (m[c] * s) as i128
            } else {
                (m[flat_idx(d, c % d, c / d)] * s) as i128
            },
    )
}

/// Expected cell value while the mirror pass has finished every index pair
/// lexicographically before outer row `i`, inner column `j`.
spec fn mirror_mid_val(orig: Seq<i128>, d: int, s: int, i: int, j: int, c: int) -> int {
    let q = c / d;
    let r = c % d;
    if r >= q {
        if r < i || (r == i && q < j) {
            orig[c] * s
        } else {
            orig[c] as int
        }
    } else {
        if q < i || (q == i && r < j) {
            orig[flat_idx(d, r, q)] * s
        } else {
            orig[c] as int
        }
    }
}

/// Scales every cell of the stored triangle by `scale` and mirrors it across
/// the diagonal, producing the dense symmetric matrix. Only the stored
/// triangle of the input is read.
#[verifier::loop_isolation(false)]
pub fn mirror_and_scale_kinship(
    common_kinship_matrix: &mut Vec<i128>,
    ids_num: usize,
    scale: i128,
)
    requires
        ids_num >= 1,
        old(common_kinship_matrix)@.len() == ids_num * ids_num,
        cells_bounded(old(common_kinship_matrix)@, KINSHIP_LIMIT as int),
        -VAL_LIMIT <= scale <= VAL_LIMIT,
    ensures
        final(common_kinship_matrix)@ == spec_mirrored(
            old(common_kinship_matrix)@,
            ids_num as int,
            scale as int,
        ),
{
    let d = ids_num;
    let ghost dd = d as int;
    let ghost s = scale as int;
    let ghost orig = common_kinship_matrix@;
    let plen = common_kinship_matrix.len();
    let mut i: usize = 0;
    while i < d
        invariant
            i <= d,
            common_kinship_matrix@.len() == orig.len(),
            forall|c: int|
                0 <= c < orig.len() ==> common_kinship_matrix@[c] == mirror_mid_val(
                    orig,
                    dd,
                    s,
                    i as int,
                    0,
                    c,
                ),
        decreases d - i,
    {
        let mut j: usize = 0;
        while j <= i
            invariant
                i < d,
                j <= i + 1,
                common_kinship_matrix@.len() == orig.len(),
                forall|c: int|
                    0 <= c < orig.len() ==> common_kinship_matrix@[c] == mirror_mid_val(
                        orig,
                        dd,
                        s,
                        i as int,
                        j as int,
                        c,
                    ),
            decreases i + 1 - j,
        {
            proof {
                assert(j * dd + i < dd * dd && i * dd + j < dd * dd) by (nonlinear_arith)
                    requires
                        0 <= j as int <= i as int,
                        (i as int) < dd,
                ;
                assert(dd * dd == plen as int) by (nonlinear_arith)
                    requires
                        plen as int == (ids_num as int) * (ids_num as int),
                        dd == ids_num as int,
                ;
                lemma_flat_decompose(dd, j as int, i as int);
                lemma_flat_decompose(dd, i as int, j as int);
            }
            let u = j * d + i;
            let w = i * d + j;
            let cur = common_kinship_matrix[u];
            proof {
                let kl = KINSHIP_LIMIT as int;
                let vl = VAL_LIMIT as int;
                assert(-(kl * vl) <= (cur as int) * s <= kl * vl) by (nonlinear_arith)
                    requires
                        -kl <= cur as int <= kl,
                        -vl <= s <= vl,
                ;
            }
            let scaled = cur * scale;
            let ghost before = common_kinship_matrix@;
            common_kinship_matrix[u] = scaled;
            common_kinship_matrix[w] = scaled;
            proof {
                assert forall|c: int| 0 <= c < orig.len() implies common_kinship_matrix@[c]
                    == mirror_mid_val(orig, dd, s, i as int, j as int + 1, c) by {
                    lemma_cell_decompose(dd, c);
                }
            }
            j = j + 1;
        }
        proof {
            assert forall|c: int| 0 <= c < orig.len() implies common_kinship_matrix@[c]
                == mirror_mid_val(orig, dd, s, i as int + 1, 0, c) by {
                lemma_cell_decompose(dd, c);
            }
        }
        i = i + 1;
    }
    proof {
        assert forall|c: int| 0 <= c < orig.len() implies common_kinship_matrix@[c]
            == spec_mirrored(orig, dd, s)[c] by {
            lemma_cell_decompose(dd, c);
        }
        assert(common_kinship_matrix@ =~= spec_mirrored(orig, dd, s));
    }
}

} // verus!
