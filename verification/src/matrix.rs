//! Symmetric distance matrix: enumerate every unordered sample pair once,
//! compute each pair's statistic, and scatter every result into both
//! mirror cells of an N-by-N matrix in one sequential pass, leaving the
//! never-computed diagonal at the all-zero default.

use vstd::prelude::*;
use crate::codec::DosageCode;
use crate::distance::{
    abs_diff_sum, joint_count, lemma_distance_range, pair_distance, zero_stat, PairStat,
};
use crate::series::{aligned, views_of};

verus! {

/// Row-major cell index of `(i, j)` in an `n`-by-`n` matrix.
pub open spec fn cell(n: int, i: int, j: int) -> int {
    i * n + j
}

/// Distinct in-range positions occupy distinct cells.
pub proof fn lemma_cell_injective(n: int, i1: int, j1: int, i2: int, j2: int)
    requires
        0 <= i1,
        0 <= j1 < n,
        0 <= i2,
        0 <= j2 < n,
        cell(n, i1, j1) == cell(n, i2, j2),
    ensures
        i1 == i2,
        j1 == j2,
{
    assert(i1 == i2 && j1 == j2) by (nonlinear_arith)
        requires
            0 <= i1,
            0 <= j1 < n,
            0 <= i2,
            0 <= j2 < n,
            i1 * n + j1 == i2 * n + j2,
    {
    }
}

/// In-range positions index into the square.
pub proof fn lemma_cell_in_range(n: int, i: int, j: int)
    requires
        0 <= i < n,
        0 <= j < n,
    ensures
        0 <= cell(n, i, j) < n * n,
        0 <= i * n,
{
    assert(0 <= i * n && i * n + j < n * n) by (nonlinear_arith)
        requires
            0 <= i < n,
            0 <= j < n,
    {
    }
}

/// The statistic the finished matrix holds at `(i, j)`: the pair's exact
/// distance statistic off the diagonal, and the all-zero default on it.
pub open spec fn spec_matrix_entry(samples: Seq<Seq<DosageCode>>, i: int, j: int) -> PairStat {
    if i == j {
        zero_stat()
    } else {
        let lo = if i < j {
            i
        } else {
            j
        };
        let hi = if i < j {
            j
        } else {
            i
        };
        PairStat {
            diff_sum: abs_diff_sum(samples[lo], samples[hi]) as u64,
            site_count: joint_count(samples[lo], samples[hi]) as u64,
        }
    }
}

/// An N-by-N matrix of pair statistics in one row-major vector.
#[derive(Debug, PartialEq, Eq)]
pub struct DistanceMatrix {
    /// The number of samples: the matrix is square of this side.
    pub num_samples: usize,
    /// Row-major cells; entry `(i, j)` sits at index `i * num_samples + j`.
    pub entries: Vec<PairStat>,
}

impl DistanceMatrix {
    /// The cell vector covers the whole square.
    pub open spec fn wf(self) -> bool {
        self.entries@.len() == self.num_samples * self.num_samples
    }

    /// The statistic at row `i`, column `j`.
    pub open spec fn spec_entry(self, i: int, j: int) -> PairStat {
        self.entries@[cell(self.num_samples as int, i, j)]
    }

    /// A matrix with every cell at the all-zero default.
    pub fn new_zero(num_samples: usize) -> (m: DistanceMatrix)
        requires
            num_samples * num_samples <= usize::MAX,
        ensures
            m.wf(),
            m.num_samples == num_samples,
            forall|i: int, j: int|
                0 <= i < num_samples && 0 <= j < num_samples ==> #[trigger] m.spec_entry(i, j)
                    == zero_stat(),
    {
        let total = num_samples * num_samples;
        let mut entries: Vec<PairStat> = Vec::new();
        let mut c: usize = 0;
        while c < total
            invariant
                c <= total,
                entries@.len() == c,
                forall|u: int| 0 <= u < c ==> entries@[u] == zero_stat(),
            decreases total - c,
        {
            entries.push(PairStat { diff_sum: 0, site_count: 0 });
            c = c + 1;
        }
        let m = DistanceMatrix { num_samples, entries };
        proof {
            assert forall|i: int, j: int|
                0 <= i < num_samples && 0 <= j < num_samples implies #[trigger] m.spec_entry(i, j)
                == zero_stat() by {
                lemma_cell_in_range(num_samples as int, i, j);
            }
        }
        m
    }

    /// Read the statistic at row `i`, column `j`.
    pub fn entry(&self, i: usize, j: usize) -> (d: PairStat)
        requires
            self.wf(),
            i < self.num_samples,
            j < self.num_samples,
        ensures
            d == self.spec_entry(i as int, j as int),
    {
        let n = self.num_samples;
        let _len = self.entries.len();
        proof {
            lemma_cell_in_range(n as int, i as int, j as int);
            assert(self.entries@.len() <= usize::MAX);
        }
        self.entries[i * n + j]
    }
}

/// Some listed pair is exactly `(i, j)`.
pub open spec fn pair_listed(pairs: Seq<(usize, usize)>, i: int, j: int) -> bool {
    exists|p: int| 0 <= p < pairs.len() && (#[trigger] pairs[p]).0 == i && pairs[p].1 == j
}

/// A listed pair stays listed when the list grows.
proof fn lemma_pair_listed_push(pairs: Seq<(usize, usize)>, x: (usize, usize), i: int, j: int)
    requires
        pair_listed(pairs, i, j),
    ensures
        pair_listed(pairs.push(x), i, j),
{
    let p = choose|p: int| 0 <= p < pairs.len() && (#[trigger] pairs[p]).0 == i && pairs[p].1 == j;
    assert(pairs.push(x)[p].0 == i && pairs.push(x)[p].1 == j);
}

/// Enumerate every unordered sample pair `(i, j)` with `i < j < n`,
/// each exactly once.
pub fn all_pairs(n: usize) -> (pairs: Vec<(usize, usize)>)
    ensures
        forall|p: int| 0 <= p < pairs@.len() ==> (#[trigger] pairs@[p]).0 < pairs@[p].1 < n,
        forall|p: int, q: int| 0 <= p < q < pairs@.len() ==> pairs@[p] != pairs@[q],
        forall|i: int, j: int| 0 <= i < j < n ==> #[trigger] pair_listed(pairs@, i, j),
{
    let mut pairs: Vec<(usize, usize)> = Vec::new();
    let mut i: usize = 0;
    while i < n
        invariant
            i <= n,
            forall|p: int|
                0 <= p < pairs@.len() ==> (#[trigger] pairs@[p]).0 < pairs@[p].1 < n
                    && pairs@[p].0 < i,
            forall|p: int, q: int| 0 <= p < q < pairs@.len() ==> pairs@[p] != pairs@[q],
            forall|x: int, y: int|
                0 <= x < y < n && x < i ==> #[trigger] pair_listed(pairs@, x, y),
        decreases n - i,
    {
        let mut j: usize = i + 1;
        while j < n
            invariant
                i < n,
                i + 1 <= j <= n,
                forall|p: int|
                    0 <= p < pairs@.len() ==> (#[trigger] pairs@[p]).0 < pairs@[p].1 < n && (
                    pairs@[p].0 < i || (pairs@[p].0 == i && pairs@[p].1 < j)),
                forall|p: int, q: int| 0 <= p < q < pairs@.len() ==> pairs@[p] != pairs@[q],
                forall|x: int, y: int|
                    0 <= x < y < n && (x < i || (x == i && y < j)) ==> #[trigger] pair_listed(
                        pairs@,
                        x,
                        y,
                    ),
            decreases n - j,
        {
            let ghost before = pairs@;
            pairs.push((i, j));
            proof {
                assert(pairs@ == before.push((i, j)));
                assert forall|x: int, y: int|
                    0 <= x < y < n && (x < i || (x == i && y < j + 1)) implies #[trigger] pair_listed(
                    pairs@,
                    x,
                    y,
                ) by {
                    if x == i && y == j {
                        assert(pairs@[before.len() as int].0 == x && pairs@[before.len() as int].1
                            == y);
                    } else {
                        lemma_pair_listed_push(before, (i, j), x, y);
                    }
                }
            }
            j = j + 1;
        }
        i = i + 1;
    }
    pairs
}

/// Scatter computed pair statistics into both mirror cells of the matrix,
/// one sequential pass after all pair computations have finished. Cells no
/// listed pair covers keep their prior value.
pub fn scatter_symmetric(
    matrix: &mut DistanceMatrix,
    pairs: &Vec<(usize, usize)>,
    results: &Vec<PairStat>,
)
    requires
        old(matrix).wf(),
        pairs@.len() == results@.len(),
        forall|p: int|
            0 <= p < pairs@.len() ==> (#[trigger] pairs@[p]).0 < pairs@[p].1 < old(
                matrix,
            ).num_samples,
        forall|p: int, q: int| 0 <= p < q < pairs@.len() ==> pairs@[p] != pairs@[q],
    ensures
        final(matrix).wf(),
        final(matrix).num_samples == old(matrix).num_samples,
        forall|p: int|
            0 <= p < pairs@.len() ==> #[trigger] final(matrix).spec_entry(
                pairs@[p].0 as int,
                pairs@[p].1 as int,
            ) == results@[p] && final(matrix).spec_entry(pairs@[p].1 as int, pairs@[p].0 as int)
                == results@[p],
        forall|x: int, y: int|
            0 <= x < final(matrix).num_samples && 0 <= y < final(matrix).num_samples
                ==> #[trigger] final(matrix).spec_entry(x, y) == old(matrix).spec_entry(x, y)
                || pair_listed(pairs@, x, y) || pair_listed(pairs@, y, x),
{
    let n = matrix.num_samples;
    let ghost ni = n as int;
    let mut p: usize = 0;
    while p < pairs.len()
        invariant
            p <= pairs@.len(),
            pairs@.len() == results@.len(),
            matrix.wf(),
            matrix.num_samples == n,
            n == old(matrix).num_samples,
            ni == n as int,
            forall|q: int|
                0 <= q < pairs@.len() ==> (#[trigger] pairs@[q]).0 < pairs@[q].1 < n,
            forall|q: int, r: int| 0 <= q < r < pairs@.len() ==> pairs@[q] != pairs@[r],
            forall|q: int|
                0 <= q < p ==> #[trigger] matrix.spec_entry(pairs@[q].0 as int, pairs@[q].1 as int)
                    == results@[q] && matrix.spec_entry(pairs@[q].1 as int, pairs@[q].0 as int)
                    == results@[q],
            forall|x: int, y: int|
                0 <= x < n && 0 <= y < n ==> #[trigger] matrix.spec_entry(x, y) == old(
                    matrix,
                ).spec_entry(x, y) || pair_listed(pairs@, x, y) || pair_listed(pairs@, y, x),
        decreases pairs@.len() - p,
    {
        let ghost mhead = *matrix;
        let (i, j) = pairs[p];
        let _len = matrix.entries.len();
        proof {
            lemma_cell_in_range(ni, i as int, j as int);
            lemma_cell_in_range(ni, j as int, i as int);
            assert(matrix.entries@.len() <= usize::MAX);
        }
        let d = results[p];
        let c1 = i * n + j;
        let c2 = j * n + i;
        matrix.entries.set(c1, d);
        matrix.entries.set(c2, d);
        proof {
            assert(matrix.entries@ == mhead.entries@.update(cell(ni, i as int, j as int), d).update(
                cell(ni, j as int, i as int),
                d,
            ));
            assert forall|q: int|
                0 <= q < p + 1 implies #[trigger] matrix.spec_entry(
                pairs@[q].0 as int,
                pairs@[q].1 as int,
            ) == results@[q] && matrix.spec_entry(pairs@[q].1 as int, pairs@[q].0 as int)
                == results@[q] by {
                let xq = pairs@[q].0 as int;
                let yq = pairs@[q].1 as int;
                lemma_cell_in_range(ni, xq, yq);
                lemma_cell_in_range(ni, yq, xq);
                if q < p {
                    assert(mhead.spec_entry(xq, yq) == results@[q]);
                    assert(mhead.spec_entry(yq, xq) == results@[q]);
                    if cell(ni, xq, yq) == cell(ni, i as int, j as int) {
                        lemma_cell_injective(ni, xq, yq, i as int, j as int);
                        assert(pairs@[q] == pairs@[p as int]);
                    }
                    if cell(ni, xq, yq) == cell(ni, j as int, i as int) {
                        lemma_cell_injective(ni, xq, yq, j as int, i as int);
                    }
                    if cell(ni, yq, xq) == cell(ni, i as int, j as int) {
                        lemma_cell_injective(ni, yq, xq, i as int, j as int);
                    }
                    if cell(ni, yq, xq) == cell(ni, j as int, i as int) {
                        lemma_cell_injective(ni, yq, xq, j as int, i as int);
                        assert(pairs@[q] == pairs@[p as int]);
                    }
                }
            }
            assert forall|x: int, y: int|
                0 <= x < n && 0 <= y < n implies #[trigger] matrix.spec_entry(x, y) == old(
                matrix,
            ).spec_entry(x, y) || pair_listed(pairs@, x, y) || pair_listed(pairs@, y, x) by {
                lemma_cell_in_range(ni, x, y);
                assert(mhead.spec_entry(x, y) == old(matrix).spec_entry(x, y) || pair_listed(
                    pairs@,
                    x,
                    y,
                ) || pair_listed(pairs@, y, x));
                if cell(ni, x, y) == cell(ni, i as int, j as int) {
                    lemma_cell_injective(ni, x, y, i as int, j as int);
                    assert((pairs@[p as int]).0 == x && pairs@[p as int].1 == y);
                    assert(pair_listed(pairs@, x, y));
                } else if cell(ni, x, y) == cell(ni, j as int, i as int) {
                    lemma_cell_injective(ni, x, y, j as int, i as int);
                    assert((pairs@[p as int]).0 == y && pairs@[p as int].1 == x);
                    assert(pair_listed(pairs@, y, x));
                }
            }
        }
        p = p + 1;
    }
}

/// Compute the full symmetric distance matrix of an aligned collection of
/// per-sample series: every unordered pair's statistic is computed once
/// and scattered into both mirror cells, the diagonal is never computed
/// and stays at the all-zero default.
pub fn distance_matrix(samples: &Vec<Vec<DosageCode>>) -> (m: DistanceMatrix)
    requires
        samples@.len() * samples@.len() <= usize::MAX,
        aligned(views_of(samples@)),
        forall|k: int|
            0 <= k < samples@.len() ==> (#[trigger] samples@[k])@.len() <= 0x7fff_ffff_ffff_ffff,
    ensures
        m.wf(),
        m.num_samples == samples@.len(),
        forall|i: int, j: int|
            0 <= i < samples@.len() && 0 <= j < samples@.len() ==> #[trigger] m.spec_entry(i, j)
                == spec_matrix_entry(views_of(samples@), i, j),
        forall|i: int, j: int|
            0 <= i < samples@.len() && 0 <= j < samples@.len() ==> #[trigger] m.spec_entry(i, j)
                == m.spec_entry(j, i),
        forall|i: int, j: int|
            0 <= i < samples@.len() && 0 <= j < samples@.len() ==> (#[trigger] m.spec_entry(
                i,
                j,
            )).diff_sum <= 2 * m.spec_entry(i, j).site_count,
{
    let ghost sv = views_of(samples@);
    let n = samples.len();
    let mut matrix = DistanceMatrix::new_zero(n);
    let pairs = all_pairs(n);
    let mut results: Vec<PairStat> = Vec::new();
    let mut p: usize = 0;
    while p < pairs.len()
        invariant
            p <= pairs@.len(),
            n == samples@.len(),
            sv == views_of(samples@),
            aligned(sv),
            forall|k: int|
                0 <= k < samples@.len() ==> (#[trigger] samples@[k])@.len()
                    <= 0x7fff_ffff_ffff_ffff,
            forall|q: int| 0 <= q < pairs@.len() ==> (#[trigger] pairs@[q]).0 < pairs@[q].1 < n,
            results@.len() == p,
            forall|q: int|
                0 <= q < p ==> #[trigger] results@[q] == spec_matrix_entry(
                    sv,
                    pairs@[q].0 as int,
                    pairs@[q].1 as int,
                ),
        decreases pairs@.len() - p,
    {
        let (i, j) = pairs[p];
        proof {
            assert(sv[i as int] == samples@[i as int]@);
            assert(sv[j as int] == samples@[j as int]@);
            assert(sv[i as int].len() == sv[0].len());
            assert(sv[j as int].len() == sv[0].len());
        }
        let d = pair_distance(&samples[i], &samples[j]);
        proof {
            lemma_distance_range(samples@[i as int]@, samples@[j as int]@);
            assert(d == spec_matrix_entry(sv, i as int, j as int));
        }
        results.push(d);
        p = p + 1;
    }
    let ghost mzero = matrix;
    scatter_symmetric(&mut matrix, &pairs, &results);
    proof {
        assert forall|i: int, j: int|
            0 <= i < samples@.len() && 0 <= j < samples@.len() implies #[trigger] matrix.spec_entry(
            i,
            j,
        ) == spec_matrix_entry(sv, i, j) by {
            if i < j {
                assert(pair_listed(pairs@, i, j));
                let q = choose|q: int|
                    0 <= q < pairs@.len() && (#[trigger] pairs@[q]).0 == i && pairs@[q].1 == j;
                assert(matrix.spec_entry(pairs@[q].0 as int, pairs@[q].1 as int) == results@[q]);
                assert(results@[q] == spec_matrix_entry(sv, pairs@[q].0 as int, pairs@[q].1 as int));
            } else if j < i {
                assert(pair_listed(pairs@, j, i));
                let q = choose|q: int|
                    0 <= q < pairs@.len() && (#[trigger] pairs@[q]).0 == j && pairs@[q].1 == i;
                assert(matrix.spec_entry(pairs@[q].0 as int, pairs@[q].1 as int) == results@[q]);
                assert(matrix.spec_entry(pairs@[q].1 as int, pairs@[q].0 as int) == results@[q]);
                assert(results@[q] == spec_matrix_entry(sv, pairs@[q].0 as int, pairs@[q].1 as int));
            } else {
                if pair_listed(pairs@, i, j) {
                    let q = choose|q: int|
                        0 <= q < pairs@.len() && (#[trigger] pairs@[q]).0 == i && pairs@[q].1 == j;
                    assert(false);
                }
                assert(mzero.spec_entry(i, j) == zero_stat());
                assert(matrix.spec_entry(i, j) == zero_stat());
            }
        }
        assert forall|i: int, j: int|
            0 <= i < samples@.len() && 0 <= j < samples@.len() implies (#[trigger] matrix.spec_entry(
            i,
            j,
        )).diff_sum <= 2 * matrix.spec_entry(i, j).site_count by {
            if i != j {
                let lo = if i < j {
                    i
                } else {
                    j
                };
                let hi = if i < j {
                    j
                } else {
                    i
                };
                lemma_distance_range(sv[lo], sv[hi]);
            }
        }
    }
    matrix
}

} // verus!
