//! Pairwise distance engine: for every unordered pair of samples, the sum
//! of absolute dosage differences and the number of jointly called sites,
//! an exact representation of the mean half-difference distance
//! `diff_sum / (2 * site_count)` (undefined when no site is jointly called).

use vstd::prelude::*;
use crate::codec::DosageCode;
use crate::series::{aligned, views_of};

verus! {

/// A dosage code that enters the distance mean: a valid call, neither
/// missing nor excluded.
pub open spec fn is_call(c: DosageCode) -> bool {
    c == DosageCode::Hom0 || c == DosageCode::Het || c == DosageCode::Hom2
}

/// The alternate-allele dosage of a valid call.
pub open spec fn dosage_of(c: DosageCode) -> int
    recommends
        is_call(c),
{
    match c {
        DosageCode::Hom0 => 0,
        DosageCode::Het => 1,
        DosageCode::Hom2 => 2,
        DosageCode::Missing => 0,
        DosageCode::Excluded => 0,
    }
}

/// Absolute difference of two integers.
pub open spec fn abs_diff(x: int, y: int) -> int {
    if x >= y {
        x - y
    } else {
        y - x
    }
}

/// The number of sites where both samples carry a valid call: the site
/// count the distance mean is taken over.
pub open spec fn joint_count(a: Seq<DosageCode>, b: Seq<DosageCode>) -> int
    recommends
        a.len() == b.len(),
    decreases a.len(),
{
    if a.len() == 0 || b.len() == 0 {
        0
    } else {
        joint_count(a.drop_last(), b.drop_last()) + if is_call(a.last()) && is_call(b.last()) {
            1int
        } else {
            0int
        }
    }
}

/// The sum of absolute dosage differences over the jointly called sites.
pub open spec fn abs_diff_sum(a: Seq<DosageCode>, b: Seq<DosageCode>) -> int
    recommends
        a.len() == b.len(),
    decreases a.len(),
{
    if a.len() == 0 || b.len() == 0 {
        0
    } else {
        abs_diff_sum(a.drop_last(), b.drop_last()) + if is_call(a.last()) && is_call(b.last()) {
            abs_diff(dosage_of(a.last()), dosage_of(b.last()))
        } else {
            0int
        }
    }
}

/// The distance statistic is symmetric in its two samples.
pub proof fn lemma_distance_symmetric(a: Seq<DosageCode>, b: Seq<DosageCode>)
    ensures
        joint_count(a, b) == joint_count(b, a),
        abs_diff_sum(a, b) == abs_diff_sum(b, a),
    decreases a.len(),
{
    if a.len() > 0 && b.len() > 0 {
        lemma_distance_symmetric(a.drop_last(), b.drop_last());
    }
}

/// Range: the difference sum never exceeds twice the site count, so the
/// represented distance lies in `[0, 1]` whenever it is defined, and the
/// site count never exceeds the series length.
pub proof fn lemma_distance_range(a: Seq<DosageCode>, b: Seq<DosageCode>)
    ensures
        0 <= joint_count(a, b),
        joint_count(a, b) <= a.len(),
        0 <= abs_diff_sum(a, b),
        abs_diff_sum(a, b) <= 2 * joint_count(a, b),
    decreases a.len(),
{
    if a.len() > 0 && b.len() > 0 {
        lemma_distance_range(a.drop_last(), b.drop_last());
    }
}

/// One unordered sample pair's distance statistic: the represented
/// distance is `diff_sum / (2 * site_count)`, taken as undefined (not a
/// number) when `site_count` is zero.
#[derive(Clone, Copy, Debug, PartialEq, Eq, Structural)]
pub struct PairStat {
    /// Sum of absolute dosage differences over jointly called sites.
    pub diff_sum: u64,
    /// Number of jointly called sites: the population of the mean.
    pub site_count: u64,
}

/// The all-zero statistic: the default a matrix cell holds before (or
/// instead of) being computed.
pub open spec fn zero_stat() -> PairStat {
    PairStat { diff_sum: 0, site_count: 0 }
}

/// Whether this code enters the distance mean.
fn code_is_call(c: DosageCode) -> (r: bool)
    ensures
        r == is_call(c),
{
    match c {
        DosageCode::Hom0 => true,
        DosageCode::Het => true,
        DosageCode::Hom2 => true,
        DosageCode::Missing => false,
        DosageCode::Excluded => false,
    }
}

/// The dosage of a valid call.
fn code_dosage(c: DosageCode) -> (v: u64)
    requires
        is_call(c),
    ensures
        v == dosage_of(c),
{
    match c {
        DosageCode::Hom0 => 0,
        DosageCode::Het => 1,
        DosageCode::Hom2 => 2,
        DosageCode::Missing => 0,
        DosageCode::Excluded => 0,
    }
}

/// Compute one pair's distance statistic. Sites where either sample is
/// missing or excluded contribute nothing; each jointly called site
/// contributes its absolute dosage difference and one observation.
pub fn pair_distance(a: &Vec<DosageCode>, b: &Vec<DosageCode>) -> (d: PairStat)
    requires
        a@.len() == b@.len(),
        a@.len() <= 0x7fff_ffff_ffff_ffff,
    ensures
        d.site_count == joint_count(a@, b@),
        d.diff_sum == abs_diff_sum(a@, b@),
        d.diff_sum <= 2 * d.site_count,
        d.site_count <= a@.len(),
{
    let mut diff_sum: u64 = 0;
    let mut site_count: u64 = 0;
    let mut t: usize = 0;
    while t < a.len()
        invariant
            t <= a@.len(),
            a@.len() == b@.len(),
            a@.len() <= 0x7fff_ffff_ffff_ffff,
            site_count == joint_count(a@.subrange(0, t as int), b@.subrange(0, t as int)),
            diff_sum == abs_diff_sum(a@.subrange(0, t as int), b@.subrange(0, t as int)),
            site_count <= t,
            diff_sum <= 2 * site_count,
        decreases a@.len() - t,
    {
        proof {
            let ap = a@.subrange(0, t + 1);
            let bp = b@.subrange(0, t + 1);
            assert(ap.drop_last() =~= a@.subrange(0, t as int));
            assert(bp.drop_last() =~= b@.subrange(0, t as int));
            assert(ap.last() == a@[t as int]);
            assert(bp.last() == b@[t as int]);
        }
        let ca = a[t];
        let cb = b[t];
        if code_is_call(ca) && code_is_call(cb) {
            let da = code_dosage(ca);
            let db = code_dosage(cb);
            let diff = if da >= db {
                da - db
            } else {
                db - da
            };
            diff_sum = diff_sum + diff;
            site_count = site_count + 1;
        }
        t = t + 1;
    }
    proof {
        assert(a@.subrange(0, a@.len() as int) =~= a@);
        assert(b@.subrange(0, b@.len() as int) =~= b@);
    }
    PairStat { diff_sum, site_count }
}

} // verus!
