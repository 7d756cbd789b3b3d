//! Site filter: compute the validity mask over all samples and apply it
//! identically to every sample's series, so that a site any sample marks
//! `Excluded` disappears from every series and the series stay aligned.

use vstd::prelude::*;
use crate::codec::DosageCode;
use crate::series::{aligned, views_of};

verus! {

/// A site is valid when no sample's code there is `Excluded`.
pub open spec fn site_ok(samples: Seq<Seq<DosageCode>>, t: int) -> bool {
    forall|k: int| 0 <= k < samples.len() ==> (#[trigger] samples[k])[t] != DosageCode::Excluded
}

/// The validity mask of an aligned collection of series: one entry per
/// site, true exactly where every sample's code is not `Excluded`.
pub open spec fn spec_site_mask(samples: Seq<Seq<DosageCode>>) -> Seq<bool>
    recommends
        samples.len() > 0,
{
    Seq::new(samples[0].len(), |t: int| site_ok(samples, t))
}

/// A series reduced to the entries the mask keeps, in order.
pub open spec fn masked(s: Seq<DosageCode>, m: Seq<bool>) -> Seq<DosageCode>
    recommends
        s.len() == m.len(),
    decreases m.len(),
{
    if m.len() == 0 || s.len() == 0 {
        Seq::empty()
    } else {
        let rest = masked(s.drop_last(), m.drop_last());
        if m.last() {
            rest.push(s.last())
        } else {
            rest
        }
    }
}

/// The site indices a mask keeps, in increasing order.
pub open spec fn kept_indices(m: Seq<bool>) -> Seq<int>
    decreases m.len(),
{
    if m.len() == 0 {
        Seq::empty()
    } else {
        let rest = kept_indices(m.drop_last());
        if m.last() {
            rest.push(m.len() - 1)
        } else {
            rest
        }
    }
}

/// Provenance of filtering: entry `i` of a masked series is the unfiltered
/// entry at the `i`-th kept site, the same site for every series the mask
/// is applied to, and the masked length is the number of kept sites.
pub proof fn lemma_masked_maps_kept(s: Seq<DosageCode>, m: Seq<bool>)
    requires
        s.len() == m.len(),
    ensures
        masked(s, m).len() == kept_indices(m).len(),
        forall|i: int|
            0 <= i < kept_indices(m).len() ==> 0 <= #[trigger] kept_indices(m)[i] < m.len(),
        forall|i: int|
            0 <= i < kept_indices(m).len() ==> #[trigger] masked(s, m)[i] == s[kept_indices(m)[i]],
    decreases m.len(),
{
    if m.len() > 0 {
        lemma_masked_maps_kept(s.drop_last(), m.drop_last());
        let rest_k = kept_indices(m.drop_last());
        let rest_m = masked(s.drop_last(), m.drop_last());
        assert forall|i: int| 0 <= i < rest_k.len() implies s.drop_last()[rest_k[i]] == s[
            rest_k[i]
        ] by {}
    }
}

/// A mask keeps at most as many sites as it covers.
pub proof fn lemma_kept_indices_len(m: Seq<bool>)
    ensures
        kept_indices(m).len() <= m.len(),
    decreases m.len(),
{
    if m.len() > 0 {
        lemma_kept_indices_len(m.drop_last());
    }
}

/// A mask keeps exactly the sites where it is true.
pub proof fn lemma_kept_indices_contains(m: Seq<bool>, t: int)
    ensures
        kept_indices(m).contains(t) <==> 0 <= t < m.len() && m[t],
    decreases m.len(),
{
    if m.len() > 0 {
        lemma_kept_indices_contains(m.drop_last(), t);
        let rest = kept_indices(m.drop_last());
        if 0 <= t < m.len() - 1 && m[t] {
            assert(m.drop_last()[t] == m[t]);
            let i = choose|i: int| 0 <= i < rest.len() && rest[i] == t;
            assert(kept_indices(m)[i] == t);
        } else if t == m.len() - 1 && m[t] {
            assert(kept_indices(m).last() == t);
        } else {
            if kept_indices(m).contains(t) {
                let i = choose|i: int|
                    0 <= i < kept_indices(m).len() && kept_indices(m)[i] == t;
                if i < rest.len() {
                    assert(rest[i] == t);
                    assert(rest.contains(t));
                    assert(0 <= t < m.drop_last().len() && m.drop_last()[t]);
                }
            }
        }
    }
}

/// Uniform exclusion: if any sample's code at site `t` is `Excluded`,
/// then no sample's filtered series keeps an entry for site `t`, and all
/// filtered series still share one length, the number of kept sites.
pub proof fn lemma_uniform_exclusion(samples: Seq<Seq<DosageCode>>, t: int, k0: int)
    requires
        samples.len() > 0,
        aligned(samples),
        0 <= k0 < samples.len(),
        0 <= t < samples[0].len(),
        samples[k0][t] == DosageCode::Excluded,
    ensures
        !kept_indices(spec_site_mask(samples)).contains(t),
        forall|k: int|
            0 <= k < samples.len() ==> masked(#[trigger] samples[k], spec_site_mask(samples)).len()
                == kept_indices(spec_site_mask(samples)).len(),
        forall|k: int, i: int|
            0 <= k < samples.len() && 0 <= i < kept_indices(spec_site_mask(samples)).len()
                ==> #[trigger] masked(samples[k], spec_site_mask(samples))[i] == samples[k][
                kept_indices(spec_site_mask(samples))[i]
            ],
{
    let m = spec_site_mask(samples);
    assert(!site_ok(samples, t));
    assert(!m[t]);
    lemma_kept_indices_contains(m, t);
    assert forall|k: int| 0 <= k < samples.len() implies masked(#[trigger] samples[k], m).len()
        == kept_indices(m).len() by {
        lemma_masked_maps_kept(samples[k], m);
    }
    assert forall|k: int, i: int|
        0 <= k < samples.len() && 0 <= i < kept_indices(m).len() implies samples[k][kept_indices(
        m,
    )[i]] == #[trigger] masked(samples[k], m)[i] by {
        lemma_masked_maps_kept(samples[k], m);
    }
}

/// Compute the validity mask: one entry per site, true exactly where no
/// sample's code is `Excluded`.
pub fn site_mask(samples: &Vec<Vec<DosageCode>>) -> (mask: Vec<bool>)
    requires
        samples@.len() > 0,
        aligned(views_of(samples@)),
    ensures
        mask@ == spec_site_mask(views_of(samples@)),
{
    let ghost sv = views_of(samples@);
    let num_sites = samples[0].len();
    let mut mask: Vec<bool> = Vec::new();
    let mut t: usize = 0;
    while t < num_sites
        invariant
            t <= num_sites,
            samples@.len() > 0,
            aligned(sv),
            sv == views_of(samples@),
            num_sites == sv[0].len(),
            mask@.len() == t,
            forall|u: int| 0 <= u < t ==> mask@[u] == site_ok(sv, u),
        decreases num_sites - t,
    {
        let mut ok = true;
        let mut k: usize = 0;
        while k < samples.len()
            invariant
                k <= samples@.len(),
                t < num_sites,
                aligned(sv),
                sv == views_of(samples@),
                num_sites == sv[0].len(),
                ok == forall|m: int|
                    0 <= m < k ==> (#[trigger] sv[m])[t as int] != DosageCode::Excluded,
            decreases samples@.len() - k,
        {
            proof {
                assert(sv[k as int] == samples@[k as int]@);
                assert(sv[k as int].len() == sv[0].len());
            }
            if samples[k][t] == DosageCode::Excluded {
                ok = false;
            }
            k = k + 1;
        }
        mask.push(ok);
        t = t + 1;
    }
    assert(mask@ =~= spec_site_mask(sv));
    mask
}

/// Apply one mask identically to every sample's series, keeping entries
/// in order at the sites the mask marks valid.
pub fn apply_mask(samples: &Vec<Vec<DosageCode>>, mask: &Vec<bool>) -> (r: Vec<Vec<DosageCode>>)
    requires
        forall|k: int| 0 <= k < samples@.len() ==> (#[trigger] samples@[k])@.len() == mask@.len(),
    ensures
        r@.len() == samples@.len(),
        forall|k: int| 0 <= k < r@.len() ==> (#[trigger] r@[k])@ == masked(samples@[k]@, mask@),
{
    let mut r: Vec<Vec<DosageCode>> = Vec::new();
    let mut k: usize = 0;
    while k < samples.len()
        invariant
            k <= samples@.len(),
            forall|m: int|
                0 <= m < samples@.len() ==> (#[trigger] samples@[m])@.len() == mask@.len(),
            r@.len() == k,
            forall|m: int| 0 <= m < k ==> (#[trigger] r@[m])@ == masked(samples@[m]@, mask@),
        decreases samples@.len() - k,
    {
        let sk = &samples[k];
        let mut series: Vec<DosageCode> = Vec::new();
        let mut t: usize = 0;
        while t < sk.len()
            invariant
                t <= sk@.len(),
                sk@.len() == mask@.len(),
                series@ == masked(sk@.subrange(0, t as int), mask@.subrange(0, t as int)),
            decreases sk@.len() - t,
        {
            proof {
                let sp = sk@.subrange(0, t + 1);
                let mp = mask@.subrange(0, t + 1);
                assert(sp.drop_last() =~= sk@.subrange(0, t as int));
                assert(mp.drop_last() =~= mask@.subrange(0, t as int));
                assert(sp.last() == sk@[t as int]);
                assert(mp.last() == mask@[t as int]);
            }
            if mask[t] {
                series.push(sk[t]);
            }
            t = t + 1;
        }
        proof {
            assert(sk@.subrange(0, sk@.len() as int) =~= sk@);
            assert(mask@.subrange(0, mask@.len() as int) =~= mask@);
        }
        r.push(series);
        k = k + 1;
    }
    r
}

/// Filter an aligned collection of series down to the sites no sample
/// marks `Excluded`, applying the one mask to every series.
pub fn filter_excluded(samples: &Vec<Vec<DosageCode>>) -> (r: Vec<Vec<DosageCode>>)
    requires
        samples@.len() > 0,
        aligned(views_of(samples@)),
    ensures
        r@.len() == samples@.len(),
        forall|k: int|
            0 <= k < r@.len() ==> (#[trigger] r@[k])@ == masked(
                samples@[k]@,
                spec_site_mask(views_of(samples@)),
            ),
        aligned(views_of(r@)),
{
    let ghost sv = views_of(samples@);
    let mask = site_mask(samples);
    assert forall|k: int| 0 <= k < samples@.len() implies (#[trigger] samples@[k])@.len()
        == mask@.len() by {
        assert(sv[k] == samples@[k]@);
    }
    let r = apply_mask(samples, &mask);
    proof {
        assert forall|k: int| 0 <= k < r@.len() implies (#[trigger] views_of(r@)[k]).len()
            == views_of(r@)[0].len() by {
            lemma_masked_maps_kept(samples@[k]@, mask@);
            lemma_masked_maps_kept(samples@[0]@, mask@);
        }
    }
    r
}

} // verus!
