//! Genotype aggregation: drive the decoder over one contig's records to
//! build per-sample dosage series, and merge series produced per contig
//! into genome-wide series, one per sample.

use vstd::prelude::*;
use crate::codec::{
    decode_record, record_skipped, record_well_formed, spec_decode_record, DosageCode,
};
use crate::CoreError;

verus! {

/// The mathematical views of a vector of sample series.
pub open spec fn views_of(s: Seq<Vec<DosageCode>>) -> Seq<Seq<DosageCode>> {
    Seq::new(s.len(), |k: int| s[k]@)
}

/// All series have the same length, so an index refers to the same site
/// in every sample's series.
pub open spec fn aligned(s: Seq<Seq<DosageCode>>) -> bool {
    forall|k: int| 0 <= k < s.len() ==> (#[trigger] s[k]).len() == s[0].len()
}

/// Every record of a contig is well formed for `n` samples.
pub open spec fn records_ok(records: Seq<Seq<u8>>, n: nat) -> bool {
    forall|t: int| 0 <= t < records.len() ==> record_well_formed(#[trigger] records[t], n)
}

/// The decoded sites a record stream yields, site-major and in record
/// order, with skipped records contributing no site at all.
pub open spec fn kept_sites(records: Seq<Seq<u8>>, n: nat) -> Seq<Seq<DosageCode>>
    decreases records.len(),
{
    if records.len() == 0 {
        Seq::empty()
    } else {
        let rest = kept_sites(records.drop_last(), n);
        if record_skipped(records.last()) {
            rest
        } else {
            rest.push(spec_decode_record(records.last(), n))
        }
    }
}

/// Skip policy: a record that declares an allele count other than two
/// contributes zero entries to every sample's series.
pub proof fn lemma_skip_policy(records: Seq<Seq<u8>>, raw: Seq<u8>, n: nat)
    requires
        raw.len() >= 3,
        record_skipped(raw),
    ensures
        kept_sites(records.push(raw), n) == kept_sites(records, n),
{
    assert(records.push(raw).drop_last() =~= records);
    assert(records.push(raw).last() == raw);
}

/// A decodable record appends exactly its decoded site.
pub proof fn lemma_kept_record(records: Seq<Seq<u8>>, raw: Seq<u8>, n: nat)
    requires
        raw.len() >= 3,
        !record_skipped(raw),
    ensures
        kept_sites(records.push(raw), n) == kept_sites(records, n).push(
            spec_decode_record(raw, n),
        ),
{
    assert(records.push(raw).drop_last() =~= records);
    assert(records.push(raw).last() == raw);
}

/// Decode one contig's record stream into site-major rows of dosage codes,
/// in record order; skipped records yield no row. Fails with a format
/// error exactly when some record is malformed.
pub fn decode_stream(records: &Vec<Vec<u8>>, num_samples: usize) -> (r: Result<
    Vec<Vec<DosageCode>>,
    CoreError,
>)
    ensures
        r is Ok <==> records_ok(views_of_bytes(records@), num_samples as nat),
        r is Err ==> r->Err_0 == CoreError::FormatError,
        r matches Ok(sites) ==> views_of(sites@) =~= kept_sites(
            views_of_bytes(records@),
            num_samples as nat,
        ),
{
    let ghost all = views_of_bytes(records@);
    let mut sites: Vec<Vec<DosageCode>> = Vec::new();
    let mut t: usize = 0;
    while t < records.len()
        invariant
            t <= records@.len(),
            all == views_of_bytes(records@),
            forall|u: int| 0 <= u < t ==> record_well_formed(#[trigger] all[u], num_samples as nat),
            views_of(sites@) =~= kept_sites(all.subrange(0, t as int), num_samples as nat),
        decreases records@.len() - t,
    {
        let ghost prefix = all.subrange(0, t as int);
        match decode_record(&records[t], num_samples) {
            Err(e) => {
                return Err(e);
            },
            Ok(None) => {
                proof {
                    lemma_skip_policy(prefix, all[t as int], num_samples as nat);
                    assert(prefix.push(all[t as int]) =~= all.subrange(0, t + 1));
                }
            },
            Ok(Some(codes)) => {
                sites.push(codes);
                proof {
                    lemma_kept_record(prefix, all[t as int], num_samples as nat);
                    assert(prefix.push(all[t as int]) =~= all.subrange(0, t + 1));
                }
            },
        }
        t = t + 1;
    }
    proof {
        assert(all.subrange(0, records@.len() as int) =~= all);
    }
    Ok(sites)
}

/// The mathematical views of a vector of byte records.
pub open spec fn views_of_bytes(s: Seq<Vec<u8>>) -> Seq<Seq<u8>> {
    Seq::new(s.len(), |t: int| s[t]@)
}

/// Turn site-major rows (one row per retained site, one entry per sample)
/// into sample-major series, one series per sample.
pub fn transpose_sites(sites: &Vec<Vec<DosageCode>>, num_samples: usize) -> (samples: Vec<
    Vec<DosageCode>,
>)
    requires
        forall|t: int| 0 <= t < sites@.len() ==> (#[trigger] sites@[t])@.len() == num_samples,
    ensures
        samples@.len() == num_samples,
        forall|k: int|
            0 <= k < num_samples ==> (#[trigger] samples@[k])@.len() == sites@.len(),
        forall|k: int, t: int|
            0 <= k < num_samples && 0 <= t < sites@.len() ==> #[trigger] samples@[k]@[t]
                == sites@[t]@[k],
{
    let mut samples: Vec<Vec<DosageCode>> = Vec::new();
    let mut k: usize = 0;
    while k < num_samples
        invariant
            k <= num_samples,
            forall|t: int| 0 <= t < sites@.len() ==> (#[trigger] sites@[t])@.len() == num_samples,
            samples@.len() == k,
            forall|m: int| 0 <= m < k ==> (#[trigger] samples@[m])@.len() == sites@.len(),
            forall|m: int, t: int|
                0 <= m < k && 0 <= t < sites@.len() ==> #[trigger] samples@[m]@[t]
                    == sites@[t]@[m],
        decreases num_samples - k,
    {
        let mut series: Vec<DosageCode> = Vec::new();
        let mut t: usize = 0;
        while t < sites.len()
            invariant
                t <= sites@.len(),
                k < num_samples,
                forall|u: int|
                    0 <= u < sites@.len() ==> (#[trigger] sites@[u])@.len() == num_samples,
                series@.len() == t,
                forall|u: int| 0 <= u < t ==> series@[u] == sites@[u]@[k as int],
            decreases sites@.len() - t,
        {
            let code = sites[t][k];
            series.push(code);
            t = t + 1;
        }
        samples.push(series);
        k = k + 1;
    }
    samples
}

/// One contig's per-sample series: the transpose of its retained sites.
pub open spec fn contig_series(records: Seq<Seq<u8>>, n: nat) -> Seq<Seq<DosageCode>> {
    Seq::new(
        n,
        |k: int| Seq::new(kept_sites(records, n).len(), |t: int| kept_sites(records, n)[t][k]),
    )
}

/// Aggregate one contig's record stream into `num_samples` equal-length
/// per-sample series: entry `t` of every series is that sample's dosage
/// code at the contig's `t`-th retained site.
pub fn aggregate_records(records: &Vec<Vec<u8>>, num_samples: usize) -> (r: Result<
    Vec<Vec<DosageCode>>,
    CoreError,
>)
    ensures
        r is Ok <==> records_ok(views_of_bytes(records@), num_samples as nat),
        r is Err ==> r->Err_0 == CoreError::FormatError,
        r matches Ok(samples) ==> {
            let kept = kept_sites(views_of_bytes(records@), num_samples as nat);
            &&& samples@.len() == num_samples
            &&& aligned(views_of(samples@))
            &&& forall|k: int|
                0 <= k < num_samples ==> (#[trigger] samples@[k])@.len() == kept.len()
            &&& forall|k: int, t: int|
                0 <= k < num_samples && 0 <= t < kept.len() ==> #[trigger] samples@[k]@[t]
                    == kept[t][k]
            &&& views_of(samples@) == contig_series(views_of_bytes(records@), num_samples as nat)
        },
{
    let ghost kept = kept_sites(views_of_bytes(records@), num_samples as nat);
    let sites = match decode_stream(records, num_samples) {
        Err(e) => {
            return Err(e);
        },
        Ok(sites) => sites,
    };
    proof {
        lemma_kept_sites_width(views_of_bytes(records@), num_samples as nat);
        assert(forall|t: int|
            0 <= t < sites@.len() ==> (#[trigger] sites@[t])@ == views_of(sites@)[t]);
    }
    let samples = transpose_sites(&sites, num_samples);
    proof {
        assert(forall|k: int, t: int|
            0 <= k < num_samples && 0 <= t < kept.len() ==> #[trigger] samples@[k]@[t]
                == kept[t][k]);
        assert(views_of(samples@) =~~= contig_series(
            views_of_bytes(records@),
            num_samples as nat,
        ));
    }
    Ok(samples)
}

/// A stream retains at most one site per record.
pub proof fn lemma_kept_sites_len(records: Seq<Seq<u8>>, n: nat)
    ensures
        kept_sites(records, n).len() <= records.len(),
    decreases records.len(),
{
    if records.len() > 0 {
        lemma_kept_sites_len(records.drop_last(), n);
    }
}

/// Every retained site row holds exactly one code per sample.
pub proof fn lemma_kept_sites_width(records: Seq<Seq<u8>>, n: nat)
    requires
        records_ok(records, n),
    ensures
        forall|t: int|
            0 <= t < kept_sites(records, n).len() ==> (#[trigger] kept_sites(records, n)[t]).len()
                == n,
    decreases records.len(),
{
    if records.len() > 0 {
        assert forall|t: int|
            0 <= t < records.drop_last().len() implies record_well_formed(
            #[trigger] records.drop_last()[t],
            n,
        ) by {
            assert(records.drop_last()[t] == records[t]);
        }
        lemma_kept_sites_width(records.drop_last(), n);
        let rest = kept_sites(records.drop_last(), n);
        let whole = kept_sites(records, n);
        assert forall|t: int| 0 <= t < whole.len() implies (#[trigger] whole[t]).len() == n by {
            if t < rest.len() {
                assert(whole[t] == rest[t]);
            } else {
                assert(whole[t] == spec_decode_record(records.last(), n));
            }
        }
    }
}

/// The sample-wise concatenation of two collections of per-sample series:
/// the merge step of the cross-contig reduction.
pub open spec fn spec_merge(a: Seq<Seq<DosageCode>>, b: Seq<Seq<DosageCode>>) -> Seq<
    Seq<DosageCode>,
>
    recommends
        a.len() == b.len(),
{
    Seq::new(a.len(), |k: int| a[k] + b[k])
}

/// The merge is associative, so a parallel reduction may combine partial
/// per-contig results in any tree shape, provided every sample's series
/// follows the same combination order.
pub proof fn lemma_merge_associative(
    a: Seq<Seq<DosageCode>>,
    b: Seq<Seq<DosageCode>>,
    c: Seq<Seq<DosageCode>>,
)
    requires
        a.len() == b.len(),
        b.len() == c.len(),
    ensures
        spec_merge(spec_merge(a, b), c) == spec_merge(a, spec_merge(b, c)),
{
    assert(spec_merge(spec_merge(a, b), c) =~~= spec_merge(a, spec_merge(b, c)));
}

/// A collection of empty series is the identity of the merge, so it can
/// seed a reduction over contigs.
pub proof fn lemma_merge_identity(a: Seq<Seq<DosageCode>>)
    ensures
        spec_merge(Seq::new(a.len(), |k: int| Seq::<DosageCode>::empty()), a) == a,
        spec_merge(a, Seq::new(a.len(), |k: int| Seq::<DosageCode>::empty())) == a,
{
    assert(spec_merge(Seq::new(a.len(), |k: int| Seq::<DosageCode>::empty()), a) =~~= a);
    assert(spec_merge(a, Seq::new(a.len(), |k: int| Seq::<DosageCode>::empty())) =~~= a);
}

/// Merging aligned collections keeps every sample aligned: entry `i` of a
/// merged series refers to the same site for every sample, whichever side
/// of the merge it came from.
pub proof fn lemma_merge_aligned(a: Seq<Seq<DosageCode>>, b: Seq<Seq<DosageCode>>)
    requires
        a.len() == b.len(),
        aligned(a),
        aligned(b),
    ensures
        aligned(spec_merge(a, b)),
{
}

/// Collection of `num_samples` fresh series, each preallocated for
/// `capacity_hint` sites; the hint only sizes allocations.
pub fn new_series_set(num_samples: usize, capacity_hint: usize) -> (samples: Vec<Vec<DosageCode>>)
    ensures
        samples@.len() == num_samples,
        forall|k: int| 0 <= k < num_samples ==> (#[trigger] samples@[k])@ == Seq::<
            DosageCode,
        >::empty(),
{
    let mut samples: Vec<Vec<DosageCode>> = Vec::new();
    let mut k: usize = 0;
    while k < num_samples
        invariant
            k <= num_samples,
            samples@.len() == k,
            forall|m: int| 0 <= m < k ==> (#[trigger] samples@[m])@ == Seq::<
                DosageCode,
            >::empty(),
        decreases num_samples - k,
    {
        let series: Vec<DosageCode> = Vec::with_capacity(capacity_hint);
        assert(series@ =~= Seq::<DosageCode>::empty());
        samples.push(series);
        k = k + 1;
    }
    samples
}

/// Merge two collections of per-sample series by concatenating, for every
/// sample, the second collection's series onto the first's.
pub fn merge_series(a: &Vec<Vec<DosageCode>>, b: &Vec<Vec<DosageCode>>) -> (r: Vec<
    Vec<DosageCode>,
>)
    requires
        a@.len() == b@.len(),
    ensures
        r@.len() == a@.len(),
        forall|k: int| 0 <= k < r@.len() ==> (#[trigger] r@[k])@ == a@[k]@ + b@[k]@,
        views_of(r@) == spec_merge(views_of(a@), views_of(b@)),
{
    let n = a.len();
    let mut r: Vec<Vec<DosageCode>> = Vec::new();
    let mut k: usize = 0;
    while k < n
        invariant
            k <= n,
            n == a@.len(),
            a@.len() == b@.len(),
            r@.len() == k,
            forall|m: int| 0 <= m < k ==> (#[trigger] r@[m])@ == a@[m]@ + b@[m]@,
        decreases n - k,
    {
        let mut series: Vec<DosageCode> = Vec::new();
        let mut t: usize = 0;
        let ak = &a[k];
        while t < ak.len()
            invariant
                t <= ak@.len(),
                series@ =~= ak@.subrange(0, t as int),
            decreases ak@.len() - t,
        {
            series.push(ak[t]);
            t = t + 1;
        }
        assert(series@ =~= ak@);
        let bk = &b[k];
        let mut u: usize = 0;
        while u < bk.len()
            invariant
                u <= bk@.len(),
                series@ =~= ak@ + bk@.subrange(0, u as int),
            decreases bk@.len() - u,
        {
            series.push(bk[u]);
            u = u + 1;
        }
        assert(series@ =~= ak@ + bk@);
        r.push(series);
        k = k + 1;
    }
    proof {
        assert(views_of(r@) =~~= spec_merge(views_of(a@), views_of(b@)));
    }
    r
}

} // verus!
