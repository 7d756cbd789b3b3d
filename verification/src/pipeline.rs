//! The whole batch in one sequential pass: aggregate every contig's
//! records, merge the per-contig series in contig order, filter out the
//! sites any sample marks excluded, and compute the symmetric distance
//! matrix.

use vstd::prelude::*;
use crate::codec::DosageCode;
use crate::filter::{filter_excluded, lemma_kept_indices_len, lemma_masked_maps_kept, masked, spec_site_mask};
use crate::matrix::{distance_matrix, spec_matrix_entry, DistanceMatrix};
use crate::series::{
    aggregate_records, aligned, contig_series, lemma_kept_sites_len, merge_series,
    new_series_set, records_ok, spec_merge, views_of, views_of_bytes,
};
use crate::CoreError;

verus! {

/// The mathematical views of a per-contig collection of byte records.
pub open spec fn contig_views(contigs: Seq<Vec<Vec<u8>>>) -> Seq<Seq<Seq<u8>>> {
    Seq::new(contigs.len(), |c: int| views_of_bytes(contigs[c]@))
}

/// Every record of every contig is well formed for `n` samples.
pub open spec fn all_contigs_ok(contigs: Seq<Seq<Seq<u8>>>, n: nat) -> bool {
    forall|c: int| 0 <= c < contigs.len() ==> records_ok(#[trigger] contigs[c], n)
}

/// The number of records over all contigs: a bound on any series length.
pub open spec fn total_records(contigs: Seq<Seq<Seq<u8>>>) -> int
    decreases contigs.len(),
{
    if contigs.len() == 0 {
        0
    } else {
        total_records(contigs.drop_last()) + contigs.last().len()
    }
}

/// The genome-wide per-sample series: each contig's series concatenated
/// in contig order, sample by sample.
pub open spec fn genome_series(contigs: Seq<Seq<Seq<u8>>>, n: nat) -> Seq<Seq<DosageCode>>
    decreases contigs.len(),
{
    if contigs.len() == 0 {
        Seq::new(n, |k: int| Seq::<DosageCode>::empty())
    } else {
        spec_merge(genome_series(contigs.drop_last(), n), contig_series(contigs.last(), n))
    }
}

/// The genome-wide series after the site filter: what the distance engine
/// consumes.
pub open spec fn filtered_genome(contigs: Seq<Seq<Seq<u8>>>, n: nat) -> Seq<Seq<DosageCode>> {
    Seq::new(
        n,
        |k: int| masked(genome_series(contigs, n)[k], spec_site_mask(genome_series(contigs, n))),
    )
}

/// The genome-wide series stay aligned, one per sample, and no longer
/// than the total record count.
pub proof fn lemma_genome_series_shape(contigs: Seq<Seq<Seq<u8>>>, n: nat)
    ensures
        genome_series(contigs, n).len() == n,
        aligned(genome_series(contigs, n)),
        forall|k: int|
            0 <= k < n ==> (#[trigger] genome_series(contigs, n)[k]).len() <= total_records(
                contigs,
            ),
        total_records(contigs) >= 0,
    decreases contigs.len(),
{
    if contigs.len() > 0 {
        lemma_genome_series_shape(contigs.drop_last(), n);
        lemma_kept_sites_len(contigs.last(), n);
    }
}

/// Compute the full distance matrix of a genome split into per-contig
/// record streams: aggregate each contig, merge in contig order, filter
/// excluded sites uniformly, and compute every pair's statistic. Fails
/// with a format error exactly when some record is malformed.
pub fn genome_distance_matrix(contigs: &Vec<Vec<Vec<u8>>>, num_samples: usize) -> (r: Result<
    DistanceMatrix,
    CoreError,
>)
    requires
        num_samples > 0,
        num_samples * num_samples <= usize::MAX,
        total_records(contig_views(contigs@)) <= 0x7fff_ffff_ffff_ffff,
    ensures
        r is Ok <==> all_contigs_ok(contig_views(contigs@), num_samples as nat),
        r is Err ==> r->Err_0 == CoreError::FormatError,
        r matches Ok(m) ==> {
            &&& m.wf()
            &&& m.num_samples == num_samples
            &&& forall|i: int, j: int|
                0 <= i < num_samples && 0 <= j < num_samples ==> #[trigger] m.spec_entry(i, j)
                    == spec_matrix_entry(
                    filtered_genome(contig_views(contigs@), num_samples as nat),
                    i,
                    j,
                )
        },
{
    let ghost cv = contig_views(contigs@);
    let ghost n = num_samples as nat;
    let mut merged = new_series_set(num_samples, 0);
    proof {
        assert(views_of(merged@) =~~= genome_series(cv.subrange(0, 0), n));
    }
    let mut c: usize = 0;
    while c < contigs.len()
        invariant
            c <= contigs@.len(),
            cv == contig_views(contigs@),
            cv.len() == contigs@.len(),
            n == num_samples as nat,
            merged@.len() == num_samples,
            views_of(merged@) == genome_series(cv.subrange(0, c as int), n),
            forall|b: int| 0 <= b < c ==> records_ok(#[trigger] cv[b], n),
        decreases contigs@.len() - c,
    {
        proof {
            assert(views_of_bytes(contigs@[c as int]@) == cv[c as int]);
        }
        let part = match aggregate_records(&contigs[c], num_samples) {
            Err(e) => {
                return Err(e);
            },
            Ok(part) => part,
        };
        let next = merge_series(&merged, &part);
        proof {
            let pre = cv.subrange(0, c as int);
            assert(cv.subrange(0, c + 1).drop_last() =~= pre);
            assert(cv.subrange(0, c + 1).last() == cv[c as int]);
            assert(views_of(next@) =~~= spec_merge(views_of(merged@), views_of(part@)));
            assert(views_of(next@) =~~= genome_series(cv.subrange(0, c + 1), n));
        }
        merged = next;
        c = c + 1;
    }
    proof {
        assert(cv.subrange(0, contigs@.len() as int) =~= cv);
    }
    let ghost gs = genome_series(cv, n);
    proof {
        lemma_genome_series_shape(cv, n);
    }
    let filtered = filter_excluded(&merged);
    proof {
        assert(views_of(filtered@) =~~= filtered_genome(cv, n));
        assert(aligned(views_of(filtered@))) by {
            assert forall|k: int| 0 <= k < num_samples implies (#[trigger] views_of(filtered@)[k]).len()
                == views_of(filtered@)[0].len() by {
                assert(merged@[k]@ == gs[k]);
                assert(merged@[0]@ == gs[0]);
                lemma_masked_maps_kept(gs[k], spec_site_mask(gs));
                lemma_masked_maps_kept(gs[0], spec_site_mask(gs));
            }
        }
        assert forall|k: int| 0 <= k < filtered@.len() implies (#[trigger] filtered@[k])@.len()
            <= 0x7fff_ffff_ffff_ffff by {
            assert(merged@[k]@ == gs[k]);
            lemma_masked_maps_kept(gs[k], spec_site_mask(gs));
            lemma_kept_indices_len(spec_site_mask(gs));
        }
    }
    let m = distance_matrix(&filtered);
    proof {
        assert forall|i: int, j: int|
            0 <= i < num_samples && 0 <= j < num_samples implies #[trigger] m.spec_entry(i, j)
            == spec_matrix_entry(filtered_genome(cv, n), i, j) by {
            assert(m.spec_entry(i, j) == spec_matrix_entry(views_of(filtered@), i, j));
        }
    }
    Ok(m)
}

} // verus!
