//! Genotype decoder: raw genotype payload bytes to per-sample dosage codes.
//!
//! The canonical encoding: each sample's two allele calls occupy two
//! consecutive bytes; a byte encodes `(allele_index + 1) * 2 + phase_bit`,
//! so bytes 0 and 1 mean "no call", 2 and 3 mean the reference allele,
//! 4 and 5 the first alternate allele, and so on. The phase bit is ignored.

use vstd::prelude::*;
use crate::CoreError;

verus! {

/// One sample's decoded state at one site: a valid call (alternate-allele
/// dosage 0, 1 or 2), a missing call, or the sentinel that marks the site
/// unusable for distance computation.
#[derive(Clone, Copy, Debug, PartialEq, Eq, Structural)]
pub enum DosageCode {
    /// At least one of the two allele calls is absent.
    Missing,
    /// Both calls are the reference allele: dosage 0.
    Hom0,
    /// One reference and one alternate call: dosage 1.
    Het,
    /// Both calls are the alternate allele: dosage 2.
    Hom2,
    /// An allele index outside the biallelic range was seen; the site
    /// must be removed from every sample before distances are computed.
    Excluded,
}

/// The allele index a raw genotype byte encodes; -1 stands for "no call".
pub open spec fn allele_index(unit: u8) -> int {
    unit as int / 2 - 1
}

/// How one sample's pair of raw genotype bytes decodes.
pub open spec fn spec_decode_pair(a: u8, b: u8) -> DosageCode {
    if allele_index(a) == -1 || allele_index(b) == -1 {
        DosageCode::Missing
    } else if allele_index(a) >= 2 || allele_index(b) >= 2 {
        DosageCode::Excluded
    } else if allele_index(a) + allele_index(b) == 0 {
        DosageCode::Hom0
    } else if allele_index(a) + allele_index(b) == 1 {
        DosageCode::Het
    } else {
        DosageCode::Hom2
    }
}

/// Decode one sample's two allele bytes, discarding phase.
pub fn decode_pair(a: u8, b: u8) -> (code: DosageCode)
    ensures
        code == spec_decode_pair(a, b),
{
    let ia: i16 = a as i16 / 2 - 1;
    let ib: i16 = b as i16 / 2 - 1;
    if ia == -1 || ib == -1 {
        DosageCode::Missing
    } else if ia >= 2 || ib >= 2 {
        DosageCode::Excluded
    } else if ia + ib == 0 {
        DosageCode::Hom0
    } else if ia + ib == 1 {
        DosageCode::Het
    } else {
        DosageCode::Hom2
    }
}

/// The allele count a raw genotype block declares: the upper four bits of
/// its third byte. Only records declaring exactly two alleles are decodable.
pub open spec fn record_allele_count(raw: Seq<u8>) -> int
    recommends
        raw.len() >= 3,
{
    raw[2] as int / 16
}

/// A record that declares an allele count other than two is skipped:
/// it contributes no entry to any sample's series.
pub open spec fn record_skipped(raw: Seq<u8>) -> bool
    recommends
        raw.len() >= 3,
{
    record_allele_count(raw) != 2
}

/// A raw genotype block is well formed for `n` samples when its declaring
/// prefix is present and, if the record is decodable, it carries two bytes
/// for each sample after the three-byte prefix.
pub open spec fn record_well_formed(raw: Seq<u8>, n: nat) -> bool {
    raw.len() >= 3 && (record_skipped(raw) || raw.len() >= 3 + 2 * n)
}

/// The dosage codes a decodable record yields, one per sample.
pub open spec fn spec_decode_record(raw: Seq<u8>, n: nat) -> Seq<DosageCode>
    recommends
        raw.len() >= 3 + 2 * n,
{
    Seq::new(n, |k: int| spec_decode_pair(raw[3 + 2 * k], raw[3 + 2 * k + 1]))
}

/// Decode one record's raw genotype block into one dosage code per sample.
/// Returns `Ok(None)` when the record declares an allele count other than
/// two (the skip policy), and a format error when the block is too short
/// to hold its declaring prefix or two bytes per sample.
pub fn decode_record(raw: &Vec<u8>, num_samples: usize) -> (r: Result<
    Option<Vec<DosageCode>>,
    CoreError,
>)
    ensures
        r is Ok <==> record_well_formed(raw@, num_samples as nat),
        r is Err ==> r->Err_0 == CoreError::FormatError,
        r is Ok ==> ((r->Ok_0 is None) <==> record_skipped(raw@)),
        r matches Ok(Some(codes)) ==> codes@ == spec_decode_record(raw@, num_samples as nat),
{
    if raw.len() < 3 {
        return Err(CoreError::FormatError);
    }
    let count: u8 = raw[2] / 16;
    if count != 2 {
        return Ok(None);
    }
    if (raw.len() - 3) / 2 < num_samples {
        assert(raw@.len() < 3 + 2 * num_samples);
        return Err(CoreError::FormatError);
    }
    assert(raw@.len() >= 3 + 2 * num_samples);
    assert(3 + 2 * (num_samples as int) <= usize::MAX as int) by {
        assert(raw@.len() <= usize::MAX as int);
    }
    let mut codes: Vec<DosageCode> = Vec::new();
    let mut k: usize = 0;
    while k < num_samples
        invariant
            k <= num_samples,
            raw@.len() >= 3 + 2 * num_samples,
            3 + 2 * (num_samples as int) <= usize::MAX as int,
            codes@.len() == k,
            forall|m: int|
                0 <= m < k ==> codes@[m] == spec_decode_pair(
                    raw@[3 + 2 * m],
                    raw@[3 + 2 * m + 1],
                ),
        decreases num_samples - k,
    {
        let code = decode_pair(raw[3 + 2 * k], raw[3 + 2 * k + 1]);
        codes.push(code);
        k = k + 1;
    }
    assert(codes@ =~= spec_decode_record(raw@, num_samples as nat));
    Ok(Some(codes))
}

} // verus!
