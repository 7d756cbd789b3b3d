use genodist::codec::{decode_pair, decode_record, DosageCode};
use genodist::CoreError;

// A raw genotype block: three prefix bytes (the third declares the allele
// count in its upper four bits), then two allele bytes per sample.
fn record(allele_count: u8, units: &[u8]) -> Vec<u8> {
    let mut raw = vec![0u8, 0u8, allele_count << 4 | 1];
    raw.extend_from_slice(units);
    raw
}

#[test]
fn decode_pair_ref_ref_is_dosage_zero() {
    assert_eq!(decode_pair(2, 2), DosageCode::Hom0);
}

#[test]
fn decode_pair_ref_alt_either_order_is_dosage_one() {
    assert_eq!(decode_pair(2, 4), DosageCode::Het);
    assert_eq!(decode_pair(4, 2), DosageCode::Het);
}

#[test]
fn decode_pair_alt_alt_is_dosage_two() {
    assert_eq!(decode_pair(4, 4), DosageCode::Hom2);
}

#[test]
fn decode_pair_ignores_phase_bit() {
    assert_eq!(decode_pair(3, 3), DosageCode::Hom0);
    assert_eq!(decode_pair(5, 5), DosageCode::Hom2);
    assert_eq!(decode_pair(3, 4), DosageCode::Het);
}

#[test]
fn decode_pair_any_missing_unit_is_missing() {
    assert_eq!(decode_pair(0, 4), DosageCode::Missing);
    assert_eq!(decode_pair(2, 0), DosageCode::Missing);
    assert_eq!(decode_pair(0, 0), DosageCode::Missing);
    assert_eq!(decode_pair(1, 2), DosageCode::Missing);
}

#[test]
fn decode_pair_allele_index_beyond_alt_is_excluded() {
    assert_eq!(decode_pair(6, 2), DosageCode::Excluded);
    assert_eq!(decode_pair(2, 6), DosageCode::Excluded);
    assert_eq!(decode_pair(8, 8), DosageCode::Excluded);
    assert_eq!(decode_pair(7, 2), DosageCode::Excluded);
}

#[test]
fn decode_record_biallelic_yields_one_code_per_sample() {
    let raw = record(2, &[2, 2, 2, 4, 4, 4]);
    let codes = decode_record(&raw, 3).unwrap().unwrap();
    assert_eq!(codes, vec![DosageCode::Hom0, DosageCode::Het, DosageCode::Hom2]);
}

#[test]
fn decode_record_with_three_alleles_is_skipped() {
    let raw = record(3, &[2, 2, 2, 4, 4, 4]);
    assert_eq!(decode_record(&raw, 3).unwrap(), None);
}

#[test]
fn decode_record_with_one_allele_is_skipped() {
    let raw = record(1, &[2, 2, 2]);
    assert_eq!(decode_record(&raw, 3).unwrap(), None);
}

#[test]
fn decode_record_too_short_for_prefix_is_format_error() {
    let raw = vec![0u8, 0u8];
    assert_eq!(decode_record(&raw, 1), Err(CoreError::FormatError));
}

#[test]
fn decode_record_payload_short_of_two_bytes_per_sample_is_format_error() {
    let raw = record(2, &[2, 2, 2]);
    assert_eq!(decode_record(&raw, 2), Err(CoreError::FormatError));
}

#[test]
fn decode_record_trailing_bytes_are_ignored() {
    let raw = record(2, &[2, 4, 0, 0, 99, 99]);
    let codes = decode_record(&raw, 2).unwrap().unwrap();
    assert_eq!(codes, vec![DosageCode::Het, DosageCode::Missing]);
}
