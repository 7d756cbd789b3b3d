use genodist::codec::DosageCode;
use genodist::series::{aggregate_records, merge_series, new_series_set};
use genodist::CoreError;

fn record(allele_count: u8, units: &[u8]) -> Vec<u8> {
    let mut raw = vec![0u8, 0u8, allele_count << 4 | 1];
    raw.extend_from_slice(units);
    raw
}

#[test]
fn aggregate_builds_equal_length_series_in_record_order() {
    let records = vec![
        record(2, &[2, 2, 2, 4, 4, 4]),
        record(2, &[2, 2, 2, 2, 4, 4]),
    ];
    let samples = aggregate_records(&records, 3).unwrap();
    assert_eq!(samples.len(), 3);
    assert_eq!(samples[0], vec![DosageCode::Hom0, DosageCode::Hom0]);
    assert_eq!(samples[1], vec![DosageCode::Het, DosageCode::Hom0]);
    assert_eq!(samples[2], vec![DosageCode::Hom2, DosageCode::Hom2]);
}

#[test]
fn skipped_record_contributes_zero_entries_to_every_series() {
    let with_skip = vec![
        record(2, &[2, 2, 2, 4, 4, 4]),
        record(3, &[4, 4, 4, 4, 4, 4]),
        record(2, &[2, 2, 2, 2, 4, 4]),
    ];
    let without = vec![
        record(2, &[2, 2, 2, 4, 4, 4]),
        record(2, &[2, 2, 2, 2, 4, 4]),
    ];
    let a = aggregate_records(&with_skip, 3).unwrap();
    let b = aggregate_records(&without, 3).unwrap();
    assert_eq!(a, b);
    for series in &a {
        assert_eq!(series.len(), 2);
    }
}

#[test]
fn aggregate_reports_malformed_record_as_format_error() {
    let records = vec![record(2, &[2, 2])];
    assert_eq!(aggregate_records(&records, 3), Err(CoreError::FormatError));
}

#[test]
fn aggregate_of_no_records_yields_empty_series() {
    let records: Vec<Vec<u8>> = Vec::new();
    let samples = aggregate_records(&records, 2).unwrap();
    assert_eq!(samples, vec![Vec::new(), Vec::new()]);
}

#[test]
fn merge_concatenates_sample_wise() {
    let a = vec![
        vec![DosageCode::Hom0],
        vec![DosageCode::Het],
    ];
    let b = vec![
        vec![DosageCode::Hom2, DosageCode::Missing],
        vec![DosageCode::Hom0, DosageCode::Excluded],
    ];
    let merged = merge_series(&a, &b);
    assert_eq!(
        merged,
        vec![
            vec![DosageCode::Hom0, DosageCode::Hom2, DosageCode::Missing],
            vec![DosageCode::Het, DosageCode::Hom0, DosageCode::Excluded],
        ]
    );
}

#[test]
fn merge_with_fresh_series_set_is_identity() {
    let empty = new_series_set(2, 16);
    let b = vec![
        vec![DosageCode::Hom0, DosageCode::Het],
        vec![DosageCode::Hom2, DosageCode::Missing],
    ];
    assert_eq!(merge_series(&empty, &b), b);
    assert_eq!(merge_series(&b, &empty), b);
}

#[test]
fn merge_is_associative_on_concrete_series() {
    let a = vec![vec![DosageCode::Hom0], vec![DosageCode::Het]];
    let b = vec![vec![DosageCode::Hom2], vec![DosageCode::Missing]];
    let c = vec![vec![DosageCode::Het], vec![DosageCode::Hom0]];
    let left = merge_series(&merge_series(&a, &b), &c);
    let right = merge_series(&a, &merge_series(&b, &c));
    assert_eq!(left, right);
}
