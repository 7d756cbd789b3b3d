use genodist::distance::PairStat;
use genodist::matrix::DistanceMatrix;
use genodist::pipeline::genome_distance_matrix;
use genodist::CoreError;

fn record(allele_count: u8, units: &[u8]) -> Vec<u8> {
    let mut raw = vec![0u8, 0u8, allele_count << 4 | 1];
    raw.extend_from_slice(units);
    raw
}

fn as_distance(d: PairStat) -> f64 {
    d.diff_sum as f64 / (2.0 * d.site_count as f64)
}

// Dosage byte pairs: 0 -> (2, 2), 1 -> (2, 4), 2 -> (4, 4).
fn three_sample_scenario() -> Vec<Vec<Vec<u8>>> {
    vec![vec![
        record(2, &[2, 2, 2, 4, 4, 4]),
        record(2, &[2, 2, 2, 2, 4, 4]),
    ]]
}

fn rows(m: &DistanceMatrix) -> Vec<Vec<PairStat>> {
    let n = m.num_samples;
    (0..n).map(|i| (0..n).map(|j| m.entry(i, j)).collect()).collect()
}

#[test]
fn three_samples_two_sites_end_to_end() {
    let contigs = three_sample_scenario();
    let m = genome_distance_matrix(&contigs, 3).unwrap();
    assert_eq!(m.num_samples, 3);
    assert!((as_distance(m.entry(0, 1)) - 0.25).abs() < 1e-12);
    assert!((as_distance(m.entry(0, 2)) - 1.0).abs() < 1e-12);
    assert!((as_distance(m.entry(1, 2)) - 0.75).abs() < 1e-12);
    for i in 0..3 {
        assert_eq!(m.entry(i, i), PairStat { diff_sum: 0, site_count: 0 });
        for j in 0..3 {
            assert_eq!(m.entry(i, j), m.entry(j, i));
        }
    }
}

#[test]
fn rerunning_on_identical_input_reproduces_the_matrix_exactly() {
    let contigs = three_sample_scenario();
    let first = genome_distance_matrix(&contigs, 3).unwrap();
    let second = genome_distance_matrix(&contigs, 3).unwrap();
    assert_eq!(rows(&first), rows(&second));
}

#[test]
fn contig_order_does_not_change_the_matrix() {
    let contig_a = vec![record(2, &[2, 2, 2, 4, 4, 4])];
    let contig_b = vec![record(2, &[2, 2, 2, 2, 4, 4])];
    let forward = vec![contig_a.clone(), contig_b.clone()];
    let backward = vec![contig_b, contig_a];
    let m1 = genome_distance_matrix(&forward, 3).unwrap();
    let m2 = genome_distance_matrix(&backward, 3).unwrap();
    assert_eq!(rows(&m1), rows(&m2));
}

#[test]
fn non_biallelic_record_changes_nothing_end_to_end() {
    let mut contigs = three_sample_scenario();
    contigs[0].insert(1, record(3, &[6, 6, 6, 6, 6, 6]));
    let with_skip = genome_distance_matrix(&contigs, 3).unwrap();
    let without = genome_distance_matrix(&three_sample_scenario(), 3).unwrap();
    assert_eq!(rows(&with_skip), rows(&without));
}

#[test]
fn excluded_site_is_dropped_for_every_pair() {
    // The third site carries an out-of-range allele for the first sample
    // only; no pair may count it.
    let mut contigs = three_sample_scenario();
    contigs[0].push(record(2, &[6, 6, 2, 2, 4, 4]));
    let m = genome_distance_matrix(&contigs, 3).unwrap();
    let base = genome_distance_matrix(&three_sample_scenario(), 3).unwrap();
    assert_eq!(rows(&m), rows(&base));
}

#[test]
fn malformed_record_aborts_with_a_format_error() {
    let contigs = vec![vec![record(2, &[2, 2])]];
    assert_eq!(genome_distance_matrix(&contigs, 3), Err(CoreError::FormatError));
}

#[test]
fn no_contigs_yields_an_all_default_matrix() {
    let contigs: Vec<Vec<Vec<u8>>> = Vec::new();
    let m = genome_distance_matrix(&contigs, 2).unwrap();
    for i in 0..2 {
        for j in 0..2 {
            assert_eq!(m.entry(i, j), PairStat { diff_sum: 0, site_count: 0 });
        }
    }
}
