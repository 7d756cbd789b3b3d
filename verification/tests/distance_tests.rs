use genodist::codec::DosageCode;
use genodist::distance::{pair_distance, PairStat};
use genodist::matrix::{all_pairs, distance_matrix, scatter_symmetric, DistanceMatrix};

// The real-number distance a statistic represents.
fn as_distance(d: PairStat) -> f64 {
    d.diff_sum as f64 / (2.0 * d.site_count as f64)
}

#[test]
fn pair_distance_sums_absolute_differences_over_called_sites() {
    let a = vec![DosageCode::Hom0, DosageCode::Het, DosageCode::Hom2];
    let b = vec![DosageCode::Hom0, DosageCode::Hom0, DosageCode::Hom0];
    let d = pair_distance(&a, &b);
    assert_eq!(d, PairStat { diff_sum: 3, site_count: 3 });
    assert!((as_distance(d) - 0.5).abs() < 1e-12);
}

#[test]
fn missing_calls_contribute_no_observation() {
    let a = vec![DosageCode::Missing, DosageCode::Hom2, DosageCode::Hom0];
    let b = vec![DosageCode::Hom0, DosageCode::Missing, DosageCode::Hom2];
    let d = pair_distance(&a, &b);
    assert_eq!(d, PairStat { diff_sum: 2, site_count: 1 });
    assert!((as_distance(d) - 1.0).abs() < 1e-12);
}

#[test]
fn no_jointly_called_site_yields_an_undefined_mean() {
    let a = vec![DosageCode::Missing, DosageCode::Hom0];
    let b = vec![DosageCode::Hom0, DosageCode::Missing];
    let d = pair_distance(&a, &b);
    assert_eq!(d.site_count, 0);
    assert!(as_distance(d).is_nan());
}

#[test]
fn represented_distance_stays_within_unit_interval() {
    let a = vec![DosageCode::Hom0, DosageCode::Hom2, DosageCode::Het];
    let b = vec![DosageCode::Hom2, DosageCode::Hom0, DosageCode::Het];
    let d = pair_distance(&a, &b);
    assert!(d.diff_sum <= 2 * d.site_count);
    let value = as_distance(d);
    assert!((0.0..=1.0).contains(&value));
    assert!((value - 2.0 / 3.0).abs() < 1e-12);
}

#[test]
fn all_pairs_enumerates_each_unordered_pair_once() {
    assert_eq!(all_pairs(4), vec![(0, 1), (0, 2), (0, 3), (1, 2), (1, 3), (2, 3)]);
    assert_eq!(all_pairs(1), Vec::<(usize, usize)>::new());
    assert_eq!(all_pairs(0), Vec::<(usize, usize)>::new());
}

#[test]
fn scatter_writes_both_mirror_cells_and_leaves_the_rest() {
    let mut matrix = DistanceMatrix::new_zero(3);
    let pairs = vec![(0usize, 2usize)];
    let results = vec![PairStat { diff_sum: 3, site_count: 4 }];
    scatter_symmetric(&mut matrix, &pairs, &results);
    assert_eq!(matrix.entry(0, 2), PairStat { diff_sum: 3, site_count: 4 });
    assert_eq!(matrix.entry(2, 0), PairStat { diff_sum: 3, site_count: 4 });
    assert_eq!(matrix.entry(0, 1), PairStat { diff_sum: 0, site_count: 0 });
    assert_eq!(matrix.entry(1, 1), PairStat { diff_sum: 0, site_count: 0 });
}

#[test]
fn distance_matrix_is_symmetric_with_zero_diagonal() {
    let samples = vec![
        vec![DosageCode::Hom0, DosageCode::Het, DosageCode::Missing],
        vec![DosageCode::Hom2, DosageCode::Hom0, DosageCode::Hom0],
        vec![DosageCode::Het, DosageCode::Het, DosageCode::Hom2],
    ];
    let m = distance_matrix(&samples);
    for i in 0..3 {
        assert_eq!(m.entry(i, i), PairStat { diff_sum: 0, site_count: 0 });
        for j in 0..3 {
            assert_eq!(m.entry(i, j), m.entry(j, i));
        }
    }
    assert_eq!(m.entry(0, 1), PairStat { diff_sum: 3, site_count: 2 });
    assert_eq!(m.entry(0, 2), PairStat { diff_sum: 1, site_count: 2 });
    assert_eq!(m.entry(1, 2), PairStat { diff_sum: 4, site_count: 3 });
}
