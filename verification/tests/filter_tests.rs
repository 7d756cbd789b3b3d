use genodist::codec::DosageCode;
use genodist::filter::{apply_mask, filter_excluded, site_mask};

#[test]
fn mask_is_false_exactly_where_some_sample_is_excluded() {
    let samples = vec![
        vec![DosageCode::Hom0, DosageCode::Excluded, DosageCode::Het],
        vec![DosageCode::Het, DosageCode::Hom0, DosageCode::Hom2],
    ];
    assert_eq!(site_mask(&samples), vec![true, false, true]);
}

#[test]
fn missing_calls_do_not_mark_a_site_invalid() {
    let samples = vec![
        vec![DosageCode::Missing, DosageCode::Missing],
        vec![DosageCode::Hom0, DosageCode::Missing],
    ];
    assert_eq!(site_mask(&samples), vec![true, true]);
}

#[test]
fn one_excluded_call_removes_the_site_from_every_sample() {
    let samples = vec![
        vec![DosageCode::Hom0, DosageCode::Excluded, DosageCode::Het],
        vec![DosageCode::Het, DosageCode::Hom0, DosageCode::Hom2],
        vec![DosageCode::Hom2, DosageCode::Hom2, DosageCode::Missing],
    ];
    let filtered = filter_excluded(&samples);
    assert_eq!(
        filtered,
        vec![
            vec![DosageCode::Hom0, DosageCode::Het],
            vec![DosageCode::Het, DosageCode::Hom2],
            vec![DosageCode::Hom2, DosageCode::Missing],
        ]
    );
}

#[test]
fn filtering_without_exclusions_changes_nothing() {
    let samples = vec![
        vec![DosageCode::Hom0, DosageCode::Missing],
        vec![DosageCode::Het, DosageCode::Hom2],
    ];
    assert_eq!(filter_excluded(&samples), samples);
}

#[test]
fn all_sites_excluded_leaves_every_series_empty() {
    let samples = vec![
        vec![DosageCode::Excluded, DosageCode::Hom0],
        vec![DosageCode::Hom0, DosageCode::Excluded],
    ];
    let filtered = filter_excluded(&samples);
    assert_eq!(filtered, vec![Vec::new(), Vec::new()]);
}

#[test]
fn apply_mask_keeps_marked_sites_in_order() {
    let samples = vec![vec![
        DosageCode::Hom0,
        DosageCode::Het,
        DosageCode::Hom2,
        DosageCode::Missing,
    ]];
    let mask = vec![true, false, false, true];
    let filtered = apply_mask(&samples, &mask);
    assert_eq!(filtered, vec![vec![DosageCode::Hom0, DosageCode::Missing]]);
}
