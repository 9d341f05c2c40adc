use pair_creation::cdf::{cdf_rate_entries, cdf_rate_entry, next_node_by_integration, next_node_by_summation, NodeGrid, RateEntry};
use pair_creation::fold::{half_from_draw, quadrant_from_draw, Quadrant, SHalf};
use pair_creation::harmonics::{distinct_harmonics, harmonic_index, HarmonicRequest};
use pair_creation::region::{rate_source, sampling_table, RateSource, TableRegion};

#[test]
fn negligible_rate_reads_no_table() {
    assert_eq!(rate_source(true, true, true), RateSource::Negligible);
    assert_eq!(rate_source(true, false, false), RateSource::Negligible);
}

#[test]
fn mid_range_table_is_preferred() {
    assert_eq!(rate_source(false, true, true), RateSource::Table(TableRegion::MidRange));
    assert_eq!(rate_source(false, true, false), RateSource::Table(TableRegion::MidRange));
    assert_eq!(rate_source(false, false, true), RateSource::Table(TableRegion::FullRange));
    assert_eq!(rate_source(false, false, false), RateSource::OutOfRange);
}

#[test]
fn sampling_uses_the_same_table() {
    assert_eq!(sampling_table(true, true), TableRegion::MidRange);
    assert_eq!(sampling_table(true, false), TableRegion::MidRange);
    assert_eq!(sampling_table(false, true), TableRegion::FullRange);
    for &(m, f) in &[(true, true), (true, false), (false, true)] {
        assert_eq!(rate_source(false, m, f), RateSource::Table(sampling_table(m, f)));
    }
}

#[test]
fn harmonics_sorted_without_repeats() {
    let reqs = vec![
        HarmonicRequest::Bracket(12),
        HarmonicRequest::Nearest(20),
        HarmonicRequest::Bracket(13),
        HarmonicRequest::Nearest(15),
        HarmonicRequest::Nearest(12),
        HarmonicRequest::Nearest(20),
    ];
    let table = distinct_harmonics(10, &reqs);
    assert_eq!(table, vec![10, 12, 13, 14, 15, 20]);
}

#[test]
fn harmonics_only_lowest_when_no_requests() {
    assert_eq!(distinct_harmonics(7, &vec![]), vec![7]);
}

#[test]
fn harmonics_table_independent_of_order() {
    let a = distinct_harmonics(3, &vec![HarmonicRequest::Nearest(9), HarmonicRequest::Bracket(4)]);
    let b = distinct_harmonics(3, &vec![HarmonicRequest::Bracket(4), HarmonicRequest::Nearest(9), HarmonicRequest::Nearest(5)]);
    assert_eq!(a, b);
    assert_eq!(a, vec![3, 4, 5, 9]);
}

#[test]
fn harmonic_lookup_finds_entries() {
    let table = vec![10, 12, 13, 14, 15, 20];
    assert_eq!(harmonic_index(&table, 10), Some(0));
    assert_eq!(harmonic_index(&table, 14), Some(3));
    assert_eq!(harmonic_index(&table, 20), Some(5));
    assert_eq!(harmonic_index(&table, 11), None);
    assert_eq!(harmonic_index(&table, 9), None);
    assert_eq!(harmonic_index(&table, 21), None);
    assert_eq!(harmonic_index(&vec![], 1), None);
}

#[test]
fn every_requested_harmonic_is_found() {
    let reqs = vec![
        HarmonicRequest::Bracket(100),
        HarmonicRequest::Nearest(130),
        HarmonicRequest::Bracket(101),
        HarmonicRequest::Nearest(250),
    ];
    let table = distinct_harmonics(95, &reqs);
    for r in &reqs {
        match *r {
            HarmonicRequest::Nearest(n) => assert!(harmonic_index(&table, n).is_some()),
            HarmonicRequest::Bracket(n) => {
                let i = harmonic_index(&table, n).unwrap();
                let j = harmonic_index(&table, n + 1).unwrap();
                assert_eq!(table[i], n);
                assert_eq!(table[j], n + 1);
            }
        }
    }
    assert_eq!(harmonic_index(&table, 95), Some(0));
}

#[test]
fn summation_node_pushed_past_previous() {
    assert_eq!(next_node_by_summation(10, 10), (11, true));
    assert_eq!(next_node_by_summation(10, 8), (11, true));
    assert_eq!(next_node_by_summation(10, 13), (13, false));
}

#[test]
fn integration_node_pushed_only_on_repeat() {
    assert_eq!(next_node_by_integration(10, 10), (11, true));
    assert_eq!(next_node_by_integration(i32::MAX, 5), (5, false));
    assert_eq!(next_node_by_integration(10, 8), (8, false));
    assert_eq!(next_node_by_integration(10, 13), (13, false));
}

#[test]
fn summation_grid_strictly_increases() {
    let mut grid = NodeGrid::new(4, true);
    let pushed: Vec<bool> = [4, 4, 5, 5, 5, 9, 8, 30].iter().map(|&c| grid.place(c)).collect();
    assert_eq!(grid.nodes(), vec![4, 5, 6, 7, 8, 9, 10, 11, 30]);
    assert_eq!(pushed, vec![true, true, true, true, true, true, true, false]);
    assert_eq!(grid.len(), 9);
    assert_eq!(grid.last(), 30);
}

#[test]
fn integration_grid_never_repeats() {
    let mut grid = NodeGrid::new(4, false);
    for &c in &[4, 5, 5, 3, 3, 10] {
        grid.place(c);
    }
    assert_eq!(grid.nodes(), vec![4, 5, 6, 5, 3, 4, 10]);
}

#[test]
fn cdf_entry_reads_own_harmonic_or_total() {
    assert_eq!(cdf_rate_entry(5, 5, 10), RateEntry::Own(0));
    assert_eq!(cdf_rate_entry(5, 9, 10), RateEntry::Own(4));
    assert_eq!(cdf_rate_entry(5, 14, 10), RateEntry::Own(9));
    assert_eq!(cdf_rate_entry(5, 15, 10), RateEntry::Total(9));
    assert_eq!(cdf_rate_entry(5, 1000, 10), RateEntry::Total(9));
    assert_eq!(cdf_rate_entry(-3, 2, 3), RateEntry::Total(2));
}

#[test]
fn cdf_entries_for_all_nodes() {
    let nodes = vec![5, 6, 8, 12, 20];
    assert_eq!(
        cdf_rate_entries(5, &nodes, 10),
        vec![RateEntry::Own(0), RateEntry::Own(1), RateEntry::Own(3), RateEntry::Own(7), RateEntry::Total(9)]
    );
    assert_eq!(cdf_rate_entries(5, &vec![], 10), Vec::<RateEntry>::new());
}

#[test]
fn cdf_entry_holds_node_harmonic() {
    let n_min = 12;
    let harmonics: Vec<i32> = (n_min..n_min + 8).collect();
    for node in n_min..n_min + 8 {
        match cdf_rate_entry(n_min, node, harmonics.len()) {
            RateEntry::Own(i) => assert_eq!(harmonics[i], node),
            RateEntry::Total(_) => panic!("node within the summed harmonics read the total"),
        }
    }
    assert_eq!(cdf_rate_entry(n_min, n_min + 8, harmonics.len()), RateEntry::Total(7));
}

#[test]
fn draws_map_to_halves_and_quadrants() {
    assert_eq!(half_from_draw(0), SHalf::Mirrored);
    assert_eq!(half_from_draw(1), SHalf::Kept);
    assert_eq!(quadrant_from_draw(0), Quadrant::First);
    assert_eq!(quadrant_from_draw(1), Quadrant::Second);
    assert_eq!(quadrant_from_draw(2), Quadrant::Third);
    assert_eq!(quadrant_from_draw(3), Quadrant::Fourth);
}
