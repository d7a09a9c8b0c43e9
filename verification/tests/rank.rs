use nearest_aircraft::binary64::Binary64;
use nearest_aircraft::coords::Point;
use nearest_aircraft::rank::{
    any_nan, located, nearest, rank, report, with_distances, Located, RankError, RankedResult,
};
use nearest_aircraft::state::{OpenskyResponse, OpenskyState};

fn bits(x: f64) -> Binary64 {
    Binary64::from_bits(x.to_bits())
}

fn aircraft(icao24: &str, latitude: Option<f64>, longitude: Option<f64>) -> OpenskyState {
    OpenskyState {
        icao24: icao24.to_string(),
        callsign: "TEST1234".to_string(),
        origin_country: "Iceland".to_string(),
        time_position: Some(1_600_000_000),
        last_contact: 1_600_000_001,
        longitude: longitude.map(bits),
        latitude: latitude.map(bits),
        baro_altitude: Some(bits(10_000.0)),
        on_ground: false,
        velocity: Some(bits(250.0)),
        true_track: bits(90.0),
        vertical_rate: None,
        sensors: None,
        geo_altitude: None,
        squawk: Some("1571".to_string()),
        spi: false,
        position_source: 0,
    }
}

fn candidate(distance: f64, index: usize) -> RankedResult {
    RankedResult { distance: bits(distance), index }
}

fn shown(results: &Vec<RankedResult>) -> Vec<(u64, usize)> {
    results.iter().map(|r| (r.distance.to_bits(), r.index)).collect()
}

fn km(results: &Vec<RankedResult>) -> Vec<f64> {
    results.iter().map(|r| f64::from_bits(r.distance.to_bits())).collect()
}

#[test]
fn position_needs_both_coordinates() {
    let both = aircraft("a", Some(1.5), Some(-2.5));
    assert_eq!(both.position(), Some(Point { lat: bits(1.5), lon: bits(-2.5) }));
    assert_eq!(both.position().unwrap().lat.to_bits(), 1.5f64.to_bits());
    assert_eq!(both.position().unwrap().lon.to_bits(), (-2.5f64).to_bits());
    assert!(aircraft("b", None, Some(-2.5)).position().is_none());
    assert!(aircraft("c", Some(1.5), None).position().is_none());
    assert!(aircraft("d", None, None).position().is_none());
}

#[test]
fn located_keeps_the_aircraft_with_both_coordinates() {
    let response = OpenskyResponse {
        states: vec![
            aircraft("a", None, None),
            aircraft("b", Some(10.0), Some(20.0)),
            aircraft("c", Some(10.0), None),
            aircraft("d", None, Some(20.0)),
            aircraft("e", Some(-30.0), Some(-40.0)),
        ],
    };
    let found = located(&response.states);
    assert_eq!(found.len(), 2);
    assert_eq!(found[0].index, 1);
    assert_eq!(found[0].position, Point { lat: bits(10.0), lon: bits(20.0) });
    assert_eq!(found[1].index, 4);
    assert_eq!(found[1].position, Point { lat: bits(-30.0), lon: bits(-40.0) });
}

#[test]
fn located_of_nothing_is_nothing() {
    assert!(located(&Vec::new()).is_empty());
    assert!(located(&vec![aircraft("a", None, None), aircraft("b", Some(1.0), None)]).is_empty());
}

#[test]
fn located_keeps_all_when_all_are_known() {
    let states: Vec<OpenskyState> =
        (0..50).map(|i| aircraft("x", Some(i as f64), Some(-(i as f64)))).collect();
    let found = located(&states);
    assert_eq!(found.len(), 50);
    for (k, entry) in found.iter().enumerate() {
        assert_eq!(entry.index, k);
        assert_eq!(entry.position.lat.to_bits(), (k as f64).to_bits());
    }
}

#[test]
fn with_distances_joins_index_and_distance() {
    let places = vec![
        Located { index: 3, position: Point { lat: bits(1.0), lon: bits(2.0) } },
        Located { index: 7, position: Point { lat: bits(3.0), lon: bits(4.0) } },
    ];
    let joined = with_distances(&places, &vec![bits(12.5), bits(0.25)]).unwrap();
    assert_eq!(shown(&joined), vec![(12.5f64.to_bits(), 3), (0.25f64.to_bits(), 7)]);
    assert!(with_distances(&places, &vec![bits(12.5)]).is_none());
    assert!(with_distances(&places, &vec![bits(1.0), bits(2.0), bits(3.0)]).is_none());
    assert_eq!(with_distances(&Vec::new(), &Vec::new()).unwrap().len(), 0);
}

#[test]
fn rank_sorts_ascending_by_distance() {
    let ranked = rank(&vec![
        candidate(2887.2599506071106, 0),
        candidate(12.5, 1),
        candidate(0.0, 2),
        candidate(20015.0, 3),
        candidate(12.25, 4),
    ])
    .unwrap();
    assert_eq!(km(&ranked), vec![0.0, 12.25, 12.5, 2887.2599506071106, 20015.0]);
    assert_eq!(ranked.iter().map(|r| r.index).collect::<Vec<usize>>(), vec![2, 4, 1, 0, 3]);
}

#[test]
fn rank_orders_equal_distances_by_index() {
    let ranked = rank(&vec![
        candidate(5.0, 9),
        candidate(1.0, 4),
        candidate(5.0, 2),
        candidate(1.0, 8),
        candidate(5.0, 5),
    ])
    .unwrap();
    assert_eq!(
        shown(&ranked),
        vec![
            (1.0f64.to_bits(), 4),
            (1.0f64.to_bits(), 8),
            (5.0f64.to_bits(), 2),
            (5.0f64.to_bits(), 5),
            (5.0f64.to_bits(), 9),
        ]
    );
}

#[test]
fn rank_puts_negative_numbers_and_infinities_in_order() {
    let ranked = rank(&vec![
        candidate(f64::INFINITY, 0),
        candidate(-1.0, 1),
        candidate(1e-300, 2),
        candidate(f64::NEG_INFINITY, 3),
        candidate(-1e-300, 4),
        candidate(1.0, 5),
    ])
    .unwrap();
    assert_eq!(
        km(&ranked),
        vec![f64::NEG_INFINITY, -1.0, -1e-300, 1e-300, 1.0, f64::INFINITY]
    );
}

#[test]
fn rank_takes_the_two_zeros_as_equal() {
    let ranked = rank(&vec![candidate(0.0, 3), candidate(-0.0, 1), candidate(0.0, 2)]).unwrap();
    assert_eq!(ranked.iter().map(|r| r.index).collect::<Vec<usize>>(), vec![1, 2, 3]);
}

#[test]
fn rank_keeps_every_candidate() {
    let mut input = Vec::new();
    let mut seed: u64 = 0x2545_f491_4f6c_dd1d;
    for index in 0..500 {
        seed ^= seed << 13;
        seed ^= seed >> 7;
        seed ^= seed << 17;
        input.push(candidate((seed % 20_000) as f64 / 7.0, index));
    }
    let ranked = rank(&input).unwrap();
    assert_eq!(ranked.len(), input.len());
    let mut expected = shown(&input);
    expected.sort();
    assert_eq!(shown(&ranked), expected);
    let by_std = {
        let mut v = input.clone();
        v.sort_by(|a, b| {
            f64::from_bits(a.distance.to_bits())
                .partial_cmp(&f64::from_bits(b.distance.to_bits()))
                .unwrap()
        });
        km(&v)
    };
    assert_eq!(km(&ranked), by_std);
}

#[test]
fn rank_of_nothing_is_nothing() {
    assert_eq!(rank(&Vec::new()).unwrap().len(), 0);
}

#[test]
fn rank_of_one_is_that_one() {
    let ranked = rank(&vec![candidate(42.0, 17)]).unwrap();
    assert_eq!(shown(&ranked), vec![(42.0f64.to_bits(), 17)]);
}

#[test]
fn rank_fails_on_a_nan_among_several() {
    assert_eq!(
        rank(&vec![candidate(1.0, 0), candidate(f64::NAN, 1)]).err(),
        Some(RankError::NanDistance)
    );
    assert_eq!(
        rank(&vec![candidate(f64::NAN, 0), candidate(1.0, 1), candidate(2.0, 2)]).err(),
        Some(RankError::NanDistance)
    );
    assert_eq!(
        rank(&vec![candidate(f64::NAN, 0), candidate(-f64::NAN, 1)]).err(),
        Some(RankError::NanDistance)
    );
}

#[test]
fn a_lone_nan_is_ranked_as_it_is() {
    let ranked = rank(&vec![candidate(f64::NAN, 3)]).unwrap();
    assert_eq!(ranked.len(), 1);
    assert_eq!(ranked[0].index, 3);
    assert!(ranked[0].distance.is_nan());
    let found = nearest(&vec![candidate(f64::NAN, 3)]).unwrap();
    assert_eq!(found.located, 1);
    assert_eq!(found.nearest.index, 3);
}

#[test]
fn any_nan_finds_a_nan_wherever_it_stands() {
    assert!(!any_nan(&Vec::new()));
    assert!(!any_nan(&vec![candidate(1.0, 0), candidate(f64::INFINITY, 1)]));
    assert!(any_nan(&vec![candidate(f64::NAN, 0), candidate(1.0, 1)]));
    assert!(any_nan(&vec![candidate(1.0, 0), candidate(f64::NAN, 1)]));
    assert!(any_nan(&vec![candidate(1.0, 0), candidate(2.0, 1), candidate(-f64::NAN, 2)]));
}

#[test]
fn report_of_an_empty_ranking_is_no_results() {
    assert_eq!(report(&Vec::new()).err(), Some(RankError::NoResults));
}

#[test]
fn report_counts_and_takes_the_head() {
    let found = report(&vec![candidate(1.5, 8), candidate(2.5, 3), candidate(2.5, 4)]).unwrap();
    assert_eq!(found.located, 3);
    assert_eq!(found.nearest.index, 8);
    assert_eq!(found.nearest.distance.to_bits(), 1.5f64.to_bits());
}

#[test]
fn nearest_without_candidates_is_no_results() {
    assert_eq!(nearest(&Vec::new()).err(), Some(RankError::NoResults));
}

#[test]
fn nearest_is_the_smallest_distance() {
    let found = nearest(&vec![
        candidate(2887.2599506071106, 0),
        candidate(431.5, 1),
        candidate(9000.0, 2),
        candidate(431.25, 3),
    ])
    .unwrap();
    assert_eq!(found.located, 4);
    assert_eq!(found.nearest.index, 3);
    assert_eq!(f64::from_bits(found.nearest.distance.to_bits()), 431.25);
}

#[test]
fn nearest_among_equals_is_the_smallest_index() {
    let found = nearest(&vec![candidate(7.0, 5), candidate(7.0, 2), candidate(7.0, 9)]).unwrap();
    assert_eq!(found.nearest.index, 2);
}

#[test]
fn nearest_fails_on_a_nan_among_several() {
    assert_eq!(
        nearest(&vec![candidate(1.0, 0), candidate(f64::NAN, 1)]).err(),
        Some(RankError::NanDistance)
    );
}

#[test]
fn no_located_aircraft_means_no_results() {
    let states = vec![
        aircraft("a", None, None),
        aircraft("b", Some(1.0), None),
        aircraft("c", None, Some(2.0)),
    ];
    let places = located(&states);
    let candidates = with_distances(&places, &Vec::new()).unwrap();
    assert_eq!(nearest(&candidates).err(), Some(RankError::NoResults));
}

#[test]
fn the_ranking_leaves_out_exactly_the_unlocated() {
    let states = vec![
        aircraft("a", Some(64.0), Some(-21.0)),
        aircraft("b", None, Some(-21.0)),
        aircraft("c", Some(51.0), Some(0.0)),
        aircraft("d", None, None),
        aircraft("e", Some(40.0), Some(-74.0)),
        aircraft("f", Some(40.0), None),
    ];
    let places = located(&states);
    let distances = vec![bits(300.0), bits(100.0), bits(200.0)];
    let candidates = with_distances(&places, &distances).unwrap();
    let ranked = rank(&candidates).unwrap();
    let known = states.iter().filter(|s| s.latitude.is_some() && s.longitude.is_some()).count();
    assert_eq!(ranked.len(), known);
    assert_eq!(ranked.len(), 3);
    assert_eq!(ranked.iter().map(|r| r.index).collect::<Vec<usize>>(), vec![2, 4, 0]);
    for (i, state) in states.iter().enumerate() {
        let ranked_here = ranked.iter().filter(|r| r.index == i).count();
        let expected = if state.latitude.is_some() && state.longitude.is_some() { 1 } else { 0 };
        assert_eq!(ranked_here, expected, "state {}", i);
    }
    let found = nearest(&candidates).unwrap();
    assert_eq!(found.located, 3);
    assert_eq!(states[found.nearest.index].icao24, "c");
}

#[test]
fn of_two_zeros_at_one_index_the_positive_comes_first() {
    let ranked = rank(&vec![candidate(-0.0, 1), candidate(0.0, 1)]).unwrap();
    assert_eq!(shown(&ranked), vec![(0.0f64.to_bits(), 1), ((-0.0f64).to_bits(), 1)]);
}

#[test]
fn ranks_before_is_the_order_of_the_ranking() {
    assert!(candidate(1.0, 5).ranks_before(&candidate(2.0, 0)));
    assert!(!candidate(2.0, 0).ranks_before(&candidate(1.0, 5)));
    assert!(candidate(1.0, 2).ranks_before(&candidate(1.0, 3)));
    assert!(!candidate(1.0, 3).ranks_before(&candidate(1.0, 2)));
    assert!(candidate(1.0, 2).ranks_before(&candidate(1.0, 2)));
    assert!(candidate(-0.0, 2).ranks_before(&candidate(0.0, 3)));
    assert!(candidate(0.0, 2).ranks_before(&candidate(-0.0, 2)));
    assert!(!candidate(-0.0, 2).ranks_before(&candidate(0.0, 2)));
    assert!(candidate(-1.0, 9).ranks_before(&candidate(0.0, 0)));
}

#[test]
fn the_same_candidates_in_any_order_give_the_same_ranking() {
    let forward: Vec<RankedResult> =
        (0..40).map(|i| candidate(((i * 37) % 11) as f64, i)).collect();
    let mut backward = forward.clone();
    backward.reverse();
    let mut rotated = forward.clone();
    rotated.rotate_left(13);
    let expected = shown(&rank(&forward).unwrap());
    assert_eq!(shown(&rank(&backward).unwrap()), expected);
    assert_eq!(shown(&rank(&rotated).unwrap()), expected);
    let a = nearest(&forward).unwrap();
    let b = nearest(&backward).unwrap();
    assert_eq!((a.located, a.nearest.index), (b.located, b.nearest.index));
    assert_eq!(a.nearest.distance.to_bits(), b.nearest.distance.to_bits());
}
