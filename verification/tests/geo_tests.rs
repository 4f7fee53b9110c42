use hcxmap::geo::{
    epoch_timestamp, filter_close_observations, get_position_at, rssi_to_distance,
    signal_extremes, sort_observations_by_signal, sort_positions_by_timestamp, weighted_centroid,
    Observation, Position, MIN_DISTANCE_BETWEEN_OBS_MM,
};

fn pos(lat_e7: i64, lon_e7: i64, timestamp: i64) -> Position {
    Position {
        lat_e7,
        lon_e7,
        timestamp,
    }
}

fn obs(lat_e7: i64, lon_e7: i64, timestamp: i64, rssi: i8) -> Observation {
    Observation {
        position: pos(lat_e7, lon_e7, timestamp),
        signal_strength: rssi,
        distance_mm: rssi_to_distance(rssi),
    }
}

#[test]
fn rssi_distance_reference_point_is_one_meter() {
    // at the reference strength of -35 dBm the model says one meter
    assert_eq!(rssi_to_distance(-35), 1000);
}

#[test]
fn rssi_distance_known_values() {
    assert_eq!(rssi_to_distance(-100), 398107);
    assert_eq!(rssi_to_distance(0), 39);
    assert_eq!(rssi_to_distance(-60), 10000);
}

#[test]
fn rssi_distance_strictly_decreasing_on_range() {
    let mut prev = rssi_to_distance(-100);
    for r in -99..=0i8 {
        let d = rssi_to_distance(r);
        assert!(d < prev, "distance must drop from {} to {}", prev, d);
        prev = d;
    }
}

#[test]
fn position_at_empty_track_is_none() {
    assert_eq!(get_position_at(5, &vec![]), None);
}

#[test]
fn position_at_single_fix_returns_it() {
    let track = vec![pos(123, 456, 100)];
    let p = get_position_at(999, &track).unwrap();
    assert_eq!((p.lat_e7, p.lon_e7, p.timestamp), (123, 456, 100));
}

#[test]
fn position_at_interpolates_midpoint() {
    // fixes at t=0 (0, 0) and t=10 (1 degree, 1 degree)
    let track = vec![pos(0, 0, 0), pos(10_000_000, 10_000_000, 10)];
    let p = get_position_at(5, &track).unwrap();
    assert_eq!(p.lat_e7, 5_000_000);
    assert_eq!(p.lon_e7, 5_000_000);
    assert_eq!(p.timestamp, 5);
}

#[test]
fn position_at_outside_track_is_none() {
    let track = vec![pos(0, 0, 0), pos(10_000_000, 10_000_000, 10)];
    assert_eq!(get_position_at(11, &track), None);
    assert_eq!(get_position_at(-1, &track), None);
}

#[test]
fn position_at_equal_timestamps_takes_first() {
    let track = vec![pos(100, 200, 7), pos(300, 400, 7)];
    let p = get_position_at(7, &track).unwrap();
    assert_eq!((p.lat_e7, p.lon_e7, p.timestamp), (100, 200, 7));
}

#[test]
fn weighted_centroid_empty_is_none() {
    assert_eq!(weighted_centroid(&vec![]), None);
}

#[test]
fn weighted_centroid_equal_signals_is_midpoint() {
    let observations = vec![obs(10, 20, 50, -50), obs(30, 40, 60, -50)];
    let c = weighted_centroid(&observations).unwrap();
    assert_eq!((c.lat_e7, c.lon_e7), (20, 30));
    assert_eq!(c.timestamp, 50);
}

#[test]
fn weighted_centroid_zero_weight_falls_back_to_mean() {
    let observations = vec![
        obs(10, 12, 1, -100),
        obs(20, 24, 2, -100),
        obs(31, 33, 3, -100),
    ];
    let c = weighted_centroid(&observations).unwrap();
    // unweighted mean, rounded toward zero
    assert_eq!((c.lat_e7, c.lon_e7), (20, 23));
    assert_eq!(c.timestamp, 1);
}

#[test]
fn weighted_centroid_pulls_toward_stronger_signal() {
    let observations = vec![obs(0, 0, 1, -40), obs(10_000, 10_000, 2, -90)];
    let c = weighted_centroid(&observations).unwrap();
    assert!(c.lat_e7 < 5_000, "stronger signal should dominate: {}", c.lat_e7);
}

#[test]
fn sort_observations_strongest_first() {
    let mut observations = vec![obs(1, 1, 1, -80), obs(2, 2, 2, -40), obs(3, 3, 3, -60)];
    sort_observations_by_signal(&mut observations);
    let signals: Vec<i8> = observations.iter().map(|o| o.signal_strength).collect();
    assert_eq!(signals, vec![-40, -60, -80]);
}

#[test]
fn filter_keeps_strongest_and_separated() {
    // already sorted by signal: -40, -50, -60
    let observations = vec![obs(0, 0, 1, -40), obs(1, 1, 2, -50), obs(2, 2, 3, -60)];
    // index 1 is 3 m from index 0 (dropped), index 2 is 6 m from both
    let dist_mm = vec![
        vec![0, 3_000, 6_000],
        vec![3_000, 0, 6_000],
        vec![6_000, 6_000, 0],
    ];
    let mut filtered = observations.clone();
    filter_close_observations(&mut filtered, &dist_mm);
    assert_eq!(filtered.len(), 2);
    assert_eq!(filtered[0].signal_strength, -40);
    assert_eq!(filtered[1].signal_strength, -60);
}

#[test]
fn filter_threshold_is_five_meters() {
    assert_eq!(MIN_DISTANCE_BETWEEN_OBS_MM, 5_000);
    let observations = vec![obs(0, 0, 1, -40), obs(1, 1, 2, -50)];
    // exactly at the threshold: kept
    let dist_mm = vec![vec![0, 5_000], vec![5_000, 0]];
    let mut filtered = observations.clone();
    filter_close_observations(&mut filtered, &dist_mm);
    assert_eq!(filtered.len(), 2);
}

#[test]
fn filter_single_observation_untouched() {
    let observations = vec![obs(0, 0, 1, -40)];
    let dist_mm = vec![vec![0]];
    let mut filtered = observations.clone();
    filter_close_observations(&mut filtered, &dist_mm);
    assert_eq!(filtered.len(), 1);
}

#[test]
fn epoch_timestamp_known_values() {
    assert_eq!(epoch_timestamp(1970, 1, 1, 0, 0, 0), 0);
    assert_eq!(epoch_timestamp(2023, 1, 1, 0, 0, 0), 1_672_531_200);
    assert_eq!(epoch_timestamp(2024, 2, 29, 23, 59, 59), 1_709_251_199);
    assert_eq!(epoch_timestamp(2000, 3, 1, 12, 0, 0), 951_912_000);
}

#[test]
fn sort_positions_ascending() {
    let mut track = vec![pos(3, 3, 30), pos(1, 1, 10), pos(2, 2, 20)];
    sort_positions_by_timestamp(&mut track);
    let stamps: Vec<i64> = track.iter().map(|p| p.timestamp).collect();
    assert_eq!(stamps, vec![10, 20, 30]);
}

#[test]
fn rssi_distance_extremes_of_the_type() {
    // the strongest encodable signal rounds to nothing, the weakest to
    // a few kilometers
    assert_eq!(rssi_to_distance(127), 0);
    assert_eq!(rssi_to_distance(-128), 5_248_074);
}

#[test]
fn signal_extremes_weakest_and_strongest() {
    let observations = vec![obs(0, 0, 1, -70), obs(1, 1, 2, -40), obs(2, 2, 3, -55)];
    assert_eq!(signal_extremes(&observations), Some((-70, -40)));
    assert_eq!(signal_extremes(&vec![]), None);
    assert_eq!(signal_extremes(&vec![obs(0, 0, 1, -33)]), Some((-33, -33)));
}

#[test]
fn weighted_centroid_stays_in_bounding_box() {
    let observations = vec![
        obs(100, -300, 1, -45),
        obs(500, -100, 2, -80),
        obs(300, -200, 3, -60),
    ];
    let c = weighted_centroid(&observations).unwrap();
    assert!((100..=500).contains(&c.lat_e7));
    assert!((-300..=-100).contains(&c.lon_e7));
}
