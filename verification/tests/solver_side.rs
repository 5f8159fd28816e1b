use presence_tracker::solver::{
    in_limits, isqrt, multilaterate, Range, Solution, COORD_LIMIT_MM, MAX_ANCHORS,
    RANGE_LIMIT_MM,
};

fn range(x_mm: i64, y_mm: i64, distance_mm: u32) -> Range {
    Range { x_mm, y_mm, distance_mm }
}

/// Distance in metres for a signal strength, by the log-distance model.
fn distance_m(rssi: f64, rssi_at_1m: f64, exponent: f64) -> f64 {
    10f64.powf((rssi_at_1m - rssi) / (10.0 * exponent))
}

/// Signal strength at a distance in metres, by the log-distance model.
fn rssi_for(d: f64, rssi_at_1m: f64, exponent: f64) -> f64 {
    rssi_at_1m - 10.0 * exponent * d.log10()
}

#[test]
fn three_stations_find_the_emitter() {
    let stations = [(0.0f64, 0.0f64), (10.0, 0.0), (0.0, 10.0)];
    let emitter = (3.0f64, 4.0f64);
    let mut ranges = Vec::new();
    for (x, y) in stations {
        let true_d = ((emitter.0 - x).powi(2) + (emitter.1 - y).powi(2)).sqrt();
        let rssi = rssi_for(true_d, -45.0, 2.0);
        let d = distance_m(rssi, -45.0, 2.0);
        assert!((d - true_d).abs() <= 0.01 * true_d);
        ranges.push(range((x * 1000.0) as i64, (y * 1000.0) as i64, (d * 1000.0).round() as u32));
    }
    assert_eq!(ranges[0].distance_mm, 5_000);
    assert_eq!(ranges[1].distance_mm, 8_062);
    assert_eq!(ranges[2].distance_mm, 6_708);
    match multilaterate(&ranges) {
        Solution::Fix { x_mm, y_mm, residual_mm } => {
            assert!((x_mm - 3_000).abs() <= 10);
            assert!((y_mm - 4_000).abs() <= 10);
            assert!(residual_mm <= 10);
        }
        other => panic!("expected a fix, got {:?}", other),
    }
}

#[test]
fn exact_distances_give_the_exact_point() {
    let fix = Solution::Fix { x_mm: 3_000, y_mm: 4_000, residual_mm: 0 };
    assert_eq!(
        multilaterate(&vec![range(0, 0, 5_000), range(6_000, 0, 5_000), range(3_000, 8_000, 4_000)]),
        fix
    );
    assert_eq!(
        multilaterate(&vec![
            range(0, 0, 5_000),
            range(6_000, 0, 5_000),
            range(0, 8_000, 5_000),
            range(6_000, 8_000, 5_000)
        ]),
        fix
    );
    assert_eq!(
        multilaterate(&vec![range(3_000, 8_000, 4_000), range(0, 0, 5_000), range(6_000, 0, 5_000)]),
        fix
    );
}

#[test]
fn moving_the_stations_moves_the_fix() {
    let base = vec![range(0, 0, 4_000), range(10_000, 0, 9_000), range(0, 10_000, 6_000)];
    assert_eq!(multilaterate(&base), Solution::Fix { x_mm: 1_750, y_mm: 4_000, residual_mm: 273 });
    for (tx, ty) in [(1, 0), (-1_000, -1_000), (250_000, -260_000), (-262_144, 252_144)] {
        let moved: Vec<Range> =
            base.iter().map(|r| range(r.x_mm + tx, r.y_mm + ty, r.distance_mm)).collect();
        assert_eq!(
            multilaterate(&moved),
            Solution::Fix { x_mm: 1_750 + tx, y_mm: 4_000 + ty, residual_mm: 273 }
        );
    }
    let four = vec![
        range(0, 0, 1_000),
        range(100, 0, 1_005),
        range(0, 100, 1_005),
        range(200_000, 200_000, 290_000),
    ];
    assert_eq!(multilaterate(&four), Solution::Fix { x_mm: -5_124, y_mm: -5_124, residual_mm: 5_447 });
    let moved: Vec<Range> = four.iter().map(|r| range(r.x_mm + 5, r.y_mm - 7, r.distance_mm)).collect();
    assert_eq!(multilaterate(&moved), Solution::Fix { x_mm: -5_119, y_mm: -5_131, residual_mm: 5_447 });
}

#[test]
fn a_nearer_station_weighs_more() {
    let ranges = vec![
        range(0, 0, 7_000),
        range(10_000, 0, 3_000),
        range(0, 10_000, 12_000),
        range(10_000, 10_000, 9_000),
    ];
    assert_eq!(multilaterate(&ranges), Solution::Fix { x_mm: 7_044, y_mm: 956, residual_mm: 379 });
}

#[test]
fn fewer_than_three_anchors_are_too_few() {
    assert_eq!(multilaterate(&vec![]), Solution::InsufficientAnchors);
    assert_eq!(multilaterate(&vec![range(0, 0, 5_000)]), Solution::InsufficientAnchors);
    assert_eq!(
        multilaterate(&vec![range(0, 0, 5_000), range(10_000, 0, 8_062)]),
        Solution::InsufficientAnchors
    );
}

#[test]
fn stations_on_one_line_are_ill_conditioned() {
    assert_eq!(
        multilaterate(&vec![range(0, 0, 5_000), range(5_000, 0, 5_000), range(10_000, 0, 5_000)]),
        Solution::IllConditioned
    );
    assert_eq!(
        multilaterate(&vec![range(0, 0, 5_000), range(1_000, 1_000, 5_000), range(-3_000, -3_000, 1)]),
        Solution::IllConditioned
    );
    assert_eq!(
        multilaterate(&vec![range(7, 7, 5_000), range(7, 7, 4_000), range(7, 7, 3_000)]),
        Solution::IllConditioned
    );
}

#[test]
fn stations_all_but_on_one_spot_are_ill_conditioned() {
    assert_eq!(
        multilaterate(&vec![range(0, 0, 5_000), range(2, 0, 5_000), range(0, 2, 5_000)]),
        Solution::IllConditioned
    );
    assert_eq!(
        multilaterate(&vec![range(0, 0, 5_000), range(3, 0, 4_999), range(0, 3, 5_001)]),
        Solution::IllConditioned
    );
    assert_eq!(
        multilaterate(&vec![range(0, 0, 100), range(50, 0, 100), range(0, 50, 100)]),
        Solution::Fix { x_mm: 25, y_mm: 25, residual_mm: 65 }
    );
}

#[test]
fn a_solution_out_of_all_reach_is_ill_conditioned() {
    assert_eq!(
        multilaterate(&vec![range(0, 0, 100), range(100_000, 0, 524_288), range(200_000, 1, 100)]),
        Solution::IllConditioned
    );
    assert_eq!(
        multilaterate(&vec![range(0, 0, 5_000), range(10_000, 0, 5_000), range(20_000, 1, 5_000)]),
        Solution::Fix { x_mm: 5_000, y_mm: 100_000_000, residual_mm: 99_995_000 }
    );
}

#[test]
fn the_limits_are_as_told() {
    assert_eq!(MAX_ANCHORS, 16);
    assert_eq!(COORD_LIMIT_MM, 262_144);
    assert_eq!(RANGE_LIMIT_MM, 524_288);
    assert!(in_limits(&vec![]));
    assert!(in_limits(&vec![range(262_144, -262_144, 1), range(0, 0, 524_288)]));
    assert!(!in_limits(&vec![range(262_145, 0, 1)]));
    assert!(!in_limits(&vec![range(0, -262_145, 1)]));
    assert!(!in_limits(&vec![range(0, 0, 0)]));
    assert!(!in_limits(&vec![range(0, 0, 524_289)]));
    assert!(in_limits(&vec![range(0, 0, 1); 16]));
    assert!(!in_limits(&vec![range(0, 0, 1); 17]));
}

#[test]
fn the_corners_of_the_limits_are_solved() {
    let ranges = vec![
        range(262_144, 262_144, 524_288),
        range(-262_144, 262_144, 524_288),
        range(262_144, -262_144, 1),
    ];
    assert_eq!(
        multilaterate(&ranges),
        Solution::Fix { x_mm: 0, y_mm: -262_144, residual_mm: 159_559 }
    );
    let mut many = Vec::new();
    for i in 0..16i64 {
        many.push(range(500 * i, 300 * (i % 5), 3_000));
    }
    assert_eq!(multilaterate(&many), Solution::Fix { x_mm: 3_270, y_mm: -2_692, residual_mm: 1_197 });
}

#[test]
fn square_roots_are_rounded_down() {
    assert_eq!(isqrt(0), 0);
    assert_eq!(isqrt(1), 1);
    assert_eq!(isqrt(3), 1);
    assert_eq!(isqrt(4), 2);
    assert_eq!(isqrt(65_000_000), 8_062);
    assert_eq!(isqrt(99_999_999), 9_999);
    assert_eq!(isqrt(100_000_000), 10_000);
    assert_eq!(isqrt((1u128 << 126) - 1), (1u64 << 63) - 1);
    assert_eq!(isqrt(u64::MAX as u128), u32::MAX as u64);
}
