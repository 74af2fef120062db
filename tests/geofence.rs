use laptimer::geofence::{contains_point, cosine_of, genereate_polygon, lat_lon_comp, sine_of, GateConfig, Point};

fn p(lat: i64, lon: i64) -> Point {
    Point { lat, lon }
}

#[test]
fn test_poly() {
    let poly = genereate_polygon(373_244_790, -1_219_246_013, Some(450_000), GateConfig::standard());

    assert_eq!(contains_point(&poly, p(373_244_790, -1_219_246_013)), true);
    assert_eq!(contains_point(&poly, p(370_244_790, -1_219_246_013)), false);
    assert_eq!(contains_point(&poly, p(373_244_790, -1_215_246_013)), false);
}

#[test]
fn test_poly2() {
    let poly = genereate_polygon(373_244_322, -1_219_245_186, Some(1_091_828), GateConfig::standard());

    assert_eq!(contains_point(&poly, p(373_244_386, -1_219_245_781)), false);
    assert_eq!(contains_point(&poly, p(373_244_320, -1_219_245_090)), true);
}

#[test]
fn gate_corners_exact() {
    let g = genereate_polygon(373_244_790, -1_219_246_013, Some(450_000), GateConfig::standard());
    assert_eq!(g.front_left, p(373_245_171, -1_219_246_333));
    assert_eq!(g.back_left, p(373_245_044, -1_219_246_493));
    assert_eq!(g.back_right, p(373_244_409, -1_219_245_693));
    assert_eq!(g.front_right, p(373_244_536, -1_219_245_533));
}

#[test]
fn gate_is_deterministic() {
    for h in [None, Some(0u32), Some(123_456), Some(3_599_999)] {
        let a = genereate_polygon(-336_000_000, 1_511_000_000, h, GateConfig::standard());
        let b = genereate_polygon(-336_000_000, 1_511_000_000, h, GateConfig::standard());
        assert_eq!(a, b);
    }
}

#[test]
fn missing_heading_is_north() {
    let a = genereate_polygon(100_000_000, 200_000_000, None, GateConfig::standard());
    let b = genereate_polygon(100_000_000, 200_000_000, Some(0), GateConfig::standard());
    assert_eq!(a, b);
}

#[test]
fn own_position_inside_far_points_outside() {
    for h in [0u32, 450_000, 900_000, 1_700_000, 2_700_000, 3_500_000] {
        let g = genereate_polygon(515_000_000, -1_000_000, Some(h), GateConfig::standard());
        assert!(contains_point(&g, p(515_000_000, -1_000_000)));
        // about 300 m away along either axis
        assert!(!contains_point(&g, p(515_027_000, -1_000_000)));
        assert!(!contains_point(&g, p(514_973_000, -1_000_000)));
        assert!(!contains_point(&g, p(515_000_000, -957_000)));
        assert!(!contains_point(&g, p(515_000_000, -1_043_000)));
    }
}

#[test]
fn larger_gate_reaches_farther() {
    let small = genereate_polygon(0, 0, Some(0), GateConfig::standard());
    let big = genereate_polygon(0, 0, Some(0), GateConfig { half_length: 20_000, half_width: 5_000 });
    let q = p(300, 0);
    assert!(!contains_point(&small, q));
    assert!(contains_point(&big, q));
}

#[test]
fn sine_and_cosine_values() {
    assert_eq!(sine_of(0), 0);
    assert_eq!(sine_of(900_000), 1_000_000);
    assert_eq!(sine_of(2_700_000), -1_000_000);
    assert_eq!(sine_of(300_000), 500_000);
    assert_eq!(cosine_of(0), 1_000_000);
    assert_eq!(cosine_of(1_800_000), -1_000_000);
    assert_eq!(sine_of(3_600_000 + 900_000), 1_000_000);
}

#[test]
fn points_within_a_metre_match() {
    let a = p(373_244_790, -1_219_246_013);
    assert!(lat_lon_comp(a, a));
    assert!(lat_lon_comp(a, p(373_244_795, -1_219_246_010)));
    assert!(!lat_lon_comp(a, p(373_244_900, -1_219_246_013)));
    assert!(!lat_lon_comp(a, p(373_244_790, -1_219_246_200)));
    assert!(!lat_lon_comp(a, p(-373_244_790, 1_219_246_013)));
}

#[test]
fn matching_does_not_depend_on_order() {
    let a = p(485_308_999, 0);
    let b = p(485_309_045, 117);
    assert!(lat_lon_comp(a, b));
    assert!(lat_lon_comp(b, a));
    let c = p(485_309_045, 130);
    assert!(!lat_lon_comp(a, c));
    assert!(!lat_lon_comp(c, a));
}
