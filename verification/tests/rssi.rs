use sensor_core::environment::Environment;
use sensor_core::rssi::{calculate_rssi_median, rssi_to_distance, trilaterate, CALIBRATED_RSSI_AT_1M};
use sensor_core::sensors::{Sample, SensorCandidate, COORD_LIMIT_MM};

fn window(readings: &[i8]) -> Vec<Sample> {
    readings.iter().map(|&rssi| Sample { rssi, at_ms: 0 }).collect()
}

#[test]
fn median_odd_window_is_middle_element() {
    let w = window(&[-70, -75, -72]);
    assert_eq!(calculate_rssi_median(&w), -72);
}

#[test]
fn median_even_window_is_upper_middle_not_average() {
    // sorted: -75, -72, -71, -70; index 4 / 2 = 2 -> -71, not (-72 + -71) / 2
    let w = window(&[-70, -75, -72, -71]);
    assert_eq!(calculate_rssi_median(&w), -71);
}

#[test]
fn median_is_present_in_window() {
    let w = window(&[-40, -90, -63, -55, -81, -63]);
    let m = calculate_rssi_median(&w);
    assert!(w.iter().any(|s| s.rssi == m));
}

#[test]
fn median_single_sample() {
    let w = window(&[-88]);
    assert_eq!(calculate_rssi_median(&w), -88);
}

#[test]
fn distance_at_reference_rssi_is_one_meter() {
    assert_eq!(rssi_to_distance(CALIBRATED_RSSI_AT_1M, Environment::FreeSpace), 1000);
}

#[test]
fn distance_twenty_db_below_reference_is_ten_meters_in_free_space() {
    // 10 ^ (20 / (10 * 2.0)) = 10 exactly
    assert_eq!(rssi_to_distance(-90, Environment::FreeSpace), 10_000);
}

#[test]
fn distance_seven_db_below_reference() {
    // 10 ^ (7 / 20) meters = 2.2387 m, in millimeters with the model's rounding
    let d = rssi_to_distance(-77, Environment::FreeSpace);
    assert!((d - 2239).abs() <= 2, "distance was {d}");
}

#[test]
fn distance_is_monotone_decreasing_in_rssi() {
    let mut prev = 0i64;
    for rssi in [-40i8, -55, -70, -85, -100, -115] {
        let d = rssi_to_distance(rssi, Environment::UrbanArea);
        assert!(d >= prev, "distance shrank at rssi {rssi}");
        prev = d;
    }
}

#[test]
fn distance_saturates_at_the_coordinate_limit() {
    assert_eq!(rssi_to_distance(-128, Environment::Custom(10)), COORD_LIMIT_MM);
}

#[test]
fn distance_with_zero_exponent_is_saturated_or_zero() {
    assert_eq!(rssi_to_distance(-80, Environment::Custom(0)), COORD_LIMIT_MM);
    assert_eq!(rssi_to_distance(-60, Environment::Custom(0)), 0);
}

fn candidate(x: i64, y: i64, rssi: i8) -> SensorCandidate {
    SensorCandidate { y, x, environment: Environment::FreeSpace, rssi }
}

#[test]
fn trilaterate_reference_scenario() {
    // anchors at (0,0), (4,0), (0,3) meters, readings -77, -77, -79 dBm:
    // distances about 2.239 m, 2.239 m, 2.818 m, position about (2, 1) m.
    let c1 = candidate(0, 0, -77);
    let c2 = candidate(4000, 0, -77);
    let c3 = candidate(0, 3000, -79);
    let (y, x) = trilaterate(&c1, &c2, &c3).expect("geometry is not degenerate");
    assert!((x - 2000).abs() <= 25, "x was {x}");
    assert!((y - 1000).abs() <= 40, "y was {y}");
}

#[test]
fn trilaterate_collinear_anchors_fails() {
    let c1 = candidate(0, 0, -77);
    let c2 = candidate(2000, 0, -77);
    let c3 = candidate(4000, 0, -79);
    assert_eq!(trilaterate(&c1, &c2, &c3), None);
}

#[test]
fn trilaterate_coinciding_anchors_fails() {
    let c1 = candidate(1000, 1000, -77);
    let c2 = candidate(1000, 1000, -80);
    let c3 = candidate(4000, 2000, -79);
    assert_eq!(trilaterate(&c1, &c2, &c3), None);
}

#[test]
fn trilaterate_same_inputs_same_output() {
    let c1 = candidate(0, 0, -71);
    let c2 = candidate(5000, 500, -84);
    let c3 = candidate(700, 6000, -66);
    let first = trilaterate(&c1, &c2, &c3);
    let second = trilaterate(&c1, &c2, &c3);
    assert_eq!(first, second);
}
