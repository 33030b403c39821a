use sensor_core::coords::transform_local_to_global;
use sensor_core::environment::Environment;
use sensor_core::sensors::Sensor;

fn anchor(id: u8, x: i64, y: i64, lat: i64, lon: i64) -> Sensor {
    Sensor { id, x, y, lat, lon, environment: Environment::FreeSpace }
}

#[test]
fn transform_with_coinciding_geography_returns_anchor_one() {
    // all anchors surveyed at the same geographic point: every offset is
    // zero and the affine map is constant zero, so any local position maps
    // to anchor 1's coordinates.
    let s1 = anchor(1, 0, 0, 50_000_000_000, 9_000_000_000);
    let s2 = anchor(2, 4000, 0, 50_000_000_000, 9_000_000_000);
    let s3 = anchor(3, 0, 3000, 50_000_000_000, 9_000_000_000);
    let (lat, lon) = transform_local_to_global(2000, 1000, &s1, &s2, &s3).unwrap();
    assert_eq!(lat, 50_000_000_000);
    assert_eq!(lon, 9_000_000_000);
}

#[test]
fn transform_surveyed_square() {
    // a site surveyed in both frames: anchor 2 is 4 m east of anchor 1,
    // anchor 3 is 2 m east and 3 m north. The solved local position
    // (2, 1.011) m must land between them geographically.
    let s1 = anchor(1, 0, 0, 50_564_844_450, 9_684_520_462);
    let s2 = anchor(2, 4000, 0, 50_564_944_665, 9_684_520_462);
    let s3 = anchor(3, 2000, 3000, 50_564_894_558, 9_684_697_513);
    let (lat, lon) = transform_local_to_global(2000, 1011, &s1, &s2, &s3).unwrap();
    assert!((lat - 50_564_894_548i64).abs() <= 200, "lat was {lat}");
    assert!((lon - 9_684_580_113i64).abs() <= 200, "lon was {lon}");
}

#[test]
fn transform_collinear_local_anchors_fails() {
    let s1 = anchor(1, 0, 0, 50_000_000_000, 9_000_000_000);
    let s2 = anchor(2, 2000, 0, 50_000_100_000, 9_000_000_000);
    let s3 = anchor(3, 4000, 0, 50_000_200_000, 9_000_000_000);
    assert_eq!(transform_local_to_global(1000, 1000, &s1, &s2, &s3), None);
}

#[test]
fn transform_at_the_pole_fails_instead_of_dividing_by_zero() {
    // at 90 degrees the cosine of the mean latitude rounds to zero: the
    // longitude scale vanishes and the transform must report failure.
    let s1 = anchor(1, 0, 0, 90_000_000_000, 0);
    let s2 = anchor(2, 4000, 0, 90_000_000_000, 0);
    let s3 = anchor(3, 0, 3000, 90_000_000_000, 0);
    assert_eq!(transform_local_to_global(0, 0, &s1, &s2, &s3), None);
}
