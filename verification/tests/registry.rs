use sensor_core::environment::Environment;
use sensor_core::sensors::SensorService;

#[test]
fn upsert_is_last_write_wins() {
    let mut svc = SensorService::new();
    assert!(svc.add_sensor(5, 0, 0, 50_000_000_000, 9_000_000_000, Environment::FreeSpace));
    assert!(svc.add_sensor(5, 7000, 3000, 51_000_000_000, 8_000_000_000, Environment::UrbanArea));
    let sensors = svc.get_sensors();
    assert_eq!(sensors.len(), 1);
    assert_eq!(sensors[0].id, 5);
    assert_eq!(sensors[0].y, 7000);
    assert_eq!(sensors[0].x, 3000);
    assert_eq!(sensors[0].lat, 51_000_000_000);
    assert_eq!(sensors[0].lon, 8_000_000_000);
    assert_eq!(sensors[0].environment, Environment::UrbanArea);
}

#[test]
fn upsert_is_idempotent_under_repetition() {
    let mut svc = SensorService::new();
    for _ in 0..3 {
        assert!(svc.add_sensor(9, 100, 200, 1_000_000_000, 2_000_000_000, Environment::FreeSpace));
    }
    let sensors = svc.get_sensors();
    assert_eq!(sensors.len(), 1);
    assert_eq!(sensors[0].id, 9);
}

#[test]
fn distinct_ids_are_kept_apart() {
    let mut svc = SensorService::new();
    assert!(svc.add_sensor(1, 0, 0, 0, 0, Environment::FreeSpace));
    assert!(svc.add_sensor(2, 1000, 0, 0, 0, Environment::ShadowedUrban));
    let sensors = svc.get_sensors();
    assert_eq!(sensors.len(), 2);
    assert!(sensors.iter().any(|s| s.id == 1));
    assert!(sensors.iter().any(|s| s.id == 2));
}

#[test]
fn out_of_range_survey_is_rejected() {
    let mut svc = SensorService::new();
    // latitude beyond 90 degrees
    assert!(!svc.add_sensor(3, 0, 0, 91_000_000_000, 0, Environment::FreeSpace));
    assert_eq!(svc.get_sensors().len(), 0);
}
