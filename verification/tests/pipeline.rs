use sensor_core::environment::Environment;
use sensor_core::sensors::{AppendOutcome, SensorPacket, SensorService};

const FP: u64 = 0xABC123;

fn service_with_triangle() -> SensorService {
    let mut svc = SensorService::new();
    assert!(svc.add_sensor(1, 0, 0, 50_000_000_000, 9_000_000_000, Environment::FreeSpace));
    assert!(svc.add_sensor(2, 0, 4000, 50_000_000_000, 9_000_000_000, Environment::FreeSpace));
    assert!(svc.add_sensor(3, 3000, 0, 50_000_000_000, 9_000_000_000, Environment::FreeSpace));
    svc
}

#[test]
fn full_resolution_scenario() {
    // anchors at (0,0), (4,0), (0,3) meters (x east, y north), device at
    // about (2, 1): readings -77, -77, -79 repeated past the threshold.
    let mut svc = service_with_triangle();
    let mut resolved = None;
    for round in 0..10 {
        for (anchor, rssi) in [(1u8, -77i8), (2, -77), (3, -79)] {
            let outcome = svc.add_measurement(FP, anchor, rssi, 1000 + round);
            match outcome {
                AppendOutcome::Accumulating => {}
                AppendOutcome::Resolved(t) => {
                    assert!(resolved.is_none(), "resolved twice");
                    resolved = Some(t);
                }
                other => panic!("unexpected outcome {other:?}"),
            }
        }
    }
    let fix = resolved.expect("thirty observations resolve the fingerprint");
    assert_eq!(fix.fingerprint, FP);
    assert!((fix.x - 2000).abs() <= 25, "x was {}", fix.x);
    assert!((fix.y - 1000).abs() <= 40, "y was {}", fix.y);
    // all anchors share one geographic point, so the fix lands there
    assert_eq!(fix.lat, 50_000_000_000);
    assert_eq!(fix.lon, 9_000_000_000);

    let fixes = svc.get_trilaterations();
    assert_eq!(fixes.len(), 1);
    assert_eq!(fixes[0], fix);

    // the entry was removed with the resolution: accumulation restarts
    let outcome = svc.add_measurement(FP, 1, -77, 2000);
    assert_eq!(outcome, AppendOutcome::Accumulating);
    assert_eq!(svc.get_trilaterations().len(), 1);
}

#[test]
fn one_or_two_anchors_never_resolve() {
    let mut svc = service_with_triangle();
    for i in 0..50 {
        let anchor = if i % 2 == 0 { 1u8 } else { 2u8 };
        let outcome = svc.add_measurement(FP, anchor, -75, 1000 + i);
        assert_eq!(outcome, AppendOutcome::Accumulating);
    }
    assert_eq!(svc.get_trilaterations().len(), 0);
}

#[test]
fn four_anchors_never_resolve() {
    let mut svc = service_with_triangle();
    assert!(svc.add_sensor(4, 5000, 5000, 50_000_000_000, 9_000_000_000, Environment::FreeSpace));
    for i in 0..15 {
        for anchor in [1u8, 2, 3, 4] {
            let outcome = svc.add_measurement(FP, anchor, -75, 1000 + i);
            assert_eq!(outcome, AppendOutcome::Accumulating);
        }
    }
    assert_eq!(svc.get_trilaterations().len(), 0);
}

#[test]
fn collinear_anchors_report_degeneracy_not_a_fix() {
    let mut svc = SensorService::new();
    assert!(svc.add_sensor(1, 0, 0, 50_000_000_000, 9_000_000_000, Environment::FreeSpace));
    assert!(svc.add_sensor(2, 0, 2000, 50_000_000_000, 9_000_000_000, Environment::FreeSpace));
    assert!(svc.add_sensor(3, 0, 4000, 50_000_000_000, 9_000_000_000, Environment::FreeSpace));
    let mut saw_degenerate = false;
    for i in 0..10 {
        for anchor in [1u8, 2, 3] {
            let outcome = svc.add_measurement(FP, anchor, -77, 1000 + i);
            match outcome {
                AppendOutcome::Accumulating => {}
                AppendOutcome::Degenerate => saw_degenerate = true,
                other => panic!("unexpected outcome {other:?}"),
            }
        }
    }
    assert!(saw_degenerate);
    assert_eq!(svc.get_trilaterations().len(), 0);
    // the window stays: the very next append attempts resolution again
    let outcome = svc.add_measurement(FP, 1, -77, 2000);
    assert_eq!(outcome, AppendOutcome::Degenerate);
}

#[test]
fn registry_miss_preserves_the_window_for_a_later_attempt() {
    let mut svc = SensorService::new();
    assert!(svc.add_sensor(1, 0, 0, 50_000_000_000, 9_000_000_000, Environment::FreeSpace));
    assert!(svc.add_sensor(2, 0, 4000, 50_000_000_000, 9_000_000_000, Environment::FreeSpace));
    // anchor 3 reports observations but never announced itself
    let mut saw_unknown = false;
    for i in 0..10 {
        for (anchor, rssi) in [(1u8, -77i8), (2, -77), (3, -79)] {
            let outcome = svc.add_measurement(FP, anchor, rssi, 1000 + i);
            match outcome {
                AppendOutcome::Accumulating => {}
                AppendOutcome::UnknownAnchor => saw_unknown = true,
                other => panic!("unexpected outcome {other:?}"),
            }
        }
    }
    assert!(saw_unknown);
    assert_eq!(svc.get_trilaterations().len(), 0);
    // once the anchor announces itself, the preserved window resolves
    assert!(svc.add_sensor(3, 3000, 0, 50_000_000_000, 9_000_000_000, Environment::FreeSpace));
    let outcome = svc.add_measurement(FP, 3, -79, 2000);
    assert!(matches!(outcome, AppendOutcome::Resolved(_)), "got {outcome:?}");
    assert_eq!(svc.get_trilaterations().len(), 1);
}

#[test]
fn stale_entry_is_evicted_and_accumulation_restarts() {
    let mut svc = service_with_triangle();
    const OTHER: u64 = 77;
    // fingerprint FP accumulates on two anchors at time 0
    for _ in 0..10 {
        assert_eq!(svc.add_measurement(FP, 1, -77, 0), AppendOutcome::Accumulating);
        assert_eq!(svc.add_measurement(FP, 2, -77, 0), AppendOutcome::Accumulating);
    }
    // an unrelated append exactly one retention age later sweeps FP away
    assert_eq!(svc.add_measurement(OTHER, 1, -80, 60_000), AppendOutcome::Accumulating);
    // FP must start from zero: ten fresh observations on anchor 3 alone
    // never make it ready (its earlier two windows are gone)
    for i in 0..10 {
        let outcome = svc.add_measurement(FP, 3, -79, 60_001 + i);
        assert_eq!(outcome, AppendOutcome::Accumulating);
    }
    assert_eq!(svc.get_trilaterations().len(), 0);
}

#[test]
fn entry_younger_than_the_retention_age_survives() {
    let mut svc = service_with_triangle();
    const OTHER: u64 = 77;
    for _ in 0..10 {
        assert_eq!(svc.add_measurement(FP, 1, -77, 100), AppendOutcome::Accumulating);
        assert_eq!(svc.add_measurement(FP, 2, -77, 100), AppendOutcome::Accumulating);
    }
    // 59.999 seconds later: FP is still within the retention age
    assert_eq!(svc.add_measurement(OTHER, 1, -80, 60_099), AppendOutcome::Accumulating);
    // so ten observations on anchor 3 complete it
    let mut resolved = false;
    for i in 0..10 {
        let outcome = svc.add_measurement(FP, 3, -79, 60_100 + i);
        if matches!(outcome, AppendOutcome::Resolved(_)) {
            resolved = true;
        }
    }
    assert!(resolved);
}

fn packet(anchor: u8, x: i64, y: i64, rssi: i8) -> SensorPacket {
    SensorPacket {
        sensor_id: anchor,
        y,
        x,
        latitude: 50_000_000_000,
        longitude: 9_000_000_000,
        environment: Environment::FreeSpace,
        fingerprint: FP,
        rssi,
    }
}

#[test]
fn undecodable_datagram_changes_nothing() {
    let mut svc = SensorService::new();
    // anchors and 9 observations each arrive as packets, as over the wire
    for i in 0..9 {
        for (anchor, x, y, rssi) in [(1u8, 0i64, 0i64, -77i8), (2, 4000, 0, -77), (3, 0, 3000, -79)] {
            let outcome = svc.ingest_packet(Some(packet(anchor, x, y, rssi)), 1000 + i);
            assert_eq!(outcome, Some(AppendOutcome::Accumulating));
        }
    }
    let sensors_before = svc.get_sensors();
    let fixes_before = svc.get_trilaterations();

    // a malformed datagram decodes to nothing and must change nothing
    assert_eq!(svc.ingest_packet(None, 5000), None);

    assert_eq!(svc.get_sensors(), sensors_before);
    assert_eq!(svc.get_trilaterations(), fixes_before);
    // the observation store is also untouched: the pipeline resolves
    // exactly on the tenth round, as if the bad datagram never arrived
    assert_eq!(svc.ingest_packet(Some(packet(1, 0, 0, -77)), 5001), Some(AppendOutcome::Accumulating));
    assert_eq!(svc.ingest_packet(Some(packet(2, 4000, 0, -77)), 5001), Some(AppendOutcome::Accumulating));
    let last = svc.ingest_packet(Some(packet(3, 0, 3000, -79)), 5001);
    assert!(matches!(last, Some(AppendOutcome::Resolved(_))), "got {last:?}");
    assert_eq!(svc.get_trilaterations().len(), 1);
}

#[test]
fn packet_with_out_of_range_survey_still_records_the_observation() {
    let mut svc = SensorService::new();
    let mut p = packet(1, 0, 0, -70);
    p.latitude = 95_000_000_000; // beyond 90 degrees: the announcement is dropped
    let outcome = svc.ingest_packet(Some(p), 0);
    assert_eq!(outcome, Some(AppendOutcome::Accumulating));
    assert_eq!(svc.get_sensors().len(), 0);
}
