use sensor_core::wire::{decode_record, WireRecord, CUSTOM_ENVIRONMENT_TAG};

// The wire record is what the sensing firmware serializes field by field:
// these tests encode the same field sequence with postcard and check that
// the decoder reads back exactly what was sent.

fn encode_plain(
    sensor_id: u8,
    y: f64,
    x: f64,
    latitude: f64,
    longitude: f64,
    tag: u32,
    fingerprint: u64,
    rssi: i8,
) -> Vec<u8> {
    postcard::to_allocvec(&(sensor_id, y, x, latitude, longitude, tag, fingerprint, rssi)).unwrap()
}

#[test]
fn decode_reads_back_an_encoded_record() {
    let bytes = encode_plain(1, 0.0, 4.0, 50.56484445, 9.68452046, 0, 0xABC123, -50);
    let record = decode_record(&bytes).expect("well-formed record");
    assert_eq!(
        record,
        WireRecord {
            sensor_id: 1,
            y_bits: 0.0f64.to_bits(),
            x_bits: 4.0f64.to_bits(),
            latitude_bits: 50.56484445f64.to_bits(),
            longitude_bits: 9.68452046f64.to_bits(),
            environment_tag: 0,
            environment_custom_bits: 0,
            fingerprint: 0xABC123,
            rssi: -50,
        }
    );
}

#[test]
fn decode_reads_back_a_custom_environment() {
    let bytes = postcard::to_allocvec(&(
        7u8,
        -1.5f64,
        2.25f64,
        -33.0f64,
        151.2f64,
        (CUSTOM_ENVIRONMENT_TAG, 3.5f64),
        1u64,
        -128i8,
    ))
    .unwrap();
    let record = decode_record(&bytes).expect("well-formed record");
    assert_eq!(record.sensor_id, 7);
    assert_eq!(record.y_bits, (-1.5f64).to_bits());
    assert_eq!(record.environment_tag, CUSTOM_ENVIRONMENT_TAG);
    assert_eq!(record.environment_custom_bits, 3.5f64.to_bits());
    assert_eq!(record.fingerprint, 1);
    assert_eq!(record.rssi, -128);
}

#[test]
fn decode_rejects_a_three_byte_datagram() {
    let bytes = vec![0x01, 0x02, 0x03];
    assert_eq!(decode_record(&bytes), None);
}

#[test]
fn decode_rejects_an_empty_datagram() {
    assert_eq!(decode_record(&Vec::new()), None);
}

#[test]
fn decode_rejects_a_truncated_record() {
    let mut bytes = encode_plain(1, 0.0, 4.0, 50.5, 9.6, 0, 0xABC123, -50);
    bytes.pop();
    assert_eq!(decode_record(&bytes), None);
}

#[test]
fn decode_rejects_an_unknown_environment_tag() {
    let bytes = encode_plain(1, 0.0, 4.0, 50.5, 9.6, CUSTOM_ENVIRONMENT_TAG + 1, 3, -50);
    assert_eq!(decode_record(&bytes), None);
}

#[test]
fn decode_rejects_an_overlong_fingerprint_varint() {
    let mut bytes = encode_plain(1, 0.0, 4.0, 50.5, 9.6, 0, 0, -50);
    // splice an eleven-byte varint where the fingerprint stands
    let fp_pos = 34;
    bytes.splice(fp_pos..fp_pos + 1, [0xFFu8; 11]);
    assert_eq!(decode_record(&bytes), None);
}

#[test]
fn decode_accepts_a_maximal_fingerprint() {
    let bytes = encode_plain(1, 0.0, 4.0, 50.5, 9.6, 0, u64::MAX, -50);
    let record = decode_record(&bytes).expect("well-formed record");
    assert_eq!(record.fingerprint, u64::MAX);
}

#[test]
fn decode_ignores_trailing_bytes() {
    let mut bytes = encode_plain(1, 0.0, 4.0, 50.5, 9.6, 0, 0xABC123, -50);
    let expected = decode_record(&bytes).expect("well-formed record");
    bytes.extend_from_slice(&[0xAA, 0xBB, 0xCC]);
    assert_eq!(decode_record(&bytes), Some(expected));
}
