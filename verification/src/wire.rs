//! Decoder for the inbound wire record, one per datagram: anchor id (one
//! byte), the four surveyed coordinates as little-endian 8-byte floating
//! point fields carried through as raw bit patterns, the environment tag
//! (base-128 varint, with an 8-byte payload for the custom variant), the
//! device fingerprint (base-128 varint), and the reading (one byte, two's
//! complement). A malformed datagram decodes to `None`; bytes after the
//! record are ignored.

use vstd::prelude::*;

verus! {

/// Tag of the custom environment variant, the one carrying a payload.
pub const CUSTOM_ENVIRONMENT_TAG: u32 = 6;

/// One decoded wire record. Floating-point fields are held as their raw
/// IEEE-754 bit patterns; the shell around the engine turns them into the
/// scaled integers the pipeline uses.
#[derive(Clone, Copy, Debug, PartialEq, Eq, Structural)]
pub struct WireRecord {
    pub sensor_id: u8,
    pub y_bits: u64,
    pub x_bits: u64,
    pub latitude_bits: u64,
    pub longitude_bits: u64,
    pub environment_tag: u32,
    pub environment_custom_bits: u64,
    pub fingerprint: u64,
    pub rssi: i8,
}

/// The little-endian 64-bit word starting at `pos`.
pub open spec fn spec_le64_at(d: Seq<u8>, pos: int) -> u64
    recommends
        0 <= pos,
        pos + 8 <= d.len(),
{
    (d[pos] as u64) | (d[pos + 1] as u64) << 8 | (d[pos + 2] as u64) << 16 | (d[pos + 3] as u64)
        << 24 | (d[pos + 4] as u64) << 32 | (d[pos + 5] as u64) << 40 | (d[pos + 6] as u64) << 48
        | (d[pos + 7] as u64) << 56
}

/// A base-128 varint decoded from `pos` on, 64-bit width: up to ten bytes
/// of seven data bits each, low group first, high bit flagging
/// continuation; the tenth byte may carry only the one remaining bit.
/// `None` when the input ends early or the last byte overflows.
pub open spec fn spec_varint64_from(d: Seq<u8>, pos: int, i: int, acc: u64) -> Option<(u64, int)>
    decreases 10 - i,
{
    if i >= 10 || pos + i >= d.len() || i < 0 {
        Option::None
    } else {
        let val = d[pos + i];
        let acc2 = acc | ((val & 0x7f) as u64) << (7 * i as u64);
        if val & 0x80 == 0 {
            if i == 9 && val > 1 {
                Option::None
            } else {
                Option::Some((acc2, pos + i + 1))
            }
        } else {
            spec_varint64_from(d, pos, i + 1, acc2)
        }
    }
}

/// A base-128 varint decoded from `pos` on, 32-bit width: up to five
/// bytes; the fifth may carry only the four remaining bits.
pub open spec fn spec_varint32_from(d: Seq<u8>, pos: int, i: int, acc: u32) -> Option<(u32, int)>
    decreases 5 - i,
{
    if i >= 5 || pos + i >= d.len() || i < 0 {
        Option::None
    } else {
        let val = d[pos + i];
        let acc2 = acc | ((val & 0x7f) as u32) << (7 * i as u32);
        if val & 0x80 == 0 {
            if i == 4 && val > 15 {
                Option::None
            } else {
                Option::Some((acc2, pos + i + 1))
            }
        } else {
            spec_varint32_from(d, pos, i + 1, acc2)
        }
    }
}

/// The whole record decoded from the front of a datagram, or `None` where
/// any field is malformed: too short, a bad varint, or an environment tag
/// beyond the known variants.
pub open spec fn spec_decode_record(d: Seq<u8>) -> Option<WireRecord> {
    if d.len() < 1 {
        Option::None
    } else {
        let sensor_id = d[0];
        if 1 + 32 > d.len() {
            Option::None
        } else {
            let y_bits = spec_le64_at(d, 1);
            let x_bits = spec_le64_at(d, 9);
            let latitude_bits = spec_le64_at(d, 17);
            let longitude_bits = spec_le64_at(d, 25);
            match spec_varint32_from(d, 33, 0, 0) {
                Option::None => Option::None,
                Option::Some(tag_next) => {
                    let tag = tag_next.0;
                    let after_tag = tag_next.1;
                    if tag > CUSTOM_ENVIRONMENT_TAG {
                        Option::None
                    } else {
                        let custom = if tag == CUSTOM_ENVIRONMENT_TAG {
                            if after_tag + 8 > d.len() {
                                Option::None
                            } else {
                                Option::Some((spec_le64_at(d, after_tag), after_tag + 8))
                            }
                        } else {
                            Option::Some((0u64, after_tag))
                        };
                        match custom {
                            Option::None => Option::None,
                            Option::Some(cust_next) => match spec_varint64_from(
                                d,
                                cust_next.1,
                                0,
                                0,
                            ) {
                                Option::None => Option::None,
                                Option::Some(fp_next) => {
                                    if fp_next.1 + 1 > d.len() {
                                        Option::None
                                    } else {
                                        Option::Some(
                                            WireRecord {
                                                sensor_id,
                                                y_bits,
                                                x_bits,
                                                latitude_bits,
                                                longitude_bits,
                                                environment_tag: tag,
                                                environment_custom_bits: cust_next.0,
                                                fingerprint: fp_next.0,
                                                rssi: d[fp_next.1] as i8,
                                            },
                                        )
                                    }
                                },
                            },
                        }
                    }
                },
            }
        }
    }
}

/// Little-endian 64-bit word starting at `pos`.
fn take_le64(d: &Vec<u8>, pos: usize) -> (w: u64)
    requires
        pos + 8 <= d@.len(),
    ensures
        w == spec_le64_at(d@, pos as int),
{
    let n = d.len();
    proof {
        assert(pos + 8 <= n);
    }
    (d[pos] as u64) | (d[pos + 1] as u64) << 8u64 | (d[pos + 2] as u64) << 16u64 | (d[pos
        + 3] as u64) << 24u64 | (d[pos + 4] as u64) << 32u64 | (d[pos + 5] as u64) << 40u64 | (d[pos
        + 6] as u64) << 48u64 | (d[pos + 7] as u64) << 56u64
}

/// 64-bit varint decoded from `pos + i` on, with `acc` holding the groups
/// already read.
fn take_varint64(d: &Vec<u8>, pos: usize, i: usize, acc: u64) -> (r: Option<(u64, usize)>)
    requires
        i <= 10,
        pos + i <= usize::MAX,
    ensures
        match r {
            Option::Some(v) => {
                &&& spec_varint64_from(d@, pos as int, i as int, acc) == Option::Some(
                    (v.0, v.1 as int),
                )
                &&& v.1 <= d@.len()
            },
            Option::None => spec_varint64_from(d@, pos as int, i as int, acc).is_none(),
        },
    decreases 10 - i,
{
    if i >= 10 || pos + i >= d.len() {
        None
    } else {
        let val = d[pos + i];
        let acc2: u64 = acc | (((val & 0x7f) as u64) << (7 * i) as u64);
        if val & 0x80 == 0 {
            if i == 9 && val > 1 {
                None
            } else {
                Some((acc2, pos + i + 1))
            }
        } else {
            take_varint64(d, pos, i + 1, acc2)
        }
    }
}

/// 32-bit varint decoded from `pos + i` on.
fn take_varint32(d: &Vec<u8>, pos: usize, i: usize, acc: u32) -> (r: Option<(u32, usize)>)
    requires
        i <= 5,
        pos + i <= usize::MAX,
    ensures
        match r {
            Option::Some(v) => {
                &&& spec_varint32_from(d@, pos as int, i as int, acc) == Option::Some(
                    (v.0, v.1 as int),
                )
                &&& v.1 <= d@.len()
            },
            Option::None => spec_varint32_from(d@, pos as int, i as int, acc).is_none(),
        },
    decreases 5 - i,
{
    if i >= 5 || pos + i >= d.len() {
        None
    } else {
        let val = d[pos + i];
        let acc2: u32 = acc | (((val & 0x7f) as u32) << (7 * i) as u32);
        if val & 0x80 == 0 {
            if i == 4 && val > 15 {
                None
            } else {
                Some((acc2, pos + i + 1))
            }
        } else {
            take_varint32(d, pos, i + 1, acc2)
        }
    }
}

/// Decodes one wire record from the front of a datagram. `None` exactly
/// for malformed input: a short buffer, an over-long or overflowing
/// varint, or an unknown environment tag.
pub fn decode_record(data: &Vec<u8>) -> (r: Option<WireRecord>)
    ensures
        r == spec_decode_record(data@),
{
    if data.len() < 33 {
        return None;
    }
    let sensor_id = data[0];
    let y_bits = take_le64(data, 1);
    let x_bits = take_le64(data, 9);
    let latitude_bits = take_le64(data, 17);
    let longitude_bits = take_le64(data, 25);
    let (tag, after_tag) = match take_varint32(data, 33, 0, 0) {
        None => {
            return None;
        },
        Some(v) => v,
    };
    if tag > CUSTOM_ENVIRONMENT_TAG {
        return None;
    }
    let (environment_custom_bits, after_env) = if tag == CUSTOM_ENVIRONMENT_TAG {
        if after_tag > data.len() - 8 {
            return None;
        }
        (take_le64(data, after_tag), after_tag + 8)
    } else {
        (0u64, after_tag)
    };
    let (fingerprint, after_fp) = match take_varint64(data, after_env, 0, 0) {
        None => {
            return None;
        },
        Some(v) => v,
    };
    if after_fp >= data.len() {
        return None;
    }
    let rssi = data[after_fp] as i8;
    Some(
        WireRecord {
            sensor_id,
            y_bits,
            x_bits,
            latitude_bits,
            longitude_bits,
            environment_tag: tag,
            environment_custom_bits,
            fingerprint,
            rssi,
        },
    )
}

} // verus!
