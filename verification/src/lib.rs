//! Estimation engine for locating wireless devices from signal-strength
//! observations collected by fixed anchor sensors.
//!
//! All quantities are carried as scaled integers so that every step of the
//! pipeline can be verified:
//! - local planar coordinates and distances in millimeters (`i64`),
//! - geographic coordinates in nanodegrees (`i64`),
//! - path-loss exponents in hundredths (`u32`),
//! - timestamps in milliseconds (`u64`),
//! - signal strength in whole dBm (`i8`).
//!
//! The unverified binary around this library performs the socket I/O and
//! converts the floating-point fields of decoded datagrams to the scaled
//! integers used here; the datagram layout itself is decoded by the
//! verified `wire` module.

use vstd::prelude::*;

pub mod coords;
pub mod environment;
pub mod fixed;
pub mod rssi;
pub mod sensors;
pub mod wire;

verus! {

} // verus!
