//! Core of an indoor radio-beacon tracking platform.
//!
//! Battery-powered beacons advertise; gateway stations decode the framed
//! byte stream from a receiver, parse beacon records, and upload RSSI
//! measurements to a tracking server, which runs a particle filter per tag.
//! This crate holds the verified core: the wire decoders and packet codecs,
//! the upload batching and retry policy, the per-instance scheduling and
//! listener fan-out bookkeeping, the distance-field grid, and the registry
//! of tracking instances.

pub mod config;
pub mod decoder;
pub mod dest;
pub mod digits;
pub mod error;
pub mod field;
pub mod instance;
pub mod listener;
pub mod manager;
pub mod packet;
pub mod reader;
pub mod store;
pub mod types;
pub mod util;
pub mod wire;
