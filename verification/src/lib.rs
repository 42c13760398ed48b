//! Decoding and replaying IPS binary patches.
//!
//! An IPS patch is the marker `PATCH`, a stream of edit records, and the
//! marker `EOF`. Each record either carries literal bytes or describes a run
//! of one repeated byte, to be written at a 24-bit offset of the target.

pub mod ips;
