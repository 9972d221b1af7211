//! Telemetry ingestion over a CAN bus: sensors register through a small
//! handshake, are bound to a decoder, and their frames are turned into rows.
//!
//! - `reassembler`: recovers `$`-started, `\n`-terminated sentences from fragments.
//! - `gps`, `imu`, `thermal`: the per-sensor decoders.
//! - `config`: the configuration text a sensor sends when it registers.
//! - `dispatch`: the registry, the registration protocol and frame routing,
//!   as steps from an event to the actions that the surrounding loop performs.
use vstd::prelude::*;

pub mod config;
pub mod dispatch;
pub mod gps;
pub mod imu;
pub mod reassembler;
pub mod text;
pub mod thermal;

verus! {

} // verus!
