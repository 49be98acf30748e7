//! Wire protocols: SLIP framing, APROTO packets, CCSDS space packets and
//! CCSDS telemetry transfer frames.

pub mod aproto;
pub mod ccsds_spp;
pub mod ccsds_tm;
pub mod slip;
