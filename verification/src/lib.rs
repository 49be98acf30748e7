//! Zenith: the verified core of a ground-station operations server.
//!
//! Everything here computes on plain values: framing and packet codecs,
//! parameter images, struct dictionaries, telemetry decoding, the command
//! client's protocol rules, authentication, configuration and the storage
//! policies. Sockets, the database and the HTTP surface live in `app/`.

pub mod aproto_client;
pub mod auth;
pub mod codec;
pub mod config;
pub mod config_manager;
pub mod crc;
pub mod json;
pub mod metrics;
pub mod param_update;
pub mod params;
pub mod protocol;
pub mod rate_limit;
pub mod reports;
pub mod requests;
pub mod sequence;
pub mod staged_update;
pub mod storage;
pub mod stream_link;
pub mod telemetry;
pub mod text;
pub mod text_map;
pub mod tprm;
pub mod transport;
pub mod wire;
