//! Storage policies: what the database keeps, for how long and at which
//! resolution, and what it gives up first. The database itself is elsewhere.

pub mod telemetry_db;
pub mod retention;
pub mod layouts;
pub mod writer;
