//! A client for a public transit feed: decisions on fetched documents,
//! incremental polling with per-route watermarks, and the join that resolves
//! stop-tag references of a route's directions against its stop table.

pub mod client;
pub mod error;
pub mod location;
pub mod poller;
pub mod prediction;
pub mod routes;
pub mod schedule;
pub mod stops;
pub mod text;
