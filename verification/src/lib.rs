//! Verified core of a road-traffic telemetry aggregator.
//!
//! Sensors publish per-segment average speeds over a publish/subscribe
//! transport; the aggregator decodes each message, stores the latest reading
//! per segment, and classifies a segment as jammed when its speed is less
//! than half the average speed of its neighbors in a static adjacency graph.
//!
//! This crate holds the data model and the algorithms: message decoding,
//! store semantics, graph validation, the ingestion state machine, and jam
//! detection. The transport, the durable store, and the query surface are
//! external collaborators; the thin process around them lives outside the
//! verified library and hands plain values in and out.

pub mod codec;
pub mod errors;
pub mod graph;
pub mod ingest;
pub mod jams;
pub mod models;
pub mod store;
