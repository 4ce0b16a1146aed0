use vstd::prelude::*;

verus! {

/// The error kinds of the ingestion-to-detection pipeline.
///
/// - `TransportUnavailable`: the broker is unreachable or the connection
///   dropped; recovered by reconnecting inside the ingestion loop, never
///   fatal.
/// - `DecodeError`: a malformed inbound message; the message is dropped and
///   the loop continues.
/// - `StoreUnavailable`: the backing store is unreachable (or returned an
///   unusable snapshot); surfaced to the query surface as a request-level
///   failure, retried on the next message by the ingestion loop.
/// - `ConfigError`: missing or invalid required startup configuration;
///   fatal, the process does not start.
#[derive(Clone, Copy, Debug, PartialEq, Eq, Structural)]
pub enum Error {
    TransportUnavailable,
    DecodeError,
    StoreUnavailable,
    ConfigError,
}

} // verus!
