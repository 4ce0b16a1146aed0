use vstd::prelude::*;

verus! {

/// A road segment's current record: its identifier, the latest reported
/// average speed, and the ingestion-side timestamp (microseconds since the
/// Unix epoch) of the reading that produced it.
///
/// Segment ids are small non-negative integers, dense in `0..N` for a fixed
/// segment count `N`; the store keeps at most one current record per id.
#[derive(Clone, Copy, Debug, PartialEq, Eq, Structural)]
pub struct Node {
    pub id: i32,
    pub avg_speed: i32,
    pub timestamp: i64,
}

} // verus!
