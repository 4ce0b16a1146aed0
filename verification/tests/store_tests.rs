use aggregator::models::Node;
use aggregator::store::SegmentStore;

#[test]
fn new_store_is_empty() {
    let store = SegmentStore::new(4);
    assert_eq!(store.len(), 4);
    assert_eq!(store.get_all(), Vec::new());
}

#[test]
fn upsert_then_read_back() {
    let mut store = SegmentStore::new(3);
    store.upsert(1, 42, 1000);
    assert_eq!(store.get_all(), vec![Node { id: 1, avg_speed: 42, timestamp: 1000 }]);
}

#[test]
fn upsert_is_idempotent() {
    let mut once = SegmentStore::new(3);
    once.upsert(2, 7, 5);
    let mut twice = SegmentStore::new(3);
    twice.upsert(2, 7, 5);
    twice.upsert(2, 7, 5);
    assert_eq!(once.get_all(), twice.get_all());
}

#[test]
fn later_upsert_wins() {
    let mut store = SegmentStore::new(3);
    store.upsert(0, 11, 1);
    store.upsert(0, 22, 2);
    assert_eq!(store.get_all(), vec![Node { id: 0, avg_speed: 22, timestamp: 2 }]);
}

#[test]
fn snapshot_is_ordered_by_id() {
    let mut store = SegmentStore::new(5);
    store.upsert(3, 30, 3);
    store.upsert(0, 10, 1);
    store.upsert(4, 40, 4);
    assert_eq!(
        store.get_all(),
        vec![
            Node { id: 0, avg_speed: 10, timestamp: 1 },
            Node { id: 3, avg_speed: 30, timestamp: 3 },
            Node { id: 4, avg_speed: 40, timestamp: 4 },
        ]
    );
}

#[test]
fn upserts_to_distinct_segments_commute() {
    let mut ab = SegmentStore::new(3);
    ab.upsert(0, 1, 1);
    ab.upsert(2, 3, 3);
    let mut ba = SegmentStore::new(3);
    ba.upsert(2, 3, 3);
    ba.upsert(0, 1, 1);
    assert_eq!(ab.get_all(), ba.get_all());
}

#[test]
fn upsert_leaves_other_segments_alone() {
    let mut store = SegmentStore::new(3);
    store.upsert(0, 1, 1);
    store.upsert(2, 3, 3);
    store.upsert(0, 9, 9);
    assert_eq!(
        store.get_all(),
        vec![
            Node { id: 0, avg_speed: 9, timestamp: 9 },
            Node { id: 2, avg_speed: 3, timestamp: 3 },
        ]
    );
}
