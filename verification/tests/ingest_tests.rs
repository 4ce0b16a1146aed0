use aggregator::codec::channel_name;
use aggregator::codec::encode_payload;
use aggregator::errors::Error;
use aggregator::graph::AdjacencyGraph;
use aggregator::ingest::LoopAction;
use aggregator::ingest::LoopPhase;
use aggregator::ingest::TransportEvent;
use aggregator::ingest::ingest_message;
use aggregator::ingest::loop_step;
use aggregator::jams::detect_jams;
use aggregator::models::Node;
use aggregator::store::SegmentStore;

#[test]
fn valid_message_is_upserted() {
    let mut store = SegmentStore::new(4);
    let r = ingest_message(&mut store, b"traffic/2", &[33], 7);
    assert_eq!(r, Ok(()));
    assert_eq!(store.get_all(), vec![Node { id: 2, avg_speed: 33, timestamp: 7 }]);
}

#[test]
fn malformed_message_is_dropped() {
    let mut store = SegmentStore::new(4);
    store.upsert(1, 50, 1);
    let before = store.get_all();
    assert_eq!(ingest_message(&mut store, b"traffic/x", &[33], 7), Err(Error::DecodeError));
    assert_eq!(ingest_message(&mut store, b"traffic/2", &[], 7), Err(Error::DecodeError));
    assert_eq!(ingest_message(&mut store, b"traffic/9", &[33], 7), Err(Error::DecodeError));
    assert_eq!(store.get_all(), before);
}

#[test]
fn malformed_message_does_not_stop_later_ones() {
    let mut with_noise = SegmentStore::new(4);
    assert_eq!(ingest_message(&mut with_noise, b"garbage", &[1], 1), Err(Error::DecodeError));
    assert_eq!(ingest_message(&mut with_noise, b"traffic/0", &[25], 2), Ok(()));
    let mut without_noise = SegmentStore::new(4);
    assert_eq!(ingest_message(&mut without_noise, b"traffic/0", &[25], 2), Ok(()));
    assert_eq!(with_noise.get_all(), without_noise.get_all());
}

#[test]
fn per_segment_order_is_kept() {
    let mut store = SegmentStore::new(2);
    assert_eq!(ingest_message(&mut store, b"traffic/0", &[10], 1), Ok(()));
    assert_eq!(ingest_message(&mut store, b"traffic/0", &[20], 2), Ok(()));
    assert_eq!(store.get_all(), vec![Node { id: 0, avg_speed: 20, timestamp: 2 }]);
}

#[test]
fn published_values_round_trip_to_detection() {
    // Publish on the canonical channels, ingest, snapshot, detect.
    let mut store = SegmentStore::new(2);
    let speeds: [u8; 2] = [10, 30];
    for id in 0..2u32 {
        let topic = channel_name(id);
        let payload = encode_payload(speeds[id as usize]);
        assert_eq!(ingest_message(&mut store, &topic, &payload, id as i64), Ok(()));
    }
    let snapshot = store.get_all();
    assert_eq!(
        snapshot,
        vec![
            Node { id: 0, avg_speed: 10, timestamp: 0 },
            Node { id: 1, avg_speed: 30, timestamp: 1 },
        ]
    );
    let graph = AdjacencyGraph::new(vec![vec![1], vec![0]]).unwrap();
    assert_eq!(detect_jams(&snapshot, &graph), vec![Node { id: 0, avg_speed: 10, timestamp: 0 }]);
}

#[test]
fn loop_reaches_steady_state() {
    let (phase, action) = loop_step(LoopPhase::Connecting, TransportEvent::Connected);
    assert_eq!((phase, action), (LoopPhase::Subscribed, LoopAction::Subscribe));
    let (phase, action) = loop_step(phase, TransportEvent::SubscribeAcked);
    assert_eq!((phase, action), (LoopPhase::Receiving, LoopAction::Poll));
    let (phase, action) = loop_step(phase, TransportEvent::MessageArrived);
    assert_eq!((phase, action), (LoopPhase::Receiving, LoopAction::HandleMessage));
}

#[test]
fn connection_loss_reconnects_instead_of_terminating() {
    let (phase, action) = loop_step(LoopPhase::Receiving, TransportEvent::ConnectionLost);
    assert_eq!((phase, action), (LoopPhase::Reconnecting, LoopAction::Reconnect));
    let (phase, action) = loop_step(phase, TransportEvent::Connected);
    assert_eq!((phase, action), (LoopPhase::Subscribed, LoopAction::Subscribe));
}

#[test]
fn messages_outside_receiving_are_not_handled() {
    let (phase, action) = loop_step(LoopPhase::Subscribed, TransportEvent::MessageArrived);
    assert_eq!(phase, LoopPhase::Subscribed);
    assert_eq!(action, LoopAction::Poll);
}
