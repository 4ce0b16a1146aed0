use aggregator::errors::Error;
use aggregator::graph::AdjacencyGraph;
use aggregator::jams::detect_jams;
use aggregator::jams::is_complete_snapshot;
use aggregator::jams::jams_query;
use aggregator::models::Node;

fn node(id: i32, avg_speed: i32) -> Node {
    Node { id, avg_speed, timestamp: 0 }
}

fn graph_of(adj: Vec<Vec<usize>>) -> AdjacencyGraph {
    AdjacencyGraph::new(adj).expect("topology should be well formed")
}

#[test]
fn scenario_two_segments_one_jammed() {
    // graph = {0:[1], 1:[0]}; speeds = {0:10, 1:30}.
    // Segment 0: neighbor avg 30, 10*2 = 20 < 30 -> jammed.
    // Segment 1: neighbor avg 10, 30*2 = 60 not < 10 -> not jammed.
    let graph = graph_of(vec![vec![1], vec![0]]);
    let nodes = vec![node(0, 10), node(1, 30)];
    let jams = detect_jams(&nodes, &graph);
    assert_eq!(jams, vec![node(0, 10)]);
}

#[test]
fn scenario_no_neighbors_never_jammed() {
    // graph = {0:[]}; speed = {0:5}. No baseline, never jammed.
    let graph = graph_of(vec![vec![]]);
    let nodes = vec![node(0, 5)];
    let jams = detect_jams(&nodes, &graph);
    assert_eq!(jams, Vec::new());
}

#[test]
fn scenario_boundary_equality_not_jammed() {
    // graph = {0:[1,2], 1:[0], 2:[0]}; speeds = {0:10, 1:20, 2:20}.
    // Neighbor avg for 0 = (20+20)/2 = 20; 10*2 = 20 is not strictly less.
    let graph = graph_of(vec![vec![1, 2], vec![0], vec![0]]);
    let nodes = vec![node(0, 10), node(1, 20), node(2, 20)];
    let jams = detect_jams(&nodes, &graph);
    assert_eq!(jams, Vec::new());
}

#[test]
fn truncating_division_biases_against_jam() {
    // Neighbor speeds 20 and 21: the average truncates to 20, so a segment
    // at speed 10 sits exactly on the boundary and is not jammed.
    let graph = graph_of(vec![vec![1, 2], vec![0], vec![0]]);
    let nodes = vec![node(0, 10), node(1, 20), node(2, 21)];
    assert_eq!(detect_jams(&nodes, &graph), Vec::new());
    // One more unit of neighbor speed tips the average to 21.
    let nodes = vec![node(0, 10), node(1, 20), node(2, 22)];
    assert_eq!(detect_jams(&nodes, &graph), vec![node(0, 10)]);
}

#[test]
fn detection_keeps_snapshot_order() {
    // Every segment is jammed relative to a fast hub; order is id order.
    let graph = graph_of(vec![vec![3], vec![3], vec![3], vec![0, 1, 2]]);
    let nodes = vec![node(0, 1), node(1, 2), node(2, 3), node(3, 100)];
    let jams = detect_jams(&nodes, &graph);
    assert_eq!(jams, vec![node(0, 1), node(1, 2), node(2, 3)]);
}

#[test]
fn scenario_store_unavailable_fails_request() {
    // A store failure surfaces as StoreUnavailable; no partial list.
    let graph = graph_of(vec![vec![1], vec![0]]);
    let r = jams_query(Err(Error::StoreUnavailable), &graph);
    assert_eq!(r, Err(Error::StoreUnavailable));
}

#[test]
fn incomplete_snapshot_fails_request() {
    // A snapshot not covering the graph's id space is a store-side failure,
    // never a silently truncated jam list.
    let graph = graph_of(vec![vec![1], vec![0]]);
    let r = jams_query(Ok(vec![node(0, 10)]), &graph);
    assert_eq!(r, Err(Error::StoreUnavailable));
}

#[test]
fn query_serves_jam_list_on_good_snapshot() {
    let graph = graph_of(vec![vec![1], vec![0]]);
    let r = jams_query(Ok(vec![node(0, 10), node(1, 30)]), &graph);
    assert_eq!(r, Ok(vec![node(0, 10)]));
}

#[test]
fn snapshot_completeness_check() {
    let graph = graph_of(vec![vec![1], vec![0]]);
    assert!(is_complete_snapshot(&vec![node(0, 10), node(1, 30)], &graph));
    // Wrong length.
    assert!(!is_complete_snapshot(&vec![node(0, 10)], &graph));
    // Ids out of order.
    assert!(!is_complete_snapshot(&vec![node(1, 30), node(0, 10)], &graph));
    // Negative speed is outside the sensor-reported range.
    assert!(!is_complete_snapshot(&vec![node(0, -1), node(1, 30)], &graph));
}
