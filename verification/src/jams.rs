use vstd::prelude::*;

use crate::errors::Error;
use crate::graph::AdjacencyGraph;
use crate::graph::graph_wf;
use crate::models::Node;

verus! {

/// The sum of the speeds of the listed neighbors, read positionally from
/// the snapshot.
pub open spec fn neighbor_sum(nodes: Seq<Node>, nbrs: Seq<usize>) -> int
    decreases nbrs.len(),
{
    if nbrs.len() == 0 {
        0
    } else {
        neighbor_sum(nodes, nbrs.drop_last()) + nodes[nbrs.last() as int].avg_speed
    }
}

/// The jam predicate. A segment with no neighbors has no baseline and is
/// never jammed; otherwise it is jammed exactly when twice its speed is
/// strictly below the truncating-division average of its neighbors'
/// speeds. Equality does not count as jammed.
pub open spec fn is_jammed(nodes: Seq<Node>, nbrs: Seq<usize>, s: Node) -> bool {
    nbrs.len() > 0 && s.avg_speed * 2 < neighbor_sum(nodes, nbrs) / nbrs.len() as int
}

/// A usable detection input: one record per segment id in order, covering
/// the graph's whole id space, with non-negative (sensor-reported) speeds.
pub open spec fn complete_snapshot(nodes: Seq<Node>, g: Seq<Seq<usize>>) -> bool {
    &&& nodes.len() == g.len()
    &&& forall|k: int|
        0 <= k < nodes.len() ==> (#[trigger] nodes[k]).id == k && nodes[k].avg_speed >= 0
}

/// The jammed subset of a snapshot, in snapshot (= id) order, each with its
/// full record.
pub open spec fn jam_list(nodes: Seq<Node>, g: Seq<Seq<usize>>) -> Seq<Node> {
    nodes.filter(|s: Node| is_jammed(nodes, g[s.id as int], s))
}

proof fn lemma_filter_push<A>(s: Seq<A>, x: A, pred: spec_fn(A) -> bool)
    ensures
        s.push(x).filter(pred) == if pred(x) {
            s.filter(pred).push(x)
        } else {
            s.filter(pred)
        },
{
    reveal(Seq::filter);
    assert(s.push(x).drop_last() =~= s);
    assert(s.push(x).last() == x);
}

/// Classify every segment of a complete snapshot against the adjacency
/// graph. Pure: for a fixed snapshot and graph the result is fully
/// deterministic, and the integer truncating division of the neighbor
/// average is exact.
pub fn detect_jams(nodes: &Vec<Node>, graph: &AdjacencyGraph) -> (r: Vec<Node>)
    requires
        graph.wf(),
        complete_snapshot(nodes@, graph@),
    ensures
        r@ == jam_list(nodes@, graph@),
{
    let ghost pred = |s: Node| is_jammed(nodes@, graph@[s.id as int], s);
    let mut out: Vec<Node> = Vec::new();
    let n = nodes.len();
    let mut k: usize = 0;
    while k < n
        invariant
            graph.wf(),
            complete_snapshot(nodes@, graph@),
            pred == (|s: Node| is_jammed(nodes@, graph@[s.id as int], s)),
            n == nodes@.len(),
            k <= n,
            out@ == nodes@.take(k as int).filter(pred),
        decreases n - k,
    {
        let node = nodes[k];
        let nbrs = graph.neighbors(k);
        let m = nbrs.len();
        let mut sum: u128 = 0;
        let mut j: usize = 0;
        while j < m
            invariant
                complete_snapshot(nodes@, graph@),
                n == nodes@.len(),
                k < n,
                nbrs@ == graph@[k as int],
                graph@.len() == n,
                forall|b: int| 0 <= b < nbrs@.len() ==> (#[trigger] nbrs@[b]) < n,
                m == nbrs@.len(),
                j <= m,
                sum == neighbor_sum(nodes@, nbrs@.take(j as int)),
                sum <= j * 0x7fff_ffff,
            decreases m - j,
        {
            proof {
                assert(nbrs@.take(j + 1).drop_last() =~= nbrs@.take(j as int));
                assert(nbrs@.take(j + 1).last() == nbrs@[j as int]);
            }
            let idx = nbrs[j];
            let speed = nodes[idx].avg_speed;
            proof {
                assert(nodes@[idx as int].avg_speed >= 0);
            }
            sum = sum + speed as u128;
            j = j + 1;
        }
        proof {
            assert(nbrs@.take(m as int) =~= nbrs@);
        }
        let jammed = if m > 0 {
            let avg = sum / (m as u128);
            (node.avg_speed as u128) * 2 < avg
        } else {
            false
        };
        proof {
            assert(node.id == k as int);
            assert(jammed == is_jammed(nodes@, graph@[node.id as int], node));
            lemma_filter_push(nodes@.take(k as int), node, pred);
            assert(nodes@.take(k + 1) =~= nodes@.take(k as int).push(node));
        }
        if jammed {
            out.push(node);
        }
        k = k + 1;
    }
    proof {
        assert(nodes@.take(n as int) =~= nodes@);
    }
    out
}

/// Check whether a snapshot handed back by the store is usable for
/// detection: complete for the graph's id space, ordered by id, and within
/// the sensor-reported speed range.
pub fn is_complete_snapshot(nodes: &Vec<Node>, graph: &AdjacencyGraph) -> (r: bool)
    ensures
        r == complete_snapshot(nodes@, graph@),
{
    if nodes.len() != graph.len() {
        return false;
    }
    let n = nodes.len();
    let mut k: usize = 0;
    while k < n
        invariant
            n == nodes@.len(),
            k <= n,
            forall|i: int| 0 <= i < k ==> (#[trigger] nodes@[i]).id == i && nodes@[i].avg_speed >= 0,
        decreases n - k,
    {
        let node = nodes[k];
        if node.id < 0 || node.avg_speed < 0 {
            return false;
        }
        if node.id as usize != k {
            return false;
        }
        k = k + 1;
    }
    true
}

/// Serve one detection request from the store's answer. A store failure, or
/// a snapshot the store should never produce, fails the whole request with
/// `StoreUnavailable`; a partial or truncated jam list is never returned.
pub fn jams_query(fetch: Result<Vec<Node>, Error>, graph: &AdjacencyGraph) -> (r: Result<
    Vec<Node>,
    Error,
>)
    requires
        graph.wf(),
    ensures
        match fetch {
            Ok(nodes) => if complete_snapshot(nodes@, graph@) {
                r matches Ok(jams) && jams@ == jam_list(nodes@, graph@)
            } else {
                r == Err::<Vec<Node>, Error>(Error::StoreUnavailable)
            },
            Err(_) => r == Err::<Vec<Node>, Error>(Error::StoreUnavailable),
        },
{
    match fetch {
        Ok(nodes) => {
            if is_complete_snapshot(&nodes, graph) {
                Ok(detect_jams(&nodes, graph))
            } else {
                Err(Error::StoreUnavailable)
            }
        },
        Err(_) => Err(Error::StoreUnavailable),
    }
}

/// Jam classification, segment by segment: a segment's record appears in
/// the jam list exactly when its neighbor set is non-empty and twice its
/// speed is strictly below the truncating average of its neighbors'
/// speeds. A segment with an empty neighbor set is never jammed, whatever
/// the speeds.
pub proof fn lemma_jam_classification(nodes: Seq<Node>, g: Seq<Seq<usize>>, k: int)
    requires
        graph_wf(g),
        complete_snapshot(nodes, g),
        0 <= k < nodes.len(),
    ensures
        jam_list(nodes, g).contains(nodes[k]) <==> g[k].len() > 0 && nodes[k].avg_speed * 2
            < neighbor_sum(nodes, g[k]) / g[k].len() as int,
        g[k].len() == 0 ==> !jam_list(nodes, g).contains(nodes[k]),
{
    let pred = |s: Node| is_jammed(nodes, g[s.id as int], s);
    let jams = jam_list(nodes, g);
    assert(nodes[k].id == k);
    if pred(nodes[k]) {
        nodes.lemma_filter_contains(pred, k);
    }
    if jams.contains(nodes[k]) {
        let j = choose|j: int| 0 <= j < jams.len() && jams[j] == nodes[k];
        nodes.lemma_filter_pred(pred, j);
    }
}

} // verus!
