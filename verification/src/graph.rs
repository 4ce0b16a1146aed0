use vstd::prelude::*;

use crate::errors::Error;

verus! {

/// A topology description is well formed when every neighbor it names lies
/// inside the declared id space and no neighbor list repeats an id.
pub open spec fn graph_wf(g: Seq<Seq<usize>>) -> bool {
    &&& forall|i: int, j: int|
        0 <= i < g.len() && 0 <= j < g[i].len() ==> (#[trigger] g[i][j]) < g.len()
    &&& forall|i: int, j1: int, j2: int|
        0 <= i < g.len() && 0 <= j1 < g[i].len() && 0 <= j2 < g[i].len() && j1 != j2
            ==> (#[trigger] g[i][j1]) != (#[trigger] g[i][j2])
}

/// The static road-segment adjacency graph: a fixed mapping from segment id
/// to the ids of its topological neighbors, indexed by the same dense id
/// space `0..N` as the segment records. Built once at startup and never
/// mutated afterwards.
pub struct AdjacencyGraph {
    adj: Vec<Vec<usize>>,
}

impl View for AdjacencyGraph {
    type V = Seq<Seq<usize>>;

    closed spec fn view(&self) -> Seq<Seq<usize>> {
        self.adj@.map_values(|v: Vec<usize>| v@)
    }
}

impl AdjacencyGraph {
    pub open spec fn wf(&self) -> bool {
        graph_wf(self@)
    }

    /// Build the graph from a topology description, one neighbor list per
    /// segment id in order. Construction is a startup precondition: a
    /// description that names an id outside the declared range, or repeats a
    /// neighbor, is rejected as a configuration error, and there is no
    /// runtime recovery path.
    pub fn new(adj: Vec<Vec<usize>>) -> (r: Result<AdjacencyGraph, Error>)
        ensures
            r matches Ok(g) ==> g@ == adj@.map_values(|v: Vec<usize>| v@) && g.wf(),
            r is Ok <==> graph_wf(adj@.map_values(|v: Vec<usize>| v@)),
            r is Err ==> r == Err::<AdjacencyGraph, Error>(Error::ConfigError),
    {
        let ghost gv = adj@.map_values(|v: Vec<usize>| v@);
        let n = adj.len();
        let mut i: usize = 0;
        while i < n
            invariant
                n == adj@.len(),
                gv == adj@.map_values(|v: Vec<usize>| v@),
                i <= n,
                forall|a: int, b: int|
                    0 <= a < i && 0 <= b < gv[a].len() ==> (#[trigger] gv[a][b]) < n,
                forall|a: int, b1: int, b2: int|
                    0 <= a < i && 0 <= b1 < gv[a].len() && 0 <= b2 < gv[a].len() && b1 != b2
                        ==> (#[trigger] gv[a][b1]) != (#[trigger] gv[a][b2]),
            decreases n - i,
        {
            let row = &adj[i];
            let m = row.len();
            let mut j: usize = 0;
            while j < m
                invariant
                    n == adj@.len(),
                    gv == adj@.map_values(|v: Vec<usize>| v@),
                    i < n,
                    m == gv[i as int].len(),
                    row@ == gv[i as int],
                    j <= m,
                    forall|b: int| 0 <= b < j ==> (#[trigger] gv[i as int][b]) < n,
                    forall|b1: int, b2: int|
                        0 <= b1 < j && 0 <= b2 < j && b1 != b2 ==> (#[trigger] gv[i as int][b1])
                            != (#[trigger] gv[i as int][b2]),
                decreases m - j,
            {
                if row[j] >= n {
                    return Err(Error::ConfigError);
                }
                let mut k: usize = 0;
                while k < j
                    invariant
                        gv == adj@.map_values(|v: Vec<usize>| v@),
                        i < gv.len(),
                        m == gv[i as int].len(),
                        row@ == gv[i as int],
                        k <= j < m,
                        forall|b: int| 0 <= b < k ==> (#[trigger] gv[i as int][b]) != gv[i as int][j as int],
                    decreases j - k,
                {
                    if row[k] == row[j] {
                        proof {
                            assert(gv[i as int][k as int] == gv[i as int][j as int]);
                            assert(!graph_wf(gv));
                        }
                        return Err(Error::ConfigError);
                    }
                    k = k + 1;
                }
                j = j + 1;
            }
            i = i + 1;
        }
        Ok(AdjacencyGraph { adj })
    }

    /// The number of segment ids the graph covers.
    pub fn len(&self) -> (r: usize)
        ensures
            r == self@.len(),
    {
        self.adj.len()
    }

    /// The neighbor ids of a segment. A lookup outside the id space is a
    /// programming error, not a runtime condition, so the bound is a
    /// precondition.
    pub fn neighbors(&self, id: usize) -> (r: &Vec<usize>)
        requires
            id < self@.len(),
        ensures
            r@ == self@[id as int],
    {
        &self.adj[id]
    }
}

} // verus!
