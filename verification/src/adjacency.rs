use crate::edge::Edge;
use crate::graph::Graph;
use vstd::prelude::*;

verus! {

impl Graph {
    /// Whether scanning `edge` writes the adjacency cell `(i, j)`: it does
    /// when its endpoints sit at those positions, and on an undirected graph
    /// also at the mirrored positions.
    pub open spec fn edge_writes(self, edge: Edge, i: int, j: int) -> bool {
        (self.key_index(edge.vertex1@) == i && self.key_index(edge.vertex2@) == j) || (
        !self.directed && self.key_index(edge.vertex2@) == i && self.key_index(edge.vertex1@)
            == j)
    }

    /// The weight written last into cell `(i, j)` while scanning `edges`
    /// front to back, or `None` when no edge writes it.
    pub open spec fn last_weight(self, edges: Seq<Edge>, i: int, j: int) -> Option<u32>
        decreases edges.len(),
    {
        if edges.len() == 0 {
            None
        } else if self.edge_writes(edges.last(), i, j) {
            Some(edges.last().weight)
        } else {
            self.last_weight(edges.drop_last(), i, j)
        }
    }

    /// The adjacency cell `(i, j)`: the weight of the edge from vertex `i`
    /// to vertex `j` that the scan settles on, or `None` when there is no
    /// such edge. When several stored edges address the same cell, the one
    /// scanned last wins.
    pub open spec fn adj_cell(self, i: int, j: int) -> Option<u32> {
        self.last_weight(self.all_edges(), i, j)
    }

    /// Extending the scan by one edge overwrites exactly the cells that the
    /// edge writes.
    pub(crate) proof fn lemma_last_weight_push(self, edges: Seq<Edge>, edge: Edge)
        ensures
            forall|i: int, j: int|
                #[trigger] self.last_weight(edges.push(edge), i, j) == if self.edge_writes(
                    edge,
                    i,
                    j,
                ) {
                    Some(edge.weight)
                } else {
                    self.last_weight(edges, i, j)
                },
    {
        assert(edges.push(edge).drop_last() =~= edges);
        assert(edges.push(edge).last() == edge);
    }

    /// Returns the dense adjacency matrix: an `n x n` table, `n` the vertex
    /// count, whose cell `(i, j)` holds the weight of the edge from vertex
    /// `i` to vertex `j`, or `None` when no edge connects them. `None` is
    /// distinct from a stored zero weight. On an undirected graph each edge
    /// fills the two mirrored cells.
    pub fn adjacency_matrix(&self) -> (m: Vec<Vec<Option<u32>>>)
        requires
            self.wf(),
        ensures
            m@.len() == self.vertices@.len(),
            forall|i: int|
                0 <= i < m@.len() ==> (#[trigger] m@[i])@.len() == self.vertices@.len(),
            forall|i: int, j: int|
                0 <= i < m@.len() && 0 <= j < m@.len() ==> (#[trigger] m@[i]@[j]) == self.adj_cell(
                    i,
                    j,
                ),
    {
        let n = self.vertices.len();
        let mut matrix: Vec<Vec<Option<u32>>> = Vec::new();
        while matrix.len() < n
            invariant
                matrix@.len() <= n,
                forall|a: int| 0 <= a < matrix@.len() ==> (#[trigger] matrix@[a])@.len() == n,
                forall|a: int, b: int|
                    0 <= a < matrix@.len() && 0 <= b < n ==> (#[trigger] matrix@[a]@[b]) is None,
            decreases n - matrix.len(),
        {
            let mut row: Vec<Option<u32>> = Vec::new();
            while row.len() < n
                invariant
                    row@.len() <= n,
                    forall|b: int| 0 <= b < row@.len() ==> (#[trigger] row@[b]) is None,
                decreases n - row.len(),
            {
                row.push(None);
            }
            matrix.push(row);
        }
        let mut p: usize = 0;
        while p < n
            invariant
                self.wf(),
                p <= n,
                n == self.vertices@.len(),
                matrix@.len() == n,
                forall|a: int| 0 <= a < n ==> (#[trigger] matrix@[a])@.len() == n,
                forall|a: int, b: int|
                    0 <= a < n && 0 <= b < n ==> (#[trigger] matrix@[a]@[b]) == self.last_weight(
                        self.edges_up_to(p as int),
                        a,
                        b,
                    ),
            decreases n - p,
        {
            let d = self.vertices[p].edges.len();
            let mut q: usize = 0;
            while q < d
                invariant
                    self.wf(),
                    p < n,
                    q <= d,
                    n == self.vertices@.len(),
                    d == self.vertices@[p as int].edges@.len(),
                    matrix@.len() == n,
                    forall|a: int| 0 <= a < n ==> (#[trigger] matrix@[a])@.len() == n,
                    forall|a: int, b: int|
                        0 <= a < n && 0 <= b < n ==> (#[trigger] matrix@[a]@[b])
                            == self.last_weight(
                            self.edges_up_to(p as int) + self.vertices@[p as int].edges@.take(
                                q as int,
                            ),
                            a,
                            b,
                        ),
                decreases d - q,
            {
                let ghost prefix = self.edges_up_to(p as int) + self.vertices@[
                    p as int].edges@.take(q as int);
                let edge = &self.vertices[p].edges[q];
                proof {
                    assert(self.has_key(edge.vertex1@) && self.has_key(edge.vertex2@));
                    self.lemma_key_index(edge.vertex1@);
                    self.lemma_key_index(edge.vertex2@);
                }
                let i = self.index_of_present_key(&edge.vertex1);
                let j = self.index_of_present_key(&edge.vertex2);
                let w = edge.weight;
                matrix[i][j] = Some(w);
                if !self.directed {
                    matrix[j][i] = Some(w);
                }
                proof {
                    let e = self.vertices@[p as int].edges@[q as int];
                    assert(self.vertices@[p as int].edges@.take(q + 1)
                        =~= self.vertices@[p as int].edges@.take(q as int).push(e));
                    assert(self.edges_up_to(p as int) + self.vertices@[p as int].edges@.take(
                        q + 1,
                    ) =~= prefix.push(e));
                    self.lemma_last_weight_push(prefix, e);
                    assert forall|a: int, b: int|
                        0 <= a < n && 0 <= b < n implies (#[trigger] matrix@[a]@[b])
                        == self.last_weight(prefix.push(e), a, b) by {
                        if self.edge_writes(e, a, b) {
                            assert((a == i && b == j) || (!self.directed && a == j && b == i));
                        }
                    }
                }
                q = q + 1;
            }
            proof {
                assert(self.vertices@[p as int].edges@.take(d as int)
                    =~= self.vertices@[p as int].edges@);
                assert(self.edges_up_to(p as int) + self.vertices@[p as int].edges@.take(d as int)
                    =~= self.edges_up_to(p + 1));
            }
            p = p + 1;
        }
        matrix
    }
}

} // verus!
