use crate::graph::Graph;
use vstd::prelude::*;

verus! {

impl Graph {
    /// The degree of the vertex at position `p`: the number of edges stored
    /// in its own list. On an undirected graph this already counts the
    /// copies recorded from the other endpoint, so it is the number of
    /// incident edge records, not of distinct neighbors.
    pub open spec fn deg(self, p: int) -> int {
        self.vertices@[p].edges@.len() as int
    }

    /// The sum of the degrees of the first `p` vertices: the offset where
    /// vertex `p`'s neighbor run starts in the CSR neighbor list.
    pub open spec fn prefix_deg(self, p: int) -> int
        decreases p,
    {
        if p <= 0 {
            0
        } else {
            self.prefix_deg(p - 1) + self.deg(p - 1)
        }
    }

    /// The key sitting at the other end of the `k`-th edge stored on the
    /// vertex at position `p`; a self-loop names the vertex's own key.
    pub open spec fn neighbor(self, p: int, k: int) -> Seq<char> {
        let e = self.vertices@[p].edges@[k];
        if e.vertex1@ == self.vertices@[p].value@ {
            e.vertex2@
        } else {
            e.vertex1@
        }
    }

    /// The CSR slot for the `k`-th edge of vertex `p` is filled: `slots` at
    /// offset `prefix_deg(p) + k` names the other endpoint of that edge.
    pub open spec fn csr_slot_ok(self, slots: Seq<Option<String>>, p: int, k: int) -> bool {
        (slots[self.prefix_deg(p) + k]) is Some && ((slots[self.prefix_deg(p) + k])->0)@
            == self.neighbor(p, k)
    }

    /// Offsets never shrink as the scan advances.
    pub(crate) proof fn lemma_prefix_deg_mono(self, a: int, b: int)
        requires
            a <= b,
        ensures
            self.prefix_deg(a) <= self.prefix_deg(b),
        decreases b - a,
    {
        if a < b {
            self.lemma_prefix_deg_mono(a, b - 1);
        }
    }

    /// Returns the Compressed Sparse Row encoding `(adjacents, indices)`.
    ///
    /// `indices` has one offset per vertex plus a final total: vertex `p`'s
    /// neighbors occupy `adjacents[indices[p] .. indices[p + 1]]`, in the
    /// order its edges were stored, each slot naming the other endpoint of
    /// one stored edge. A single trailing `None` closes the whole list, so
    /// `adjacents` is one longer than the final offset.
    pub fn csr_representation(&self) -> (r: (Vec<Option<String>>, Vec<usize>))
        ensures
            r.1@.len() == self.vertices@.len() + 1,
            forall|p: int| 0 <= p <= self.vertices@.len() ==> r.1@[p] == self.prefix_deg(p),
            r.0@.len() == self.prefix_deg(self.vertices@.len() as int) + 1,
            r.0@.len() - 1 == r.1@[self.vertices@.len() as int],
            r.0@[r.0@.len() - 1] is None,
            forall|p: int, k: int|
                0 <= p < self.vertices@.len() && 0 <= k < self.deg(p)
                    ==> #[trigger] self.csr_slot_ok(r.0@, p, k),
    {
        let n = self.vertices.len();
        let mut adjacents: Vec<Option<String>> = Vec::new();
        let mut indices: Vec<usize> = Vec::new();
        indices.push(0);
        let mut p: usize = 0;
        while p < n
            invariant
                p <= n,
                n == self.vertices@.len(),
                indices@.len() == p + 1,
                forall|t: int| 0 <= t <= p ==> indices@[t] == self.prefix_deg(t),
                adjacents@.len() == self.prefix_deg(p as int),
                forall|a: int, k: int|
                    0 <= a < p && 0 <= k < self.deg(a) ==> #[trigger] self.csr_slot_ok(
                        adjacents@,
                        a,
                        k,
                    ),
            decreases n - p,
        {
            let d = self.vertices[p].edges.len();
            let mut k: usize = 0;
            while k < d
                invariant
                    p < n,
                    k <= d,
                    n == self.vertices@.len(),
                    d == self.deg(p as int),
                    adjacents@.len() == self.prefix_deg(p as int) + k,
                    forall|a: int, t: int|
                        0 <= a < p && 0 <= t < self.deg(a) ==> #[trigger] self.csr_slot_ok(
                            adjacents@,
                            a,
                            t,
                        ),
                    forall|t: int|
                        0 <= t < k ==> #[trigger] self.csr_slot_ok(adjacents@, p as int, t),
                decreases d - k,
            {
                let edge = &self.vertices[p].edges[k];
                let neighbor_value: &String = if edge.vertex1 == self.vertices[p].value {
                    &edge.vertex2
                } else {
                    &edge.vertex1
                };
                let ghost snap = adjacents@;
                adjacents.push(Some(neighbor_value.clone()));
                proof {
                    assert forall|a: int, t: int|
                        0 <= a < p && 0 <= t < self.deg(a) implies #[trigger] self.csr_slot_ok(
                        adjacents@,
                        a,
                        t,
                    ) by {
                        assert(self.csr_slot_ok(snap, a, t));
                        self.lemma_prefix_deg_mono(0, a);
                        self.lemma_prefix_deg_mono(a + 1, p as int);
                        assert(0 <= self.prefix_deg(a) + t < snap.len());
                        assert(adjacents@[self.prefix_deg(a) + t] == snap[self.prefix_deg(a) + t]);
                    }
                    assert forall|t: int| 0 <= t < k + 1 implies #[trigger] self.csr_slot_ok(
                        adjacents@,
                        p as int,
                        t,
                    ) by {
                        self.lemma_prefix_deg_mono(0, p as int);
                        if t < k {
                            assert(self.csr_slot_ok(snap, p as int, t));
                            assert(adjacents@[self.prefix_deg(p as int) + t] == snap[self.prefix_deg(
                                p as int,
                            ) + t]);
                        } else {
                            assert(adjacents@[self.prefix_deg(p as int) + t] == adjacents@.last());
                        }
                    }
                }
                k = k + 1;
            }
            indices.push(adjacents.len());
            p = p + 1;
        }
        let ghost snap = adjacents@;
        adjacents.push(None);
        proof {
            assert forall|a: int, t: int|
                0 <= a < n && 0 <= t < self.deg(a) implies #[trigger] self.csr_slot_ok(
                adjacents@,
                a,
                t,
            ) by {
                assert(self.csr_slot_ok(snap, a, t));
                self.lemma_prefix_deg_mono(0, a);
                self.lemma_prefix_deg_mono(a + 1, n as int);
                assert(0 <= self.prefix_deg(a) + t < snap.len());
                assert(adjacents@[self.prefix_deg(a) + t] == snap[self.prefix_deg(a) + t]);
            }
        }
        (adjacents, indices)
    }
}

} // verus!
