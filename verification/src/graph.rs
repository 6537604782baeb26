use crate::edge::Edge;
use crate::vertex::Vertex;
use vstd::prelude::*;

verus! {

/// The error returned by [`Graph::add_edge`] when an endpoint key is not
/// registered in the graph. It carries the missing key.
#[derive(Debug)]
pub struct MissingVertex(pub String);

/// A labeled graph, directed or undirected.
///
/// Vertices are kept in insertion order, with unique keys; a vertex's
/// position in `vertices` is its row and column index in every derived
/// representation, so the output of the conversions is reproducible.
pub struct Graph {
    /// The registered vertices, in insertion order.
    pub vertices: Vec<Vertex>,
    /// Whether edges are one-way (`true`) or symmetric (`false`); chosen at
    /// construction and never changed afterwards.
    pub directed: bool,
    /// The number of successful [`Graph::add_edge`] calls.
    pub edge_count: usize,
}

/// `post` is `pre` with `edge` appended to the edge list of the vertex at
/// position `i`, and everything else unchanged.
pub open spec fn pushed_edge(pre: Graph, post: Graph, i: int, edge: Edge) -> bool {
    &&& post.vertices@.len() == pre.vertices@.len()
    &&& post.vertices@[i].value == pre.vertices@[i].value
    &&& post.vertices@[i].edges@ == pre.vertices@[i].edges@.push(edge)
    &&& forall|q: int|
        0 <= q < pre.vertices@.len() && q != i ==> post.vertices@[q] == pre.vertices@[q]
}

/// `post` is `pre` with `edge` appended to the edge lists of the vertices at
/// positions `i` and `j` (twice to the same list when `i == j`), and
/// everything else unchanged.
pub open spec fn pushed_edge_both(pre: Graph, post: Graph, i: int, j: int, edge: Edge) -> bool {
    if i == j {
        &&& post.vertices@.len() == pre.vertices@.len()
        &&& post.vertices@[i].value == pre.vertices@[i].value
        &&& post.vertices@[i].edges@ == pre.vertices@[i].edges@.push(edge).push(edge)
        &&& forall|q: int|
            0 <= q < pre.vertices@.len() && q != i ==> post.vertices@[q] == pre.vertices@[q]
    } else {
        &&& post.vertices@.len() == pre.vertices@.len()
        &&& post.vertices@[i].value == pre.vertices@[i].value
        &&& post.vertices@[i].edges@ == pre.vertices@[i].edges@.push(edge)
        &&& post.vertices@[j].value == pre.vertices@[j].value
        &&& post.vertices@[j].edges@ == pre.vertices@[j].edges@.push(edge)
        &&& forall|q: int|
            0 <= q < pre.vertices@.len() && q != i && q != j ==> post.vertices@[q]
                == pre.vertices@[q]
    }
}

impl Graph {
    /// No two registered vertices share a key.
    pub open spec fn keys_unique(self) -> bool {
        forall|i: int, j: int|
            0 <= i < j < self.vertices@.len() ==> (#[trigger] self.vertices@[i].value@) != (
            #[trigger] self.vertices@[j].value@)
    }

    /// Some registered vertex carries the given key.
    pub open spec fn has_key(self, key: Seq<char>) -> bool {
        exists|i: int|
            0 <= i < self.vertices@.len() && (#[trigger] self.vertices@[i].value@) == key
    }

    /// The position of the vertex carrying the given key; meaningful under
    /// `keys_unique` when `has_key` holds.
    pub open spec fn key_index(self, key: Seq<char>) -> int {
        choose|i: int|
            0 <= i < self.vertices@.len() && (#[trigger] self.vertices@[i].value@) == key
    }

    /// Every stored edge references endpoint keys registered in the graph.
    pub open spec fn edges_closed(self) -> bool {
        forall|p: int, k: int|
            0 <= p < self.vertices@.len() && 0 <= k < self.vertices@[p].edges@.len()
                ==> self.has_key((#[trigger] self.vertices@[p].edges@[k]).vertex1@)
                && self.has_key(self.vertices@[p].edges@[k].vertex2@)
    }

    /// A graph on which every derived representation is defined: keys are
    /// unique and edge lists only reference registered vertices. This holds
    /// of every graph built through [`Graph::new`], [`Graph::add_vertex`]
    /// (with fresh vertices) and successful [`Graph::add_edge`] calls.
    pub open spec fn wf(self) -> bool {
        self.keys_unique() && self.edges_closed()
    }

    /// Under unique keys, `key_index` lands on a vertex carrying `key`, and
    /// no other position carries it.
    pub(crate) proof fn lemma_key_index(self, key: Seq<char>)
        requires
            self.keys_unique(),
            self.has_key(key),
        ensures
            0 <= self.key_index(key) < self.vertices@.len(),
            self.vertices@[self.key_index(key)].value@ == key,
            forall|i: int|
                0 <= i < self.vertices@.len() && (#[trigger] self.vertices@[i].value@) == key
                    ==> i == self.key_index(key),
    {
        let c = self.key_index(key);
        assert(0 <= c < self.vertices@.len() && self.vertices@[c].value@ == key);
        assert forall|i: int|
            0 <= i < self.vertices@.len() && (#[trigger] self.vertices@[i].value@) == key
                implies i == c by {
            if i < c {
                assert(self.vertices@[i].value@ != self.vertices@[c].value@);
            } else if c < i {
                assert(self.vertices@[c].value@ != self.vertices@[i].value@);
            }
        }
    }

    /// The stored edges of the first `p` vertices, in scan order: vertex by
    /// vertex, each edge list in insertion order.
    pub open spec fn edges_up_to(self, p: int) -> Seq<Edge>
        decreases p,
    {
        if p <= 0 {
            Seq::empty()
        } else {
            self.edges_up_to(p - 1) + self.vertices@[p - 1].edges@
        }
    }

    /// All stored edges, in scan order. An undirected edge appears once per
    /// endpoint that holds a copy of it.
    pub open spec fn all_edges(self) -> Seq<Edge> {
        self.edges_up_to(self.vertices@.len() as int)
    }

    /// Each stored edge occurs in the scan.
    pub(crate) proof fn lemma_stored_in_scan(self, p: int, k: int, q: int)
        requires
            0 <= p < q <= self.vertices@.len(),
            0 <= k < self.vertices@[p].edges@.len(),
        ensures
            self.edges_up_to(q).contains(self.vertices@[p].edges@[k]),
        decreases q,
    {
        if p == q - 1 {
            let s = self.edges_up_to(q);
            assert(s[self.edges_up_to(p).len() + k] == self.vertices@[p].edges@[k]);
        } else {
            self.lemma_stored_in_scan(p, k, q - 1);
            let s = self.edges_up_to(q - 1);
            let w = choose|w: int| 0 <= w < s.len() && s[w] == self.vertices@[p].edges@[k];
            assert(self.edges_up_to(q)[w] == self.vertices@[p].edges@[k]);
        }
    }

    /// Each edge in the scan is a stored edge.
    pub(crate) proof fn lemma_scan_is_stored(self, q: int, t: int)
        requires
            0 <= q <= self.vertices@.len(),
            0 <= t < self.edges_up_to(q).len(),
        ensures
            exists|p: int, k: int|
                0 <= p < q && 0 <= k < self.vertices@[p].edges@.len() && self.edges_up_to(q)[t]
                    == (#[trigger] self.vertices@[p].edges@[k]),
        decreases q,
    {
        let s = self.edges_up_to(q);
        let prev = self.edges_up_to(q - 1);
        if t < prev.len() {
            self.lemma_scan_is_stored(q - 1, t);
            let (p, k) = choose|p: int, k: int|
                0 <= p < q - 1 && 0 <= k < self.vertices@[p].edges@.len() && prev[t] == (
                #[trigger] self.vertices@[p].edges@[k]);
            assert(s[t] == self.vertices@[p].edges@[k]);
        } else {
            let k = t - prev.len();
            assert(s[t] == self.vertices@[q - 1].edges@[k]);
        }
    }

    /// Endpoints of every edge in the scan of a well-formed graph are
    /// registered keys.
    pub(crate) proof fn lemma_scan_closed(self, t: int)
        requires
            self.wf(),
            0 <= t < self.all_edges().len(),
        ensures
            self.has_key(self.all_edges()[t].vertex1@),
            self.has_key(self.all_edges()[t].vertex2@),
    {
        self.lemma_scan_is_stored(self.vertices@.len() as int, t);
    }

    /// Creates an empty graph; `directed` fixes the edge discipline for its
    /// whole lifetime.
    pub fn new(directed: bool) -> (g: Graph)
        ensures
            g.vertices@.len() == 0,
            g.directed == directed,
            g.edge_count == 0,
            g.wf(),
    {
        Graph { vertices: Vec::new(), directed, edge_count: 0 }
    }

    /// Finds the position of the vertex carrying `key`, if one is registered.
    fn index_of_key(&self, key: &String) -> (r: Option<usize>)
        requires
            self.keys_unique(),
        ensures
            match r {
                Some(i) => {
                    &&& i < self.vertices@.len()
                    &&& self.vertices@[i as int].value@ == key@
                    &&& i == self.key_index(key@)
                },
                None => !self.has_key(key@),
            },
    {
        let n = self.vertices.len();
        let mut i: usize = 0;
        while i < n
            invariant
                i <= n,
                n == self.vertices@.len(),
                self.keys_unique(),
                forall|j: int| 0 <= j < i ==> (#[trigger] self.vertices@[j].value@) != key@,
            decreases n - i,
        {
            if self.vertices[i].value == *key {
                proof {
                    assert(self.has_key(key@));
                    self.lemma_key_index(key@);
                }
                return Some(i);
            }
            i = i + 1;
        }
        proof {
            assert(!self.has_key(key@));
        }
        None
    }

    /// The position of the vertex carrying `key`, which must be registered.
    pub(crate) fn index_of_present_key(&self, key: &String) -> (i: usize)
        requires
            self.keys_unique(),
            self.has_key(key@),
        ensures
            i < self.vertices@.len(),
            self.vertices@[i as int].value@ == key@,
            i == self.key_index(key@),
    {
        match self.index_of_key(key) {
            Some(i) => i,
            None => vstd::pervasive::unreached(),
        }
    }

    /// Registers `vertex` under its key. A vertex already registered under
    /// the same key is replaced in place, keeping its position (and so its
    /// index in the derived representations); the replaced vertex's own edge
    /// list is discarded with it.
    pub fn add_vertex(&mut self, vertex: Vertex)
        requires
            old(self).keys_unique(),
        ensures
            final(self).directed == old(self).directed,
            final(self).edge_count == old(self).edge_count,
            final(self).keys_unique(),
            old(self).has_key(vertex.value@) ==> final(self).vertices@ == old(
                self,
            ).vertices@.update(old(self).key_index(vertex.value@), vertex),
            !old(self).has_key(vertex.value@) ==> final(self).vertices@ == old(
                self,
            ).vertices@.push(vertex),
            old(self).wf() && vertex.edges@.len() == 0 ==> final(self).wf(),
    {
        let ghost pre = *self;
        let r = self.index_of_key(&vertex.value);
        match r {
            Some(i) => {
                self.vertices[i] = vertex;
            },
            None => {
                self.vertices.push(vertex);
            },
        }
        proof {
            self.lemma_add_vertex_post(pre, vertex);
        }
    }

    /// The shape of the state after `add_vertex`: unique keys are preserved,
    /// the key set is unchanged but for the inserted key, and a well-formed
    /// graph stays well-formed when the inserted vertex has no edges.
    proof fn lemma_add_vertex_post(self, pre: Graph, vertex: Vertex)
        requires
            pre.keys_unique(),
            pre.has_key(vertex.value@) ==> self.vertices@ == pre.vertices@.update(
                pre.key_index(vertex.value@),
                vertex,
            ),
            !pre.has_key(vertex.value@) ==> self.vertices@ == pre.vertices@.push(vertex),
        ensures
            self.keys_unique(),
            pre.wf() && vertex.edges@.len() == 0 ==> self.wf(),
    {
        if pre.has_key(vertex.value@) {
            pre.lemma_key_index(vertex.value@);
            let t = pre.key_index(vertex.value@);
            assert forall|i: int|
                0 <= i < self.vertices@.len() implies (#[trigger] self.vertices@[i].value@)
                == pre.vertices@[i].value@ by {
                if i == t {
                    assert(self.vertices@[i].value@ == vertex.value@);
                }
            }
            assert(self.keys_unique());
            if pre.wf() && vertex.edges@.len() == 0 {
                assert forall|key: Seq<char>| pre.has_key(key) implies self.has_key(key) by {
                    let w = choose|i: int|
                        0 <= i < pre.vertices@.len() && (#[trigger] pre.vertices@[i].value@)
                            == key;
                    assert(self.vertices@[w].value@ == key);
                }
                assert forall|p: int, k: int|
                    0 <= p < self.vertices@.len() && 0 <= k
                        < self.vertices@[p].edges@.len() implies self.has_key(
                    (#[trigger] self.vertices@[p].edges@[k]).vertex1@,
                ) && self.has_key(self.vertices@[p].edges@[k].vertex2@) by {
                    if p != t {
                        assert(self.vertices@[p] == pre.vertices@[p]);
                        assert(pre.has_key(pre.vertices@[p].edges@[k].vertex1@));
                        assert(pre.has_key(pre.vertices@[p].edges@[k].vertex2@));
                    }
                }
            }
        } else {
            let n = pre.vertices@.len() as int;
            assert forall|i: int, j: int|
                0 <= i < j < self.vertices@.len() implies (#[trigger] self.vertices@[i].value@)
                != (#[trigger] self.vertices@[j].value@) by {
                if j < n {
                    assert(pre.vertices@[i].value@ != pre.vertices@[j].value@);
                } else {
                    assert(self.vertices@[j].value@ == vertex.value@);
                    if self.vertices@[i].value@ == vertex.value@ {
                        assert(pre.has_key(vertex.value@));
                    }
                }
            }
            if pre.wf() && vertex.edges@.len() == 0 {
                assert forall|key: Seq<char>| pre.has_key(key) implies self.has_key(key) by {
                    let w = choose|i: int|
                        0 <= i < pre.vertices@.len() && (#[trigger] pre.vertices@[i].value@)
                            == key;
                    assert(self.vertices@[w].value@ == key);
                }
                assert forall|p: int, k: int|
                    0 <= p < self.vertices@.len() && 0 <= k
                        < self.vertices@[p].edges@.len() implies self.has_key(
                    (#[trigger] self.vertices@[p].edges@[k]).vertex1@,
                ) && self.has_key(self.vertices@[p].edges@[k].vertex2@) by {
                    if p < n {
                        assert(self.vertices@[p] == pre.vertices@[p]);
                        assert(pre.has_key(pre.vertices@[p].edges@[k].vertex1@));
                        assert(pre.has_key(pre.vertices@[p].edges@[k].vertex2@));
                    }
                }
            }
        }
    }

    /// Records `edge` against its endpoints.
    ///
    /// The first endpoint key is resolved first: if it is absent, the call
    /// fails with that key and the graph is left untouched. Otherwise the
    /// edge is appended to the first endpoint's list before the second key
    /// is checked, so when only the second key is absent the call fails with
    /// the first endpoint already holding the edge and `edge_count`
    /// unchanged. On success an undirected graph also appends a copy of the
    /// edge to the second endpoint's list, and `edge_count` grows by exactly
    /// one either way.
    pub fn add_edge(&mut self, edge: Edge) -> (r: Result<(), MissingVertex>)
        requires
            old(self).keys_unique(),
            old(self).edge_count < usize::MAX,
        ensures
            final(self).directed == old(self).directed,
            final(self).vertices@.len() == old(self).vertices@.len(),
            final(self).keys_unique(),
            !old(self).has_key(edge.vertex1@) ==> {
                &&& r matches Err(e) && e.0@ == edge.vertex1@
                &&& *final(self) == *old(self)
            },
            old(self).has_key(edge.vertex1@) && !old(self).has_key(edge.vertex2@) ==> {
                &&& r matches Err(e) && e.0@ == edge.vertex2@
                &&& final(self).edge_count == old(self).edge_count
                &&& pushed_edge(*old(self), *final(self), old(self).key_index(edge.vertex1@), edge)
            },
            old(self).has_key(edge.vertex1@) && old(self).has_key(edge.vertex2@) && old(
                self,
            ).directed ==> {
                &&& r is Ok
                &&& final(self).edge_count == old(self).edge_count + 1
                &&& pushed_edge(*old(self), *final(self), old(self).key_index(edge.vertex1@), edge)
            },
            old(self).has_key(edge.vertex1@) && old(self).has_key(edge.vertex2@) && !old(
                self,
            ).directed ==> {
                &&& r is Ok
                &&& final(self).edge_count == old(self).edge_count + 1
                &&& pushed_edge_both(
                    *old(self),
                    *final(self),
                    old(self).key_index(edge.vertex1@),
                    old(self).key_index(edge.vertex2@),
                    edge,
                )
            },
            old(self).wf() && r is Ok ==> final(self).wf(),
    {
        let ghost pre = *self;
        let i = match self.index_of_key(&edge.vertex1) {
            Some(i) => i,
            None => {
                return Err(MissingVertex(edge.vertex1));
            },
        };
        let j_opt = self.index_of_key(&edge.vertex2);
        let edge_copy = Edge {
            vertex1: edge.vertex1.clone(),
            vertex2: edge.vertex2.clone(),
            weight: edge.weight,
        };
        proof {
            assert(edge_copy == edge);
        }
        self.vertices[i].edges.push(edge);
        let j = match j_opt {
            Some(j) => j,
            None => {
                proof {
                    self.lemma_keys_preserved(pre);
                }
                return Err(MissingVertex(edge_copy.vertex2));
            },
        };
        if !self.directed {
            self.vertices[j].edges.push(edge_copy);
        }
        self.edge_count = self.edge_count + 1;
        proof {
            self.lemma_keys_preserved(pre);
            if pre.wf() {
                self.lemma_add_edge_wf(pre, edge);
            }
        }
        Ok(())
    }

    /// When only edge lists changed (same length, same keys position by
    /// position), key uniqueness, presence and positions carry over.
    proof fn lemma_keys_preserved(self, pre: Graph)
        requires
            pre.keys_unique(),
            self.vertices@.len() == pre.vertices@.len(),
            forall|q: int|
                0 <= q < pre.vertices@.len() ==> (#[trigger] self.vertices@[q].value@)
                    == pre.vertices@[q].value@,
        ensures
            self.keys_unique(),
            forall|key: Seq<char>| #[trigger] self.has_key(key) <==> pre.has_key(key),
            forall|key: Seq<char>|
                pre.has_key(key) ==> #[trigger] self.key_index(key) == pre.key_index(key),
    {
        assert forall|key: Seq<char>| #[trigger] self.has_key(key) <==> pre.has_key(key) by {
            if self.has_key(key) {
                let w = choose|i: int|
                    0 <= i < self.vertices@.len() && (#[trigger] self.vertices@[i].value@) == key;
                assert(pre.vertices@[w].value@ == key);
                assert(pre.has_key(key));
            }
            if pre.has_key(key) {
                let w = choose|i: int|
                    0 <= i < pre.vertices@.len() && (#[trigger] pre.vertices@[i].value@) == key;
                assert(self.vertices@[w].value@ == key);
                assert(self.has_key(key));
            }
        }
        assert forall|key: Seq<char>| pre.has_key(key) implies #[trigger] self.key_index(key)
            == pre.key_index(key) by {
            pre.lemma_key_index(key);
            assert(self.has_key(key));
            self.lemma_key_index(key);
            let c = self.key_index(key);
            assert(pre.vertices@[c].value@ == key);
        }
    }

    /// A successful `add_edge` on a well-formed graph leaves it well-formed:
    /// both endpoint keys were present, and no key changed.
    proof fn lemma_add_edge_wf(self, pre: Graph, edge: Edge)
        requires
            pre.wf(),
            pre.has_key(edge.vertex1@),
            pre.has_key(edge.vertex2@),
            self.vertices@.len() == pre.vertices@.len(),
            forall|q: int|
                0 <= q < pre.vertices@.len() ==> (#[trigger] self.vertices@[q].value@)
                    == pre.vertices@[q].value@,
            forall|p: int, k: int|
                0 <= p < self.vertices@.len() && 0 <= k < self.vertices@[p].edges@.len() ==> (
                #[trigger] self.vertices@[p].edges@[k]) == edge || (0 <= k
                    < pre.vertices@[p].edges@.len() && self.vertices@[p].edges@[k]
                    == pre.vertices@[p].edges@[k]),
        ensures
            self.wf(),
    {
        self.lemma_keys_preserved(pre);
        assert forall|p: int, k: int|
            0 <= p < self.vertices@.len() && 0 <= k
                < self.vertices@[p].edges@.len() implies self.has_key(
            (#[trigger] self.vertices@[p].edges@[k]).vertex1@,
        ) && self.has_key(self.vertices@[p].edges@[k].vertex2@) by {
            if self.vertices@[p].edges@[k] == edge {
                assert(self.has_key(edge.vertex1@));
                assert(self.has_key(edge.vertex2@));
            } else {
                assert(pre.has_key(pre.vertices@[p].edges@[k].vertex1@));
                assert(pre.has_key(pre.vertices@[p].edges@[k].vertex2@));
            }
        }
    }
}

} // verus!
