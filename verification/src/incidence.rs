use crate::edge::Edge;
use crate::graph::Graph;
use vstd::prelude::*;

verus! {

/// One cell of the incidence matrix.
///
/// `Pos(w)` stands for the weight `w` counted positively and `Neg(w)` for
/// the same weight counted negatively (the destination row of a directed
/// edge); `Zero` marks a cell that no edge touches. Keeping the sign apart
/// from the opaque weight label lets the matrix carry signed entries without
/// interpreting the labels.
#[derive(Clone, Copy, Debug, PartialEq, Eq, Structural)]
pub enum IncEntry {
    /// No incidence: the vertex of this row is not an endpoint of the
    /// column's edge.
    Zero,
    /// The edge's weight, counted positively.
    Pos(u32),
    /// The edge's weight, counted negatively.
    Neg(u32),
}

/// Whether two edges connect the same unordered pair of keys, regardless of
/// orientation and weight.
pub open spec fn pair_matches(a: Edge, b: Edge) -> bool {
    (a.vertex1@ == b.vertex1@ && a.vertex2@ == b.vertex2@) || (a.vertex1@ == b.vertex2@
        && a.vertex2@ == b.vertex1@)
}

/// Whether some edge of `s` connects the same unordered pair as `edge`.
pub open spec fn contains_pair(s: Seq<Edge>, edge: Edge) -> bool {
    exists|k: int| 0 <= k < s.len() && pair_matches(#[trigger] s[k], edge)
}

/// The scan restricted to the first occurrence of each unordered endpoint
/// pair: an edge is kept exactly when no earlier kept edge connects the same
/// pair.
pub open spec fn dedup_pairs(s: Seq<Edge>) -> Seq<Edge>
    decreases s.len(),
{
    if s.len() == 0 {
        Seq::empty()
    } else {
        let d = dedup_pairs(s.drop_last());
        if contains_pair(d, s.last()) {
            d
        } else {
            d.push(s.last())
        }
    }
}

/// One more scanned edge either repeats a kept pair or is kept itself.
pub(crate) proof fn lemma_dedup_pairs_push(s: Seq<Edge>, edge: Edge)
    ensures
        dedup_pairs(s.push(edge)) == if contains_pair(dedup_pairs(s), edge) {
            dedup_pairs(s)
        } else {
            dedup_pairs(s).push(edge)
        },
{
    assert(s.push(edge).drop_last() =~= s);
    assert(s.push(edge).last() == edge);
}

/// Every kept edge is one of the scanned edges.
pub(crate) proof fn lemma_dedup_pairs_subset(s: Seq<Edge>, c: int)
    requires
        0 <= c < dedup_pairs(s).len(),
    ensures
        s.contains(dedup_pairs(s)[c]),
    decreases s.len(),
{
    if s.len() > 0 {
        let d = dedup_pairs(s.drop_last());
        if contains_pair(d, s.last()) || c < d.len() {
            lemma_dedup_pairs_subset(s.drop_last(), c);
            let w = choose|w: int| 0 <= w < s.drop_last().len() && s.drop_last()[w] == d[c];
            assert(s[w] == d[c]);
        } else {
            assert(s[s.len() - 1] == dedup_pairs(s)[c]);
        }
    }
}

impl Graph {
    /// The distinct edges of the scan, in the order their pairs first occur:
    /// the columns of the incidence matrix.
    pub open spec fn kept_edges(self) -> Seq<Edge> {
        dedup_pairs(self.all_edges())
    }

    /// The incidence cell at row `r`, column `c`: with the column's edge
    /// running from vertex `i` to vertex `j` with weight `w`, a directed
    /// graph puts `Pos(w)` at row `i` and `Neg(w)` at row `j` (`Neg(w)`
    /// alone on a self-loop), an undirected graph puts `Pos(w)` at both;
    /// every other row holds `Zero`.
    pub open spec fn inc_cell(self, r: int, c: int) -> IncEntry {
        let edge = self.kept_edges()[c];
        let i = self.key_index(edge.vertex1@);
        let j = self.key_index(edge.vertex2@);
        if self.directed {
            if r == j {
                IncEntry::Neg(edge.weight)
            } else if r == i {
                IncEntry::Pos(edge.weight)
            } else {
                IncEntry::Zero
            }
        } else {
            if r == i || r == j {
                IncEntry::Pos(edge.weight)
            } else {
                IncEntry::Zero
            }
        }
    }

    /// Whether some already kept edge connects the same unordered pair as
    /// `edge`.
    fn pair_in_kept(kept: &Vec<Edge>, edge: &Edge) -> (r: bool)
        ensures
            r == contains_pair(kept@, *edge),
    {
        let n = kept.len();
        let mut k: usize = 0;
        while k < n
            invariant
                k <= n,
                n == kept@.len(),
                forall|t: int| 0 <= t < k ==> !pair_matches(#[trigger] kept@[t], *edge),
            decreases n - k,
        {
            let same = kept[k].vertex1 == edge.vertex1 && kept[k].vertex2 == edge.vertex2;
            let swapped = kept[k].vertex1 == edge.vertex2 && kept[k].vertex2 == edge.vertex1;
            if same || swapped {
                return true;
            }
            k = k + 1;
        }
        false
    }

    /// Returns the dense incidence matrix: an `n x m` table, `n` the vertex
    /// count and `m` the number of distinct edges. Edges connecting the same
    /// unordered pair of keys count once, under the orientation scanned
    /// first; each distinct edge is one column, holding its weight in the
    /// rows of its endpoints (negatively in the destination row of a
    /// directed edge) and `Zero` everywhere else.
    pub fn incidence_matrix(&self) -> (m: Vec<Vec<IncEntry>>)
        requires
            self.wf(),
        ensures
            m@.len() == self.vertices@.len(),
            forall|r: int|
                0 <= r < m@.len() ==> (#[trigger] m@[r])@.len() == self.kept_edges().len(),
            forall|r: int, c: int|
                0 <= r < m@.len() && 0 <= c < self.kept_edges().len() ==> (#[trigger] m@[r]@[c])
                    == self.inc_cell(r, c),
    {
        let n = self.vertices.len();
        let mut kept: Vec<Edge> = Vec::new();
        let mut p: usize = 0;
        while p < n
            invariant
                self.wf(),
                p <= n,
                n == self.vertices@.len(),
                kept@ == dedup_pairs(self.edges_up_to(p as int)),
            decreases n - p,
        {
            let d = self.vertices[p].edges.len();
            let mut q: usize = 0;
            while q < d
                invariant
                    self.wf(),
                    p < n,
                    q <= d,
                    n == self.vertices@.len(),
                    d == self.vertices@[p as int].edges@.len(),
                    kept@ == dedup_pairs(
                        self.edges_up_to(p as int) + self.vertices@[p as int].edges@.take(
                            q as int,
                        ),
                    ),
                decreases d - q,
            {
                let ghost prefix = self.edges_up_to(p as int) + self.vertices@[
                    p as int].edges@.take(q as int);
                let edge = &self.vertices[p].edges[q];
                if !Self::pair_in_kept(&kept, edge) {
                    let copy = Edge {
                        vertex1: edge.vertex1.clone(),
                        vertex2: edge.vertex2.clone(),
                        weight: edge.weight,
                    };
                    proof {
                        assert(copy == self.vertices@[p as int].edges@[q as int]);
                    }
                    kept.push(copy);
                }
                proof {
                    let e = self.vertices@[p as int].edges@[q as int];
                    assert(self.vertices@[p as int].edges@.take(q + 1)
                        =~= self.vertices@[p as int].edges@.take(q as int).push(e));
                    assert(self.edges_up_to(p as int) + self.vertices@[p as int].edges@.take(
                        q + 1,
                    ) =~= prefix.push(e));
                    lemma_dedup_pairs_push(prefix, e);
                }
                q = q + 1;
            }
            proof {
                assert(self.vertices@[p as int].edges@.take(d as int)
                    =~= self.vertices@[p as int].edges@);
                assert(self.edges_up_to(p as int) + self.vertices@[p as int].edges@.take(d as int)
                    =~= self.edges_up_to(p + 1));
            }
            p = p + 1;
        }
        let m_count = kept.len();
        let mut cols: Vec<(usize, usize, u32)> = Vec::new();
        let mut c: usize = 0;
        while c < m_count
            invariant
                self.wf(),
                c <= m_count,
                n == self.vertices@.len(),
                m_count == self.kept_edges().len(),
                kept@ == self.kept_edges(),
                cols@.len() == c,
                forall|t: int|
                    0 <= t < c ==> {
                        let e = self.kept_edges()[t];
                        &&& (#[trigger] cols@[t]).0 < n
                        &&& cols@[t].1 < n
                        &&& cols@[t].0 == self.key_index(e.vertex1@)
                        &&& cols@[t].1 == self.key_index(e.vertex2@)
                        &&& cols@[t].2 == e.weight
                    },
            decreases m_count - c,
        {
            proof {
                lemma_dedup_pairs_subset(self.all_edges(), c as int);
                let w = choose|w: int|
                    0 <= w < self.all_edges().len() && self.all_edges()[w] == self.kept_edges()[
                        c as int];
                self.lemma_scan_closed(w);
                self.lemma_key_index(kept@[c as int].vertex1@);
                self.lemma_key_index(kept@[c as int].vertex2@);
            }
            let i = self.index_of_present_key(&kept[c].vertex1);
            let j = self.index_of_present_key(&kept[c].vertex2);
            cols.push((i, j, kept[c].weight));
            c = c + 1;
        }
        let mut matrix: Vec<Vec<IncEntry>> = Vec::new();
        let mut r: usize = 0;
        while r < n
            invariant
                self.wf(),
                r <= n,
                n == self.vertices@.len(),
                m_count == self.kept_edges().len(),
                cols@.len() == m_count,
                forall|t: int|
                    0 <= t < m_count ==> {
                        let e = self.kept_edges()[t];
                        &&& (#[trigger] cols@[t]).0 == self.key_index(e.vertex1@)
                        &&& cols@[t].1 == self.key_index(e.vertex2@)
                        &&& cols@[t].2 == e.weight
                    },
                matrix@.len() == r,
                forall|a: int| 0 <= a < r ==> (#[trigger] matrix@[a])@.len() == m_count,
                forall|a: int, b: int|
                    0 <= a < r && 0 <= b < m_count ==> (#[trigger] matrix@[a]@[b])
                        == self.inc_cell(a, b),
            decreases n - r,
        {
            let mut row: Vec<IncEntry> = Vec::new();
            let mut c2: usize = 0;
            while c2 < m_count
                invariant
                    self.wf(),
                    r < n,
                    c2 <= m_count,
                    m_count == self.kept_edges().len(),
                    cols@.len() == m_count,
                    forall|t: int|
                        0 <= t < m_count ==> {
                            let e = self.kept_edges()[t];
                            &&& (#[trigger] cols@[t]).0 == self.key_index(e.vertex1@)
                            &&& cols@[t].1 == self.key_index(e.vertex2@)
                            &&& cols@[t].2 == e.weight
                        },
                    row@.len() == c2,
                    forall|b: int|
                        0 <= b < c2 ==> (#[trigger] row@[b]) == self.inc_cell(r as int, b),
                decreases m_count - c2,
            {
                let col = cols[c2];
                let entry = if self.directed {
                    if r == col.1 {
                        IncEntry::Neg(col.2)
                    } else if r == col.0 {
                        IncEntry::Pos(col.2)
                    } else {
                        IncEntry::Zero
                    }
                } else {
                    if r == col.0 || r == col.1 {
                        IncEntry::Pos(col.2)
                    } else {
                        IncEntry::Zero
                    }
                };
                row.push(entry);
                c2 = c2 + 1;
            }
            matrix.push(row);
            r = r + 1;
        }
        matrix
    }
}

} // verus!
