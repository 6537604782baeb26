use crate::edge::Edge;
use crate::graph::Graph;
use crate::incidence::pair_matches;
use crate::incidence::IncEntry;
use vstd::prelude::*;

verus! {

/// On an undirected graph every write is mirrored, so the settled weight of
/// a cell equals that of its mirror at every point of the scan.
proof fn lemma_last_weight_sym(g: Graph, s: Seq<Edge>, i: int, j: int)
    requires
        !g.directed,
    ensures
        g.last_weight(s, i, j) == g.last_weight(s, j, i),
    decreases s.len(),
{
    if s.len() > 0 {
        lemma_last_weight_sym(g, s.drop_last(), i, j);
    }
}

/// A cell that no scanned edge writes stays empty.
proof fn lemma_last_weight_none(g: Graph, s: Seq<Edge>, i: int, j: int)
    requires
        forall|t: int| 0 <= t < s.len() ==> !g.edge_writes(#[trigger] s[t], i, j),
    ensures
        g.last_weight(s, i, j) is None,
    decreases s.len(),
{
    if s.len() > 0 {
        assert(forall|t: int|
            0 <= t < s.drop_last().len() ==> (#[trigger] s.drop_last()[t]) == s[t]);
        lemma_last_weight_none(g, s.drop_last(), i, j);
    }
}

/// When every scanned edge that writes a cell carries the same weight, and
/// at least one writes it, that weight is what the cell settles on.
proof fn lemma_last_weight_const(g: Graph, s: Seq<Edge>, i: int, j: int, w: u32)
    requires
        exists|t: int| 0 <= t < s.len() && g.edge_writes(#[trigger] s[t], i, j),
        forall|t: int|
            0 <= t < s.len() && g.edge_writes(#[trigger] s[t], i, j) ==> s[t].weight == w,
    ensures
        g.last_weight(s, i, j) == Some(w),
    decreases s.len(),
{
    assert(forall|t: int| 0 <= t < s.drop_last().len() ==> (#[trigger] s.drop_last()[t]) == s[t]);
    if g.edge_writes(s.last(), i, j) {
        assert(s[s.len() - 1].weight == w);
    } else {
        let t = choose|t: int| 0 <= t < s.len() && g.edge_writes(#[trigger] s[t], i, j);
        assert(0 <= t < s.drop_last().len() && g.edge_writes(s.drop_last()[t], i, j));
        lemma_last_weight_const(g, s.drop_last(), i, j, w);
    }
}

/// On a well-formed graph, an edge of the scan that writes the cell whose
/// coordinates belong to the keys `key_i` and `key_j` connects those very
/// keys, in one orientation or (undirected only) the other.
proof fn lemma_writer_keys(g: Graph, t: int, key_i: Seq<char>, key_j: Seq<char>)
    requires
        g.wf(),
        g.has_key(key_i),
        g.has_key(key_j),
        0 <= t < g.all_edges().len(),
        g.edge_writes(g.all_edges()[t], g.key_index(key_i), g.key_index(key_j)),
    ensures
        (g.all_edges()[t].vertex1@ == key_i && g.all_edges()[t].vertex2@ == key_j) || (
        !g.directed && g.all_edges()[t].vertex1@ == key_j && g.all_edges()[t].vertex2@ == key_i),
{
    let e = g.all_edges()[t];
    g.lemma_scan_closed(t);
    g.lemma_key_index(key_i);
    g.lemma_key_index(key_j);
    g.lemma_key_index(e.vertex1@);
    g.lemma_key_index(e.vertex2@);
}

/// The adjacency matrix of an undirected graph is symmetric: every cell
/// equals its mirror, whatever edges were stored.
pub proof fn lemma_undirected_adjacency_symmetric(g: Graph)
    requires
        !g.directed,
    ensures
        forall|i: int, j: int| #[trigger] g.adj_cell(i, j) == g.adj_cell(j, i),
{
    assert forall|i: int, j: int| #[trigger] g.adj_cell(i, j) == g.adj_cell(j, i) by {
        lemma_last_weight_sym(g, g.all_edges(), i, j);
    }
}

/// On a well-formed undirected graph, a stored edge whose unordered endpoint
/// pair carries a single weight shows that weight in both mirrored
/// adjacency cells of its endpoints.
pub proof fn lemma_undirected_adjacency_edge(g: Graph, p: int, k: int)
    requires
        g.wf(),
        !g.directed,
        0 <= p < g.vertices@.len(),
        0 <= k < g.vertices@[p].edges@.len(),
        forall|p2: int, k2: int|
            0 <= p2 < g.vertices@.len() && 0 <= k2 < g.vertices@[p2].edges@.len() && pair_matches(
                #[trigger] g.vertices@[p2].edges@[k2],
                g.vertices@[p].edges@[k],
            ) ==> g.vertices@[p2].edges@[k2].weight == g.vertices@[p].edges@[k].weight,
    ensures
        ({
            let e = g.vertices@[p].edges@[k];
            let i = g.key_index(e.vertex1@);
            let j = g.key_index(e.vertex2@);
            g.adj_cell(i, j) == Some(e.weight) && g.adj_cell(j, i) == Some(e.weight)
        }),
{
    let e = g.vertices@[p].edges@[k];
    let i = g.key_index(e.vertex1@);
    let j = g.key_index(e.vertex2@);
    let s = g.all_edges();
    g.lemma_stored_in_scan(p, k, g.vertices@.len() as int);
    let t0 = choose|t: int| 0 <= t < s.len() && s[t] == e;
    assert(g.edge_writes(s[t0], i, j));
    assert(g.edge_writes(s[t0], j, i));
    assert forall|t: int|
        0 <= t < s.len() && g.edge_writes(#[trigger] s[t], i, j) implies s[t].weight
        == e.weight by {
        lemma_writer_keys(g, t, e.vertex1@, e.vertex2@);
        g.lemma_scan_is_stored(g.vertices@.len() as int, t);
        let (p2, k2) = choose|p2: int, k2: int|
            0 <= p2 < g.vertices@.len() && 0 <= k2 < g.vertices@[p2].edges@.len() && s[t] == (
            #[trigger] g.vertices@[p2].edges@[k2]);
        assert(pair_matches(g.vertices@[p2].edges@[k2], e));
    }
    assert forall|t: int|
        0 <= t < s.len() && g.edge_writes(#[trigger] s[t], j, i) implies s[t].weight
        == e.weight by {
        lemma_writer_keys(g, t, e.vertex2@, e.vertex1@);
        g.lemma_scan_is_stored(g.vertices@.len() as int, t);
        let (p2, k2) = choose|p2: int, k2: int|
            0 <= p2 < g.vertices@.len() && 0 <= k2 < g.vertices@[p2].edges@.len() && s[t] == (
            #[trigger] g.vertices@[p2].edges@[k2]);
        assert(pair_matches(g.vertices@[p2].edges@[k2], e));
    }
    lemma_last_weight_const(g, s, i, j, e.weight);
    lemma_last_weight_const(g, s, j, i, e.weight);
}

/// On a well-formed directed graph, a stored edge shows its weight in the
/// cell from source to destination, while the mirrored cell stays unset as
/// long as no reverse edge was stored. Repeats of the same ordered pair must
/// agree on the weight, and the edge must not be a self-loop.
pub proof fn lemma_directed_adjacency_edge(g: Graph, p: int, k: int)
    requires
        g.wf(),
        g.directed,
        0 <= p < g.vertices@.len(),
        0 <= k < g.vertices@[p].edges@.len(),
        g.vertices@[p].edges@[k].vertex1@ != g.vertices@[p].edges@[k].vertex2@,
        forall|p2: int, k2: int|
            0 <= p2 < g.vertices@.len() && 0 <= k2 < g.vertices@[p2].edges@.len() && (
            #[trigger] g.vertices@[p2].edges@[k2]).vertex1@ == g.vertices@[p].edges@[k].vertex1@
                && g.vertices@[p2].edges@[k2].vertex2@ == g.vertices@[p].edges@[k].vertex2@
                ==> g.vertices@[p2].edges@[k2].weight == g.vertices@[p].edges@[k].weight,
        forall|p2: int, k2: int|
            0 <= p2 < g.vertices@.len() && 0 <= k2 < g.vertices@[p2].edges@.len() ==> !((
            #[trigger] g.vertices@[p2].edges@[k2]).vertex1@ == g.vertices@[p].edges@[k].vertex2@
                && g.vertices@[p2].edges@[k2].vertex2@ == g.vertices@[p].edges@[k].vertex1@),
    ensures
        ({
            let e = g.vertices@[p].edges@[k];
            let i = g.key_index(e.vertex1@);
            let j = g.key_index(e.vertex2@);
            g.adj_cell(i, j) == Some(e.weight) && g.adj_cell(j, i) is None
        }),
{
    let e = g.vertices@[p].edges@[k];
    let i = g.key_index(e.vertex1@);
    let j = g.key_index(e.vertex2@);
    let s = g.all_edges();
    g.lemma_stored_in_scan(p, k, g.vertices@.len() as int);
    let t0 = choose|t: int| 0 <= t < s.len() && s[t] == e;
    assert(g.edge_writes(s[t0], i, j));
    assert forall|t: int|
        0 <= t < s.len() && g.edge_writes(#[trigger] s[t], i, j) implies s[t].weight
        == e.weight by {
        lemma_writer_keys(g, t, e.vertex1@, e.vertex2@);
        g.lemma_scan_is_stored(g.vertices@.len() as int, t);
        let (p2, k2) = choose|p2: int, k2: int|
            0 <= p2 < g.vertices@.len() && 0 <= k2 < g.vertices@[p2].edges@.len() && s[t] == (
            #[trigger] g.vertices@[p2].edges@[k2]);
        assert(g.vertices@[p2].edges@[k2].vertex1@ == e.vertex1@);
    }
    lemma_last_weight_const(g, s, i, j, e.weight);
    assert forall|t: int| 0 <= t < s.len() implies !g.edge_writes(#[trigger] s[t], j, i) by {
        if g.edge_writes(s[t], j, i) {
            lemma_writer_keys(g, t, e.vertex2@, e.vertex1@);
            g.lemma_scan_is_stored(g.vertices@.len() as int, t);
            let (p2, k2) = choose|p2: int, k2: int|
                0 <= p2 < g.vertices@.len() && 0 <= k2 < g.vertices@[p2].edges@.len() && s[t] == (
                #[trigger] g.vertices@[p2].edges@[k2]);
            assert(g.vertices@[p2].edges@[k2].vertex1@ == e.vertex2@);
            assert(false);
        }
    }
    lemma_last_weight_none(g, s, j, i);
}

/// Every incidence column that belongs to a distinct edge with two
/// different endpoints holds exactly two entries besides `Zero`: the edge's
/// weight at both endpoint rows on an undirected graph, and the weight
/// positively at the source row and negatively at the destination row on a
/// directed one.
pub proof fn lemma_incidence_column(g: Graph, c: int)
    requires
        g.wf(),
        0 <= c < g.kept_edges().len(),
        g.kept_edges()[c].vertex1@ != g.kept_edges()[c].vertex2@,
    ensures
        ({
            let e = g.kept_edges()[c];
            let i = g.key_index(e.vertex1@);
            let j = g.key_index(e.vertex2@);
            &&& 0 <= i < g.vertices@.len()
            &&& 0 <= j < g.vertices@.len()
            &&& i != j
            &&& g.directed ==> g.inc_cell(i, c) == IncEntry::Pos(e.weight) && g.inc_cell(j, c)
                == IncEntry::Neg(e.weight)
            &&& !g.directed ==> g.inc_cell(i, c) == IncEntry::Pos(e.weight) && g.inc_cell(j, c)
                == IncEntry::Pos(e.weight)
            &&& forall|r: int| r != i && r != j ==> #[trigger] g.inc_cell(r, c) == IncEntry::Zero
        }),
{
    let e = g.kept_edges()[c];
    crate::incidence::lemma_dedup_pairs_subset(g.all_edges(), c);
    let t = choose|t: int| 0 <= t < g.all_edges().len() && g.all_edges()[t] == e;
    g.lemma_scan_closed(t);
    g.lemma_key_index(e.vertex1@);
    g.lemma_key_index(e.vertex2@);
}

} // verus!
