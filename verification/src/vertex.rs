use crate::edge::Edge;
use vstd::prelude::*;

verus! {

/// A named node that owns the list of edges recorded against it.
pub struct Vertex {
    /// The key that identifies this vertex inside a graph.
    pub value: String,
    /// The edges recorded on this vertex, in insertion order.
    pub edges: Vec<Edge>,
}

impl Vertex {
    /// Creates a vertex with the given key and no edges. The key is not
    /// validated (the empty string is allowed).
    pub fn new(value: String) -> (v: Vertex)
        ensures
            v.value@ == value@,
            v.edges@.len() == 0,
    {
        Vertex { value, edges: Vec::new() }
    }

    /// Appends an edge to this vertex's own list; repeats are kept as given,
    /// with no deduplication and no merging of weights.
    pub fn add_edge(&mut self, edge: Edge)
        ensures
            final(self).value == old(self).value,
            final(self).edges@ == old(self).edges@.push(edge),
    {
        self.edges.push(edge);
    }
}

} // verus!
