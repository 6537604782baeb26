use crate::vertex::Vertex;
use vstd::prelude::*;

verus! {

/// A labeled connection between two vertices, recorded by the endpoint keys.
///
/// Only the keys of the endpoints are kept: an edge does not follow later
/// changes to the vertices it was created from. The weight is an opaque
/// 32-bit label that the graph carries around without interpreting it; a
/// caller that works with real-valued weights can store an IEEE-754 bit
/// pattern here and decode it when rendering.
pub struct Edge {
    /// Key of the first endpoint (the source in a directed graph).
    pub vertex1: String,
    /// Key of the second endpoint (the destination in a directed graph).
    pub vertex2: String,
    /// Opaque weight label carried by the edge.
    pub weight: u32,
}

impl Edge {
    /// Creates an edge between the two given vertices, keeping their keys
    /// and the weight. Nothing is validated: self-loops and repeated pairs
    /// are accepted silently.
    pub fn new(vertex1: Vertex, vertex2: Vertex, weight: u32) -> (e: Edge)
        ensures
            e.vertex1@ == vertex1.value@,
            e.vertex2@ == vertex2.value@,
            e.weight == weight,
    {
        Edge { vertex1: vertex1.value, vertex2: vertex2.value, weight }
    }
}

} // verus!
