//! A labeled graph, directed or undirected, stored as adjacency lists and
//! convertible to a dense adjacency matrix, a dense incidence matrix, and a
//! Compressed Sparse Row (CSR) neighbor encoding.

mod edge;
mod vertex;
mod graph;
mod adjacency;
mod incidence;
mod csr;
mod laws;

pub use edge::Edge;
pub use graph::Graph;
pub use graph::MissingVertex;
pub use incidence::IncEntry;
pub use laws::lemma_directed_adjacency_edge;
pub use laws::lemma_incidence_column;
pub use laws::lemma_undirected_adjacency_edge;
pub use laws::lemma_undirected_adjacency_symmetric;
pub use vertex::Vertex;
