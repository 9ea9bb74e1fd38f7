//! An in-memory graph container. Edge records live in a generational arena
//! whose handles detect reuse of their slot; an adjacency index maps each
//! identifier to the handles of its edges, each with the direction in which
//! the record is read, so that a bidirectional edge is stored once.
pub mod edge;
pub mod graph;
pub mod traits;
pub mod vertex;

pub use edge::{Edge, EdgeKey, EdgeMap, EdgePath, PathDirection};
pub use graph::Graph;
pub use vertex::Vertex;
