//! Graph construction for a Fruchterman–Reingold force-directed layout.
//!
//! A raw edge list of node ids is folded into a graph: every id becomes one
//! node, placed on an integer grid point of the bounding box; every unordered
//! pair of ids becomes one canonical edge, numbered in first-seen order; every
//! input row adds one entry to the adjacency list of its first id.

mod placement;
pub mod graph;
pub mod labels;
pub mod laws;

pub use graph::{node_count_of, Graph, GraphModel, Node};
pub use labels::number_labels;
pub use placement::draw_placements;
