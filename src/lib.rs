//! Read-only benchmark queries over a pangenome variation graph: node
//! occupancy ranking, path lengths, the paths through a node, and a
//! per-path walk of step degrees, with the latency figures reported for them.
pub mod dedup;
pub mod graph;
pub mod queries;
pub mod ranking;
pub mod timing;
