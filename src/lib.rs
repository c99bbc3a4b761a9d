//! Builds a mind map of a hierarchical topic namespace: the latest value of
//! each topic, the tree that the topic paths imply, when to redraw it, and
//! the graph description and file names of each drawing.

pub mod topic;
pub mod graph;
pub mod store;
pub mod tree;
pub mod throttle;
pub mod color;
pub mod render;
pub mod mind_map;
