//! Lazily loaded octree nodes: a hierarchy part and, once loaded, node data.
use crate::octree::new_asset::hierarchy::HierarchyOctreeNode;
use vstd::prelude::*;

verus! {

/// The data an octree format loads for each node.
pub trait NodeData {
}

/// How far a node's data is loaded.
#[derive(Debug, Clone, Copy, PartialEq, Eq, Structural)]
pub enum NodeStatus {
    /// Only the hierarchy part is known.
    HierarchyOnly,
    /// The node data is being loaded.
    Loading,
    /// The node data is loaded.
    Loaded,
}

/// A node of a lazily loaded octree.
#[derive(Debug)]
pub struct OctreeNode<H, T> {
    pub hierarchy: HierarchyOctreeNode<H>,
    pub status: NodeStatus,
    pub data: Option<T>,
}

} // verus!
