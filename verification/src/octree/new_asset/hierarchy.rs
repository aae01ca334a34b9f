//! The hierarchy part of lazily loaded octree nodes.
use crate::geometry::Aabb;
use crate::octree::storage::NodeId;
use vstd::prelude::*;

verus! {

/// How far a hierarchy node is loaded.
#[derive(Debug, Clone, Copy, PartialEq, Eq, Structural)]
pub enum HierarchyNodeStatus {
    /// The node and its children are known.
    Loaded,
    /// The node is known, its children are still to be loaded.
    Proxy,
    /// The node's children are being loaded.
    Loading,
}

/// The hierarchy data an octree format attaches to each node.
pub trait HierarchyNodeData: Clone {
}

/// The hierarchy-only data of an octree node, loaded (`status`) or not.
#[derive(Debug)]
pub struct HierarchyOctreeNode<H> {
    pub id: NodeId,
    pub status: HierarchyNodeStatus,
    pub child_index: usize,
    pub parent_id: Option<NodeId>,
    pub children: [NodeId; 8],
    pub children_mask: u8,
    pub bounding_box: Aabb,
    pub depth: u32,
    pub data: H,
}

impl<H: Clone> Clone for HierarchyOctreeNode<H> {
    /// A copy of the node; its data is cloned.
    fn clone(&self) -> (r: Self)
        ensures
            r.id == self.id,
            r.status == self.status,
            r.child_index == self.child_index,
            r.parent_id == self.parent_id,
            r.children == self.children,
            r.children_mask == self.children_mask,
            r.bounding_box == self.bounding_box,
            r.depth == self.depth,
            cloned(self.data, r.data),
    {
        HierarchyOctreeNode {
            id: self.id,
            status: self.status,
            child_index: self.child_index,
            parent_id: self.parent_id,
            children: self.children,
            children_mask: self.children_mask,
            bounding_box: self.bounding_box,
            depth: self.depth,
            data: self.data.clone(),
        }
    }
}

/// A hierarchy node as a loader hands it out, in a flat list: its parent is named by
/// its position in that list.
#[derive(Debug, Clone)]
pub struct HierarchyNode<H> {
    pub status: HierarchyNodeStatus,
    pub child_index: usize,
    pub parent_id: Option<usize>,
    pub bounding_box: Aabb,
    pub data: H,
}

} // verus!
