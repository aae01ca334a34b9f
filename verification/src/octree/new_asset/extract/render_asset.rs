//! The render-world copy of an octree: its prepared nodes, by handle key.
use crate::geometry::Aabb;
use crate::octree::storage::{node_key, NodeId};
use std::collections::HashMap;
use vstd::prelude::*;

verus! {

broadcast use vstd::std_specs::hash::group_hash_axioms;

/// An error inserting a node into a render octree.
#[derive(Clone, Copy, Debug, PartialEq, Eq, Structural)]
pub enum InsertNodeError {
    ParentNotExists,
    ParentChildrenFull,
}

impl InsertNodeError {
    /// The error message.
    pub fn message(&self) -> (s: &'static str)
        ensures
            *self matches InsertNodeError::ParentNotExists ==> s@ == "parent does not exists"@,
            *self matches InsertNodeError::ParentChildrenFull ==> s@ == "parent has already 8 children"@,
    {
        match self {
            InsertNodeError::ParentNotExists => "parent does not exists",
            InsertNodeError::ParentChildrenFull => "parent has already 8 children",
        }
    }
}

/// An octree node in the render world, with the data `T` of its stage.
#[derive(Debug)]
pub struct RenderOctreeNodeData<T> {
    pub id: NodeId,
    pub child_index: usize,
    pub parent_id: Option<NodeId>,
    pub children: [NodeId; 8],
    pub children_mask: u8,
    pub bounding_box: Aabb,
    pub depth: u32,
    pub data: T,
}

impl<T> RenderOctreeNodeData<T> {
    /// The same node with data `data`.
    pub open spec fn with_data_spec<U>(self, data: U) -> RenderOctreeNodeData<U> {
        RenderOctreeNodeData {
            id: self.id,
            child_index: self.child_index,
            parent_id: self.parent_id,
            children: self.children,
            children_mask: self.children_mask,
            bounding_box: self.bounding_box,
            depth: self.depth,
            data,
        }
    }

    /// The same node with other data.
    pub fn with_data<U>(self, data: U) -> (r: RenderOctreeNodeData<U>)
        ensures
            r == self.with_data_spec(data),
    {
        RenderOctreeNodeData {
            id: self.id,
            child_index: self.child_index,
            parent_id: self.parent_id,
            children: self.children,
            children_mask: self.children_mask,
            bounding_box: self.bounding_box,
            depth: self.depth,
            data,
        }
    }
}

/// The prepared nodes of an octree in the render world, by the key of their handle.
pub struct RenderOctree<A> {
    pub nodes: HashMap<u128, RenderOctreeNodeData<A>>,
    pub root_id: Option<NodeId>,
}

impl<A> RenderOctree<A> {
    /// The nodes, by handle key.
    pub open spec fn view_nodes(&self) -> Map<u128, RenderOctreeNodeData<A>> {
        self.nodes@
    }

    /// An octree without nodes.
    pub fn new() -> (r: Self)
        ensures
            r.view_nodes().dom().is_empty(),
            r.root_id is None,
    {
        let r = RenderOctree { nodes: HashMap::new(), root_id: None };
        proof {
            assert(r.view_nodes().dom() =~= Set::<u128>::empty());
        }
        r
    }

    /// Stores `node` under `node_id`, replacing the node stored there, if any.
    pub fn insert(&mut self, node_id: NodeId, node: RenderOctreeNodeData<A>)
        ensures
            final(self).view_nodes() == old(self).view_nodes().insert(node_key(node_id), node),
            final(self).root_id == old(self).root_id,
    {
        self.nodes.insert(node_id.key(), node);
    }

    /// Removes and returns the node stored under `node_id`, if any.
    pub fn remove(&mut self, node_id: NodeId) -> (r: Option<RenderOctreeNodeData<A>>)
        ensures
            r == (if old(self).view_nodes().contains_key(node_key(node_id)) {
                Some(old(self).view_nodes()[node_key(node_id)])
            } else {
                None
            }),
            final(self).view_nodes() == old(self).view_nodes().remove(node_key(node_id)),
            final(self).root_id == old(self).root_id,
    {
        self.nodes.remove(&node_id.key())
    }

    /// Whether a node is stored under `node_id`.
    pub fn contains(&self, node_id: NodeId) -> (b: bool)
        ensures
            b == self.view_nodes().contains_key(node_key(node_id)),
    {
        self.nodes.contains_key(&node_id.key())
    }
}

} // verus!
