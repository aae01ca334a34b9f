//! The render-world copy of an octree: its prepared nodes, by handle key.
use crate::octree::asset::OctreeNode;
use crate::octree::storage::{node_key, NodeId};
use std::collections::HashMap;
use vstd::prelude::*;

verus! {

broadcast use vstd::std_specs::hash::group_hash_axioms;

/// An error inserting a node into a render octree.
#[derive(Clone, Copy, Debug, PartialEq, Eq, Structural)]
pub enum InsertNodeError {
    ParentNotExists,
    ParentChildrenFull,
}

impl InsertNodeError {
    /// The error message.
    pub fn message(&self) -> (s: &'static str)
        ensures
            *self matches InsertNodeError::ParentNotExists ==> s@ == "parent does not exists"@,
            *self matches InsertNodeError::ParentChildrenFull ==> s@ == "parent has already 8 children"@,
    {
        match self {
            InsertNodeError::ParentNotExists => "parent does not exists",
            InsertNodeError::ParentChildrenFull => "parent has already 8 children",
        }
    }
}

/// The prepared nodes of an octree in the render world, by the key of their handle.
pub struct RenderOctree<A> {
    pub nodes: HashMap<u128, OctreeNode<A>>,
    pub root_id: Option<NodeId>,
}

impl<A> RenderOctree<A> {
    /// An octree without nodes.
    pub fn new() -> (r: Self)
        ensures
            r.nodes@.dom().is_empty(),
            r.root_id is None,
    {
        let r = RenderOctree { nodes: HashMap::new(), root_id: None };
        proof {
            assert(r.nodes@.dom() =~= Set::<u128>::empty());
        }
        r
    }

    /// Stores `node` under `node_id`, replacing the node stored there, if any.
    pub fn insert(&mut self, node_id: NodeId, node: OctreeNode<A>)
        ensures
            final(self).nodes@ == old(self).nodes@.insert(node_key(node_id), node),
            final(self).root_id == old(self).root_id,
    {
        self.nodes.insert(node_id.key(), node);
    }

    /// Whether a node is stored under `node_id`.
    pub fn contains(&self, node_id: NodeId) -> (b: bool)
        ensures
            b == self.nodes@.contains_key(node_key(node_id)),
    {
        self.nodes.contains_key(&node_id.key())
    }

    /// Removes and returns the node stored under `node_id`, if any.
    pub fn remove(&mut self, node_id: NodeId) -> (r: Option<OctreeNode<A>>)
        ensures
            r == (if old(self).nodes@.contains_key(node_key(node_id)) {
                Some(old(self).nodes@[node_key(node_id)])
            } else {
                None
            }),
            final(self).nodes@ == old(self).nodes@.remove(node_key(node_id)),
            final(self).root_id == old(self).root_id,
    {
        self.nodes.remove(&node_id.key())
    }
}

} // verus!
