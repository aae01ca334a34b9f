//! A lazily loaded octree: hierarchy nodes first, node data later.
use crate::bits::{bit_set, has_bit, lemma_empty_mask, with_bit};
use crate::octree::new_asset::hierarchy::{
    HierarchyNode, HierarchyNodeData, HierarchyNodeStatus, HierarchyOctreeNode,
};
use crate::octree::new_asset::node::{NodeData, NodeStatus, OctreeNode};
use crate::octree::storage::{GenerationalSlab, NodeId};
use vstd::prelude::*;

verus! {

/// Why a hierarchy node could not be inserted or updated.
#[derive(Clone, Copy, Debug, PartialEq, Eq, Structural)]
pub enum InsertNodeError {
    ParentNotExists,
    RootAlreadyExists,
    ChildIndexOccupied,
    ChildIndexOutOfBounds,
    NodeNotFound,
}

impl InsertNodeError {
    /// The human-readable description of the error.
    pub fn message(&self) -> (s: &'static str)
        ensures
            *self matches InsertNodeError::ParentNotExists ==> s@ == "parent does not exists"@,
            *self matches InsertNodeError::RootAlreadyExists ==> s@ == "root already exists"@,
            *self matches InsertNodeError::ChildIndexOccupied ==> s@ == "child index already occupied"@,
            *self matches InsertNodeError::ChildIndexOutOfBounds ==> s@ == "child index is out of bounds"@,
            *self matches InsertNodeError::NodeNotFound ==> s@ == "node not found"@,
    {
        match self {
            InsertNodeError::ParentNotExists => "parent does not exists",
            InsertNodeError::RootAlreadyExists => "root already exists",
            InsertNodeError::ChildIndexOccupied => "child index already occupied",
            InsertNodeError::ChildIndexOutOfBounds => "child index is out of bounds",
            InsertNodeError::NodeNotFound => "node not found",
        }
    }
}

/// A lazily loaded octree.
///
/// `added` records, in order, the handles of the nodes inserted since it was last cleared.
#[derive(Debug)]
pub struct NewOctree<H, T> {
    pub(crate) hierarchy: GenerationalSlab<OctreeNode<H, T>>,
    pub(crate) root_id: Option<NodeId>,
    pub(crate) added: Vec<NodeId>,
    pub(crate) modified: Vec<NodeId>,
    pub(crate) removed: Vec<NodeId>,
}

/// `n` is the hierarchy part of a freshly inserted node made from `h`.
pub open spec fn is_fresh_hierarchy<H>(
    n: HierarchyOctreeNode<H>,
    id: NodeId,
    parent_id: Option<NodeId>,
    depth: u32,
    h: HierarchyNode<H>,
) -> bool {
    &&& n.id == id
    &&& n.status == h.status
    &&& n.child_index == h.child_index
    &&& n.parent_id == parent_id
    &&& n.children_mask == 0
    &&& forall|i: int| 0 <= i < 8 ==> n.children[i] == (NodeId { index: 0, generation: 0 })
    &&& n.bounding_box == h.bounding_box
    &&& n.depth == depth
    &&& n.data == h.data
}

/// The error `insert_hierarchy_node` answers, if any.
pub open spec fn hierarchy_insert_error(
    has_root: bool,
    parent_live: bool,
    parent_mask: u8,
    parent_id: Option<NodeId>,
    child_index: usize,
) -> Option<InsertNodeError> {
    match parent_id {
        Some(_) => if child_index >= 8 {
            Some(InsertNodeError::ChildIndexOutOfBounds)
        } else if !parent_live {
            Some(InsertNodeError::ParentNotExists)
        } else if bit_set(parent_mask, child_index as int) {
            Some(InsertNodeError::ChildIndexOccupied)
        } else {
            None
        },
        None => if has_root {
            Some(InsertNodeError::RootAlreadyExists)
        } else {
            None
        },
    }
}

impl<H: HierarchyNodeData, T: NodeData> NewOctree<H, T> {
    /// Whether `id` designates a node of the octree.
    pub closed spec fn contains(&self, id: NodeId) -> bool {
        self.hierarchy.is_valid(id)
    }

    /// The node behind `id`.
    pub closed spec fn node_at(&self, id: NodeId) -> OctreeNode<H, T> {
        self.hierarchy.value(id)
    }

    /// The root's handle, if there is a root.
    pub closed spec fn root_id(&self) -> Option<NodeId> {
        self.root_id
    }

    /// The handles of the nodes inserted, in order, since the log was last cleared.
    pub closed spec fn added_log(&self) -> Seq<NodeId> {
        self.added@
    }

    /// The handles of the nodes modified, in order, since the log was last cleared.
    pub closed spec fn modified_log(&self) -> Seq<NodeId> {
        self.modified@
    }

    /// The handles of the nodes removed, in order, since the log was last cleared.
    pub closed spec fn removed_log(&self) -> Seq<NodeId> {
        self.removed@
    }

    /// The number of storage slots ever used, live or freed.
    pub closed spec fn slots_used(&self) -> usize {
        self.hierarchy.slots()
    }

    /// The generation that the next node stored in slot `i` gets.
    pub closed spec fn slot_generation(&self, i: usize) -> usize {
        self.hierarchy.generation(i)
    }

    /// `after` hands out handles as `self` does, and keeps its modified and removed logs.
    pub open spec fn same_storage(&self, after: Self) -> bool {
        &&& after.next_id() == self.next_id()
        &&& after.slots_used() == self.slots_used()
        &&& forall|i: usize| after.slot_generation(i) == self.slot_generation(i)
        &&& after.modified_log() == self.modified_log()
        &&& after.removed_log() == self.removed_log()
    }

    /// The handle that the next inserted node gets.
    pub closed spec fn next_id(&self) -> NodeId {
        NodeId {
            index: self.hierarchy.next_slot(),
            generation: self.hierarchy.generation(self.hierarchy.next_slot()),
        }
    }

    /// The node storage is consistent.
    pub closed spec fn storage_wf(&self) -> bool {
        self.hierarchy.wf()
    }

    /// The links between a node and its parent and children agree, and its depth is one
    /// more than its parent's.
    pub open spec fn node_linked(&self, id: NodeId) -> bool {
        let n = self.node_at(id).hierarchy;
        &&& n.id == id
        &&& match n.parent_id {
            Some(p) => self.contains(p) && n.depth == self.node_at(p).hierarchy.depth + 1,
            None => self.root_id() == Some(id) && n.depth == 0,
        }
        &&& forall|i: int|
            0 <= i < 8 && bit_set(n.children_mask, i) ==> {
                &&& self.contains(#[trigger] n.children[i])
                &&& self.node_at(n.children[i]).hierarchy.parent_id == Some(id)
            }
    }

    /// The octree is a consistent tree of linked nodes.
    pub open spec fn wf(&self) -> bool {
        &&& self.storage_wf()
        &&& forall|id: NodeId| #[trigger] self.contains(id) ==> self.node_linked(id)
        &&& match self.root_id() {
            Some(r) => self.contains(r) && self.node_at(r).hierarchy.parent_id is None,
            None => forall|id: NodeId| !self.contains(id),
        }
    }

    /// The error `insert_hierarchy_node` answers for these arguments, if any.
    pub open spec fn insert_error(&self, parent_id: Option<NodeId>, child_index: usize) -> Option<
        InsertNodeError,
    > {
        let p = match parent_id {
            Some(p) => p,
            None => NodeId { index: 0, generation: 0 },
        };
        hierarchy_insert_error(
            self.root_id() is Some,
            self.contains(p),
            self.node_at(p).hierarchy.children_mask,
            parent_id,
            child_index,
        )
    }

    /// The depth a node inserted under `parent_id` gets.
    pub open spec fn child_depth(&self, parent_id: Option<NodeId>) -> u32 {
        match parent_id {
            Some(p) => (self.node_at(p).hierarchy.depth + 1) as u32,
            None => 0,
        }
    }

    /// An empty octree.
    pub fn new() -> (o: Self)
        ensures
            o.wf(),
            o.root_id() is None,
            forall|id: NodeId| !o.contains(id),
            o.added_log() == Seq::<NodeId>::empty(),
            o.modified_log() == Seq::<NodeId>::empty(),
            o.removed_log() == Seq::<NodeId>::empty(),
            o.next_id() == (NodeId { index: 0, generation: 0 }),
            o.slots_used() == 0,
            forall|i: usize| o.slot_generation(i) == 0,
    {
        NewOctree {
            hierarchy: GenerationalSlab::new(),
            root_id: None,
            added: Vec::new(),
            modified: Vec::new(),
            removed: Vec::new(),
        }
    }
}


impl<H: HierarchyNodeData, T: NodeData> NewOctree<H, T> {
    /// `after` is `self` with the hierarchy node `h` inserted under `parent_id` (or as the
    /// root) with handle `id`, and no data yet.
    pub open spec fn inserted_as(&self, after: Self, parent_id: Option<NodeId>, h: HierarchyNode<H>, id: NodeId) -> bool {
        let ci = h.child_index;
        &&& !self.contains(id)
        &&& forall|x: NodeId| after.contains(x) == (self.contains(x) || x == id)
        &&& after.added_log() == self.added_log().push(id)
        &&& after.modified_log() == self.modified_log()
        &&& after.removed_log() == self.removed_log()
        &&& forall|i: usize| after.slot_generation(i) == self.slot_generation(i)
        &&& id.index <= self.slots_used()
        &&& (id.index == self.slots_used() ==> after.slots_used() == id.index + 1 && after.next_id() == NodeId {
            index: (id.index + 1) as usize,
            generation: self.slot_generation((id.index + 1) as usize),
        })
        &&& (id.index < self.slots_used() ==> after.slots_used() == self.slots_used())
        &&& is_fresh_hierarchy(after.node_at(id).hierarchy, id, parent_id, self.child_depth(parent_id), h)
        &&& after.node_at(id).status == NodeStatus::HierarchyOnly
        &&& after.node_at(id).data is None
        &&& match parent_id {
            Some(p) => {
                let before = self.node_at(p).hierarchy;
                let now = after.node_at(p).hierarchy;
                &&& after.root_id() == self.root_id()
                &&& now.children@ == before.children@.update(ci as int, id)
                &&& bit_set(now.children_mask, ci as int)
                &&& forall|i: int| 0 <= i < 8 && i != ci ==> bit_set(now.children_mask, i)
                    == bit_set(before.children_mask, i)
                &&& now.id == before.id
                &&& now.status == before.status
                &&& now.child_index == before.child_index
                &&& now.parent_id == before.parent_id
                &&& now.bounding_box == before.bounding_box
                &&& now.depth == before.depth
                &&& now.data == before.data
                &&& after.node_at(p).status == self.node_at(p).status
                &&& after.node_at(p).data == self.node_at(p).data
                &&& forall|x: NodeId| #[trigger] self.contains(x) && x != p
                    ==> after.node_at(x) == self.node_at(x)
            },
            None => {
                &&& after.root_id() == Some(id)
                &&& forall|x: NodeId| #[trigger]
                    self.contains(x) ==> after.node_at(x) == self.node_at(x)
            },
        }
    }

    /// Inserts a hierarchy node: as the root when `parent_id` is `None`, else as the child
    /// of `parent_id` at `hierarchy_node.child_index`. The node has no data yet.
    pub fn insert_hierarchy_node(
        &mut self,
        parent_id: Option<NodeId>,
        hierarchy_node: HierarchyNode<H>,
    ) -> (r: Result<NodeId, InsertNodeError>)
        requires
            old(self).wf(),
            old(self).insert_error(parent_id, hierarchy_node.child_index) is None ==> match parent_id {
                Some(p) => old(self).node_at(p).hierarchy.depth < u32::MAX,
                None => true,
            },
        ensures
            final(self).wf(),
            match old(self).insert_error(parent_id, hierarchy_node.child_index) {
                Some(e) => r == Err::<NodeId, InsertNodeError>(e) && old(self).unchanged(*final(self)),
                None => r == Ok::<NodeId, InsertNodeError>(old(self).next_id()) && old(self).inserted_as(
                    *final(self),
                    parent_id,
                    hierarchy_node,
                    old(self).next_id(),
                ),
            },
    {
        let mut depth: Option<u32> = None;
        if let Some(parent_id) = &parent_id {
            if hierarchy_node.child_index >= 8 {
                return Err(InsertNodeError::ChildIndexOutOfBounds);
            }
            match self.hierarchy.get(*parent_id) {
                None => {
                    return Err(InsertNodeError::ParentNotExists);
                },
                Some(parent) => {
                    if has_bit(parent.hierarchy.children_mask, hierarchy_node.child_index) {
                        return Err(InsertNodeError::ChildIndexOccupied);
                    }
                    depth = Some(parent.hierarchy.depth + 1);
                },
            }
        } else {
            if self.root_id.is_some() {
                return Err(InsertNodeError::RootAlreadyExists);
            }
        }
        let ghost old_self = *self;
        let child_index = hierarchy_node.child_index;
        let zero = NodeId::zero();
        let vacant_entry = self.hierarchy.vacant_entry();
        let id = vacant_entry.key();
        let node_depth = match depth {
            Some(d) => d,
            None => 0,
        };
        vacant_entry.insert(
            OctreeNode {
                hierarchy: HierarchyOctreeNode {
                    id,
                    status: hierarchy_node.status,
                    child_index: hierarchy_node.child_index,
                    parent_id,
                    children: [zero; 8],
                    children_mask: 0,
                    bounding_box: hierarchy_node.bounding_box,
                    depth: node_depth,
                    data: hierarchy_node.data,
                },
                status: NodeStatus::HierarchyOnly,
                data: None,
            },
        );
        if let Some(parent_id) = &parent_id {
            match self.hierarchy.get_mut(*parent_id) {
                Some(parent) => {
                    parent.hierarchy.children[child_index] = id;
                    parent.hierarchy.children_mask = with_bit(parent.hierarchy.children_mask, child_index);
                },
                None => {},
            }
        } else {
            self.root_id = Some(id);
        }
        self.added.push(id);
        proof {
            lemma_empty_mask();
            let fin = *self;
            assert forall|x: NodeId| #[trigger] fin.contains(x) implies fin.node_linked(x) by {
                if x != id {
                    assert(old_self.contains(x));
                    assert(old_self.node_linked(x));
                    let n = old_self.node_at(x).hierarchy;
                    match parent_id {
                        Some(p) => {
                            let nn = fin.node_at(x).hierarchy;
                            match nn.parent_id {
                                Some(q) => {
                                    assert(old_self.contains(q));
                                },
                                None => {},
                            }
                            assert forall|i: int|
                                0 <= i < 8 && bit_set(nn.children_mask, i) implies {
                                &&& fin.contains(#[trigger] nn.children[i])
                                &&& fin.node_at(nn.children[i]).hierarchy.parent_id == Some(x)
                            } by {
                                if x == p && i == child_index {
                                    assert(nn.children[i] == id);
                                } else {
                                    assert(bit_set(n.children_mask, i));
                                    assert(nn.children[i] == n.children[i]);
                                    assert(old_self.contains(n.children[i]));
                                }
                            }
                        },
                        None => {
                            assert(false);
                        },
                    }
                }
            }
            match fin.root_id() {
                Some(r) => {
                    if r != id {
                        assert(old_self.contains(r));
                    }
                },
                None => {},
            }
        }
        Ok(id)
    }
}


/// `after` keeps the tree links of `before`: its handle, parent, children, mask and depth.
pub open spec fn keeps_links<H>(before: HierarchyOctreeNode<H>, after: HierarchyOctreeNode<H>) -> bool {
    &&& after.id == before.id
    &&& after.parent_id == before.parent_id
    &&& after.children == before.children
    &&& after.children_mask == before.children_mask
    &&& after.depth == before.depth
}

impl<H: HierarchyNodeData, T: NodeData> NewOctree<H, T> {
    /// `after` is `self` with node `id` replaced by `n`, and nothing else changed.
    pub open spec fn replaced(&self, after: Self, id: NodeId, n: OctreeNode<H, T>) -> bool {
        &&& forall|x: NodeId| after.contains(x) == self.contains(x)
        &&& after.node_at(id) == n
        &&& forall|x: NodeId| #[trigger] self.contains(x) && x != id ==> after.node_at(x) == self.node_at(x)
        &&& after.root_id() == self.root_id()
        &&& after.added_log() == self.added_log()
        &&& after.storage_wf() == self.storage_wf()
        &&& self.same_storage(after)
    }

    /// `after` holds the same nodes, root and insertion log as `self`.
    pub open spec fn unchanged(&self, after: Self) -> bool {
        &&& forall|x: NodeId| after.contains(x) == self.contains(x)
        &&& forall|x: NodeId| #[trigger] self.contains(x) ==> after.node_at(x) == self.node_at(x)
        &&& after.root_id() == self.root_id()
        &&& after.added_log() == self.added_log()
        &&& self.same_storage(after)
    }

    /// Keeping the same nodes and a consistent storage keeps the octree well-formed.
    pub proof fn lemma_unchanged_keeps_wf(&self, after: Self)
        requires
            self.wf(),
            self.unchanged(after),
            after.storage_wf(),
        ensures
            after.wf(),
    {
        assert forall|x: NodeId| #[trigger] after.contains(x) implies after.node_linked(x) by {
            assert(self.node_linked(x));
            let hn = after.node_at(x).hierarchy;
            match hn.parent_id {
                Some(p) => {
                    assert(self.contains(p));
                },
                None => {},
            }
            assert forall|i: int| 0 <= i < 8 && bit_set(hn.children_mask, i) implies {
                &&& after.contains(#[trigger] hn.children[i])
                &&& after.node_at(hn.children[i]).hierarchy.parent_id == Some(x)
            } by {
                assert(self.contains(hn.children[i]));
            }
        }
        match after.root_id() {
            Some(r) => {
                assert(self.contains(r));
            },
            None => {},
        }
    }

    /// Replacing a node by one with the same tree links keeps the octree well-formed.
    pub proof fn lemma_replace_keeps_wf(&self, after: Self, id: NodeId, n: OctreeNode<H, T>)
        requires
            self.wf(),
            self.contains(id),
            self.replaced(after, id, n),
            keeps_links(self.node_at(id).hierarchy, n.hierarchy),
        ensures
            after.wf(),
    {
        assert forall|x: NodeId| #[trigger] after.contains(x) implies after.node_linked(x) by {
            assert(self.node_linked(x));
            let hn = after.node_at(x).hierarchy;
            let ho = self.node_at(x).hierarchy;
            match hn.parent_id {
                Some(p) => {
                    assert(self.contains(p));
                },
                None => {},
            }
            assert forall|i: int| 0 <= i < 8 && bit_set(hn.children_mask, i) implies {
                &&& after.contains(#[trigger] hn.children[i])
                &&& after.node_at(hn.children[i]).hierarchy.parent_id == Some(x)
            } by {
                assert(hn.children[i] == ho.children[i]);
                assert(self.contains(ho.children[i]));
            }
        }
        match after.root_id() {
            Some(r) => {
                assert(self.contains(r));
            },
            None => {},
        }
    }

    /// Overwrites the status, child index, bounding box and data of the hierarchy part of
    /// an existing node.
    pub fn update_hierarchy_node(&mut self, node_id: NodeId, hierarchy_node: HierarchyNode<H>) -> (r:
        Result<(), InsertNodeError>)
        requires
            old(self).wf(),
        ensures
            final(self).wf(),
            r is Err <==> !old(self).contains(node_id),
            r is Err ==> r == Err::<(), InsertNodeError>(InsertNodeError::NodeNotFound)
                && old(self).unchanged(*final(self)),
            r is Ok ==> old(self).replaced(
                *final(self),
                node_id,
                OctreeNode {
                    hierarchy: HierarchyOctreeNode {
                        status: hierarchy_node.status,
                        child_index: hierarchy_node.child_index,
                        bounding_box: hierarchy_node.bounding_box,
                        data: hierarchy_node.data,
                        ..old(self).node_at(node_id).hierarchy
                    },
                    ..old(self).node_at(node_id)
                },
            ),
    {
        let ghost old_self = *self;
        let node = match self.hierarchy.get_mut(node_id) {
            Some(node) => node,
            None => {
                proof {
                    old_self.lemma_unchanged_keeps_wf(*self);
                }
                return Err(InsertNodeError::NodeNotFound);
            },
        };
        node.hierarchy.status = hierarchy_node.status;
        node.hierarchy.child_index = hierarchy_node.child_index;
        node.hierarchy.bounding_box = hierarchy_node.bounding_box;
        node.hierarchy.data = hierarchy_node.data;
        proof {
            let n = self.node_at(node_id);
            old_self.lemma_replace_keeps_wf(*self, node_id, n);
        }
        Ok(())
    }
}


impl<H: HierarchyNodeData, T: NodeData> NewOctree<H, T> {
    /// The hierarchy part of the node behind `node_id`, if it is a node of the octree.
    pub fn hierarchy_node(&self, node_id: NodeId) -> (r: Option<&HierarchyOctreeNode<H>>)
        requires
            self.wf(),
        ensures
            r == (if self.contains(node_id) {
                Some(&self.node_at(node_id).hierarchy)
            } else {
                None
            }),
    {
        match self.hierarchy.get(node_id) {
            Some(node) => Some(&node.hierarchy),
            None => None,
        }
    }

    /// A mutable reference to the hierarchy part of the node behind `node_id`, if any.
    ///
    /// The octree stays well-formed when the handle, parent, children, mask and depth are
    /// left as they are (see [`Self::lemma_replace_keeps_wf`]).
    pub fn hierarchy_node_mut(&mut self, node_id: NodeId) -> (r: Option<&mut HierarchyOctreeNode<H>>)
        requires
            old(self).wf(),
        ensures
            r is Some <==> old(self).contains(node_id),
            r is None ==> old(self).unchanged(*final(self)) && final(self).wf(),
            r is Some ==> {
                &&& *r->Some_0 == old(self).node_at(node_id).hierarchy
                &&& old(self).replaced(
                    *final(self),
                    node_id,
                    OctreeNode { hierarchy: *final(r->Some_0), ..old(self).node_at(node_id) },
                )
            },
    {
        if self.hierarchy.get(node_id).is_none() {
            return None;
        }
        match self.hierarchy.get_mut(node_id) {
            Some(node) => Some(&mut node.hierarchy),
            None => None,
        }
    }

    /// The hierarchy part of the root, if there is a root.
    pub fn hierarchy_root(&self) -> (r: Option<&HierarchyOctreeNode<H>>)
        requires
            self.wf(),
        ensures
            r == (match self.root_id() {
                Some(root_id) => Some(&self.node_at(root_id).hierarchy),
                None => None,
            }),
    {
        match self.root_id {
            Some(root_id) => self.hierarchy_node(root_id),
            None => None,
        }
    }

    /// The node behind `node_id`, if it is a node of the octree.
    pub fn node(&self, node_id: NodeId) -> (r: Option<&OctreeNode<H, T>>)
        requires
            self.wf(),
        ensures
            r == (if self.contains(node_id) {
                Some(&self.node_at(node_id))
            } else {
                None
            }),
    {
        self.hierarchy.get(node_id)
    }

    /// A mutable reference to the node behind `node_id`, if any.
    ///
    /// The octree stays well-formed when the tree links of the hierarchy part are left as
    /// they are (see [`Self::lemma_replace_keeps_wf`]).
    pub fn node_mut(&mut self, node_id: NodeId) -> (r: Option<&mut OctreeNode<H, T>>)
        requires
            old(self).wf(),
        ensures
            r is Some <==> old(self).contains(node_id),
            r is None ==> old(self).unchanged(*final(self)) && final(self).wf(),
            r is Some ==> {
                &&& *r->Some_0 == old(self).node_at(node_id)
                &&& old(self).replaced(*final(self), node_id, *final(r->Some_0))
            },
    {
        if self.hierarchy.get(node_id).is_none() {
            return None;
        }
        self.hierarchy.get_mut(node_id)
    }

    /// The root node, if there is a root.
    pub fn node_root(&self) -> (r: Option<&OctreeNode<H, T>>)
        requires
            self.wf(),
        ensures
            r == (match self.root_id() {
                Some(root_id) => Some(&self.node_at(root_id)),
                None => None,
            }),
    {
        match self.root_id {
            Some(root_id) => self.node(root_id),
            None => None,
        }
    }
}


impl<H: HierarchyNodeData, T: NodeData> NewOctree<H, T> {
    /// Marks the hierarchy of node `node_id` as being loaded, when the node is a proxy;
    /// returns whether it did.
    pub fn start_hierarchy_load(&mut self, node_id: NodeId) -> (started: bool)
        requires
            old(self).wf(),
        ensures
            final(self).wf(),
            started == (old(self).contains(node_id) && old(self).node_at(node_id).hierarchy.status
                == HierarchyNodeStatus::Proxy),
            started ==> old(self).replaced(
                *final(self),
                node_id,
                OctreeNode {
                    hierarchy: HierarchyOctreeNode {
                        status: HierarchyNodeStatus::Loading,
                        ..old(self).node_at(node_id).hierarchy
                    },
                    ..old(self).node_at(node_id)
                },
            ),
            !started ==> old(self).unchanged(*final(self)),
    {
        let ghost before = *self;
        match self.hierarchy_node_mut(node_id) {
            Some(node) => {
                if node.status == HierarchyNodeStatus::Proxy {
                    node.status = HierarchyNodeStatus::Loading;
                    proof {
                        let n = OctreeNode {
                            hierarchy: HierarchyOctreeNode { status: HierarchyNodeStatus::Loading, ..before.node_at(node_id).hierarchy },
                            ..before.node_at(node_id)
                        };
                        before.lemma_replace_keeps_wf(*self, node_id, n);
                    }
                    true
                } else {
                    proof {
                        before.lemma_replace_keeps_wf(*self, node_id, before.node_at(node_id));
                        assert(before.unchanged(*self));
                    }
                    false
                }
            },
            None => false,
        }
    }

    /// Marks the data of node `node_id` as being loaded, when only its hierarchy is
    /// there; returns whether it did.
    pub fn start_node_data_load(&mut self, node_id: NodeId) -> (started: bool)
        requires
            old(self).wf(),
        ensures
            final(self).wf(),
            started == (old(self).contains(node_id) && old(self).node_at(node_id).status == NodeStatus::HierarchyOnly),
            started ==> old(self).replaced(
                *final(self),
                node_id,
                OctreeNode { status: NodeStatus::Loading, ..old(self).node_at(node_id) },
            ),
            !started ==> old(self).unchanged(*final(self)),
    {
        let ghost before = *self;
        match self.node_mut(node_id) {
            Some(node) => {
                if node.status == NodeStatus::HierarchyOnly {
                    node.status = NodeStatus::Loading;
                    proof {
                        before.lemma_replace_keeps_wf(*self, node_id, OctreeNode { status: NodeStatus::Loading, ..before.node_at(node_id) });
                    }
                    true
                } else {
                    proof {
                        before.lemma_replace_keeps_wf(*self, node_id, before.node_at(node_id));
                        assert(before.unchanged(*self));
                    }
                    false
                }
            },
            None => false,
        }
    }

    /// Stores the loaded data of node `node_id` and marks it loaded; returns whether the
    /// node is there.
    pub fn store_node_data(&mut self, node_id: NodeId, data: T) -> (stored: bool)
        requires
            old(self).wf(),
        ensures
            final(self).wf(),
            stored == old(self).contains(node_id),
            stored ==> old(self).replaced(
                *final(self),
                node_id,
                OctreeNode { status: NodeStatus::Loaded, data: Some(data), ..old(self).node_at(node_id) },
            ),
            !stored ==> old(self).unchanged(*final(self)),
    {
        let ghost before = *self;
        match self.node_mut(node_id) {
            Some(node) => {
                node.data = Some(data);
                node.status = NodeStatus::Loaded;
                proof {
                    before.lemma_replace_keeps_wf(
                        *self,
                        node_id,
                        OctreeNode { status: NodeStatus::Loaded, data: Some(data), ..before.node_at(node_id) },
                    );
                }
                true
            },
            None => false,
        }
    }
}

/// Every parent reference of a flat hierarchy list names an earlier node.
pub open spec fn parents_precede<H>(nodes: Seq<HierarchyNode<H>>) -> bool {
    forall|i: int|
        0 <= i < nodes.len() ==> match #[trigger] nodes[i].parent_id {
            Some(p) => p < i,
            None => true,
        }
}

/// Some node of `nodes` before position `i` is a child of node `p` at child index `ci`.
pub open spec fn earlier_sibling<H>(nodes: Seq<HierarchyNode<H>>, i: int, p: usize, ci: usize) -> bool {
    exists|j: int| 0 <= j < i && #[trigger] nodes[j].parent_id == Some(p) && nodes[j].child_index == ci
}

/// The error inserting node `i` of a flat hierarchy list answers, when every earlier
/// node of the list was inserted.
pub open spec fn flat_node_error<H>(nodes: Seq<HierarchyNode<H>>, i: int) -> Option<InsertNodeError> {
    match nodes[i].parent_id {
        None => if i > 0 {
            Some(InsertNodeError::RootAlreadyExists)
        } else {
            None
        },
        Some(p) => if nodes[i].child_index >= 8 {
            Some(InsertNodeError::ChildIndexOutOfBounds)
        } else if earlier_sibling(nodes, i, p, nodes[i].child_index) {
            Some(InsertNodeError::ChildIndexOccupied)
        } else {
            None
        },
    }
}

/// No node of `nodes` before position `n` answers an error.
pub open spec fn flat_prefix_ok<H>(nodes: Seq<HierarchyNode<H>>, n: int) -> bool {
    forall|j: int| 0 <= j < n ==> #[trigger] flat_node_error(nodes, j) is None
}

impl<H: HierarchyNodeData, T: NodeData> NewOctree<H, T> {
    /// Node `k` of `nodes` was inserted with handle `ids[k]`, with its fields, and its
    /// children are exactly the listed nodes before `n` that name it as parent.
    pub open spec fn holds_flat_node(
        &self,
        nodes: Seq<HierarchyNode<H>>,
        ids: Seq<NodeId>,
        n: int,
        k: int,
    ) -> bool {
        let h = self.node_at(ids[k]).hierarchy;
        &&& self.contains(ids[k])
        &&& h.status == nodes[k].status
        &&& h.child_index == nodes[k].child_index
        &&& h.bounding_box == nodes[k].bounding_box
        &&& h.data == nodes[k].data
        &&& h.parent_id == (match nodes[k].parent_id {
            Some(p) => Some(ids[p as int]),
            None => None::<NodeId>,
        })
        &&& h.depth <= k
        &&& self.node_at(ids[k]).status == NodeStatus::HierarchyOnly
        &&& self.node_at(ids[k]).data is None
        &&& forall|c: int| 0 <= c < 8 ==> (bit_set(h.children_mask, c) <==> earlier_sibling(nodes, n, k as usize, c as usize))
    }

    /// The octree holds exactly the first `n` nodes of `nodes`, under the handles `ids`.
    pub open spec fn holds_flat_prefix(&self, nodes: Seq<HierarchyNode<H>>, ids: Seq<NodeId>, n: int) -> bool {
        &&& ids.len() == n
        &&& forall|a: int, b: int| 0 <= a < b < n ==> ids[a] != ids[b]
        &&& forall|x: NodeId| self.contains(x) <==> exists|k: int| 0 <= k < n && ids[k] == x
        &&& forall|k: int| 0 <= k < n ==> #[trigger] self.holds_flat_node(nodes, ids, n, k)
        &&& self.root_id() == (if n > 0 { Some(ids[0]) } else { None })
    }

    /// Builds an octree from a flat hierarchy list, as a loader hands one out: the first
    /// node is the root, and each other node names an earlier node as its parent.
    /// Returns the octree and the handle of each listed node, or the first insertion error.
    pub fn from_flat_hierarchy(nodes: Vec<HierarchyNode<H>>) -> (r: Result<(Self, Vec<NodeId>), InsertNodeError>)
        requires
            parents_precede(nodes@),
            nodes@.len() <= u32::MAX,
        ensures
            match r {
                Ok((o, ids)) => {
                    &&& o.wf()
                    &&& flat_prefix_ok(nodes@, nodes@.len() as int)
                    &&& o.holds_flat_prefix(nodes@, ids@, nodes@.len() as int)
                },
                Err(e) => exists|i: int|
                    0 <= i < nodes@.len() && flat_prefix_ok(nodes@, i) && flat_node_error(nodes@, i) == Some(e),
            },
    {
        let ghost all = nodes@;
        let mut octree = NewOctree::<H, T>::new();
        let mut parents: Vec<NodeId> = Vec::new();
        for node in it: nodes.into_iter()
            invariant
                it.seq() == all,
                parents_precede(all),
                all.len() <= u32::MAX,
                octree.wf(),
                flat_prefix_ok(all, it.index() as int),
                octree.holds_flat_prefix(all, parents@, it.index() as int),
        {
            let ghost i = it.index() as int;
            let ghost before = octree;
            let mut parent_id: Option<NodeId> = None;
            if let Some(parent) = node.parent_id {
                parent_id = Some(parents[parent]);
            }
            proof {
                assert(node == all[i]);
                before.lemma_flat_error(all, parents@, i);
            }
            let inserted = octree.insert_hierarchy_node(parent_id, node);
            match inserted {
                Ok(id) => {
                    proof {
                        before.lemma_flat_step(octree, all, parents@, i, id);
                    }
                    parents.push(id);
                },
                Err(e) => {
                    return Err(e);
                },
            }
        }
        Ok((octree, parents))
    }
}


impl<H: HierarchyNodeData, T: NodeData> NewOctree<H, T> {
    /// The parent handle that node `i` of a flat list is inserted under.
    pub open spec fn flat_parent(nodes: Seq<HierarchyNode<H>>, ids: Seq<NodeId>, i: int) -> Option<NodeId> {
        match nodes[i].parent_id {
            Some(p) => Some(ids[p as int]),
            None => None,
        }
    }

    /// Inserting node `i` of a flat list answers exactly the error the list predicts, and
    /// its parent's depth leaves room for one more level.
    pub proof fn lemma_flat_error(&self, nodes: Seq<HierarchyNode<H>>, ids: Seq<NodeId>, i: int)
        requires
            self.wf(),
            0 <= i < nodes.len(),
            nodes.len() <= u32::MAX,
            parents_precede(nodes),
            self.holds_flat_prefix(nodes, ids, i),
        ensures
            self.insert_error(Self::flat_parent(nodes, ids, i), nodes[i].child_index) == flat_node_error(nodes, i),
            self.insert_error(Self::flat_parent(nodes, ids, i), nodes[i].child_index) is None ==> match Self::flat_parent(nodes, ids, i) {
                Some(p) => self.node_at(p).hierarchy.depth < u32::MAX,
                None => true,
            },
    {
        match nodes[i].parent_id {
            Some(p) => {
                assert(p < i);
                assert(self.holds_flat_node(nodes, ids, i, p as int));
                let ci = nodes[i].child_index;
                if ci < 8 {
                    assert(bit_set(self.node_at(ids[p as int]).hierarchy.children_mask, ci as int)
                        <==> earlier_sibling(nodes, i, p, ci));
                }
            },
            None => {},
        }
    }

    /// Inserting node `i` of a flat list extends the prefix the octree holds by one.
    pub proof fn lemma_flat_step(&self, after: Self, nodes: Seq<HierarchyNode<H>>, ids: Seq<NodeId>, i: int, id: NodeId)
        requires
            self.wf(),
            after.wf(),
            0 <= i < nodes.len(),
            nodes.len() <= u32::MAX,
            parents_precede(nodes),
            self.holds_flat_prefix(nodes, ids, i),
            flat_node_error(nodes, i) is None,
            self.inserted_as(after, Self::flat_parent(nodes, ids, i), nodes[i], id),
        ensures
            after.holds_flat_prefix(nodes, ids.push(id), i + 1),
    {
        let ids2 = ids.push(id);
        let n = nodes[i];
        assert forall|a: int, b: int| 0 <= a < b < i + 1 implies ids2[a] != ids2[b] by {
            if b == i {
                assert(self.holds_flat_node(nodes, ids, i, a));
            }
        }
        assert forall|x: NodeId| after.contains(x) <==> exists|k: int| 0 <= k < i + 1 && ids2[k] == x by {
            if after.contains(x) && x != id {
                let k = choose|k: int| 0 <= k < i && ids[k] == x;
                assert(ids2[k] == x);
            }
            if x == id {
                assert(ids2[i] == x);
            }
            if exists|k: int| 0 <= k < i + 1 && ids2[k] == x {
                let k = choose|k: int| 0 <= k < i + 1 && ids2[k] == x;
                if k < i {
                    assert(self.holds_flat_node(nodes, ids, i, k));
                }
            }
        }
        lemma_empty_mask();
        assert forall|k: int| 0 <= k < i + 1 implies #[trigger] after.holds_flat_node(nodes, ids2, i + 1, k) by {
            if k == i {
                match n.parent_id {
                    Some(p) => {
                        assert(self.holds_flat_node(nodes, ids, i, p as int));
                        assert(ids2[p as int] == ids[p as int]);
                    },
                    None => {},
                }
                assert forall|c: int| 0 <= c < 8 implies (bit_set(after.node_at(ids2[k]).hierarchy.children_mask, c) <==> earlier_sibling(nodes, i + 1, k as usize, c as usize)) by {
                    if earlier_sibling(nodes, i + 1, k as usize, c as usize) {
                        let j = choose|j: int| 0 <= j < i + 1 && #[trigger] nodes[j].parent_id == Some(k as usize) && nodes[j].child_index == c as usize;
                        assert(nodes[j].parent_id->Some_0 < j);
                        assert(false);
                    }
                }
            } else {
                assert(self.holds_flat_node(nodes, ids, i, k));
                assert(ids2[k] == ids[k]);
                let hk = self.node_at(ids[k]).hierarchy;
                let hk2 = after.node_at(ids[k]).hierarchy;
                match hk.parent_id {
                    Some(q) => {},
                    None => {},
                }
                match n.parent_id {
                    Some(p) => {
                        assert(ids2[p as int] == ids[p as int]);
                        if p as int == k {
                            assert forall|c: int| 0 <= c < 8 implies (bit_set(hk2.children_mask, c) <==> earlier_sibling(nodes, i + 1, k as usize, c as usize)) by {
                                if c == n.child_index as int {
                                    assert(nodes[i].parent_id == Some(k as usize));
                                } else {
                                    if earlier_sibling(nodes, i + 1, k as usize, c as usize) {
                                        let j = choose|j: int| 0 <= j < i + 1 && #[trigger] nodes[j].parent_id == Some(k as usize) && nodes[j].child_index == c as usize;
                                        assert(j < i);
                                    }
                                }
                            }
                        } else {
                            assert(ids[p as int] != ids[k]) by {
                                assert(p < i);
                                if (p as int) < k {
                                    assert(ids[p as int] != ids[k]);
                                } else {
                                    assert(ids[k] != ids[p as int]);
                                }
                            }
                            assert forall|c: int| 0 <= c < 8 implies (bit_set(hk2.children_mask, c) <==> earlier_sibling(nodes, i + 1, k as usize, c as usize)) by {
                                if earlier_sibling(nodes, i + 1, k as usize, c as usize) {
                                    let j = choose|j: int| 0 <= j < i + 1 && #[trigger] nodes[j].parent_id == Some(k as usize) && nodes[j].child_index == c as usize;
                                    assert(j < i);
                                }
                            }
                        }
                    },
                    None => {
                        assert(i == 0);
                    },
                }
            }
        }
    }
}


/// Positions `p` and `q` of a sub-hierarchy list stand for the same octree node: the same
/// position, or two parentless positions (both stand for the node being expanded).
pub open spec fn same_slot<H>(nodes: Seq<HierarchyNode<H>>, p: int, q: int) -> bool {
    p == q || (nodes[p].parent_id is None && nodes[q].parent_id is None)
}

/// Some node of `nodes` before position `i` is a child, at child index `ci`, of the octree
/// node that position `p` stands for.
pub open spec fn earlier_sub_sibling<H>(nodes: Seq<HierarchyNode<H>>, i: int, p: int, ci: usize) -> bool {
    exists|j: int|
        0 <= j < i && (#[trigger] nodes[j].parent_id matches Some(q) && same_slot(nodes, q as int, p))
            && nodes[j].child_index == ci
}

/// The error that node `i` of a sub-hierarchy list answers when every earlier node of the
/// list was applied, given whether the expanded node exists and its children mask.
pub open spec fn sub_node_error<H>(
    anchor_live: bool,
    anchor_mask: u8,
    nodes: Seq<HierarchyNode<H>>,
    i: int,
) -> Option<InsertNodeError> {
    match nodes[i].parent_id {
        None => if anchor_live {
            None
        } else {
            Some(InsertNodeError::NodeNotFound)
        },
        Some(p) => if nodes[i].child_index >= 8 {
            Some(InsertNodeError::ChildIndexOutOfBounds)
        } else if (nodes[p as int].parent_id is None && bit_set(anchor_mask, nodes[i].child_index as int))
            || earlier_sub_sibling(nodes, i, p as int, nodes[i].child_index) {
            Some(InsertNodeError::ChildIndexOccupied)
        } else {
            None
        },
    }
}


/// The last parentless position of `nodes` before `n`, or -1 when there is none.
pub open spec fn last_anchor<H>(nodes: Seq<HierarchyNode<H>>, n: int) -> int
    decreases n,
{
    if n <= 0 {
        -1
    } else if nodes[n - 1].parent_id is None {
        n - 1
    } else {
        last_anchor(nodes, n - 1)
    }
}

impl<H: HierarchyNodeData, T: NodeData> NewOctree<H, T> {
    /// Node `k` (a child position) of `nodes` was inserted with handle `ids[k]`, with its
    /// fields, and its children are exactly the listed nodes before `n` naming it as parent.
    pub open spec fn holds_sub_node(
        &self,
        base_depth: int,
        nodes: Seq<HierarchyNode<H>>,
        ids: Seq<NodeId>,
        n: int,
        k: int,
    ) -> bool {
        let h = self.node_at(ids[k]).hierarchy;
        &&& self.contains(ids[k])
        &&& h.status == nodes[k].status
        &&& h.child_index == nodes[k].child_index
        &&& h.bounding_box == nodes[k].bounding_box
        &&& h.data == nodes[k].data
        &&& h.parent_id == (match nodes[k].parent_id {
            Some(p) => Some(ids[p as int]),
            None => None::<NodeId>,
        })
        &&& h.depth <= base_depth + k
        &&& self.node_at(ids[k]).status == NodeStatus::HierarchyOnly
        &&& self.node_at(ids[k]).data is None
        &&& forall|c: int| 0 <= c < 8 ==> (bit_set(h.children_mask, c) <==> earlier_sub_sibling(nodes, n, k, c as usize))
    }

    /// The octree is `before` with the first `n` nodes of the sub-hierarchy `nodes` of
    /// `anchor` applied: parentless nodes update `anchor`, the others are inserted with the
    /// handles `ids`.
    pub open spec fn holds_sub_prefix(
        &self,
        before: Self,
        anchor: NodeId,
        nodes: Seq<HierarchyNode<H>>,
        ids: Seq<NodeId>,
        n: int,
    ) -> bool {
        let a = self.node_at(anchor).hierarchy;
        let b = before.node_at(anchor).hierarchy;
        let base_depth = b.depth as int;
        &&& ids.len() == n
        &&& n > 0 ==> before.contains(anchor) && nodes[0].parent_id is None
        &&& forall|k: int| 0 <= k < n && nodes[k].parent_id is None ==> ids[k] == anchor
        &&& forall|k: int| #![trigger ids[k]] 0 <= k < n && nodes[k].parent_id is Some ==> !before.contains(ids[k])
        &&& forall|a1: int, b1: int| 0 <= a1 < b1 < n && nodes[a1].parent_id is Some && nodes[b1].parent_id is Some ==> ids[a1] != ids[b1]
        &&& forall|x: NodeId| self.contains(x) <==> (before.contains(x) || exists|k: int| 0 <= k < n && nodes[k].parent_id is Some && ids[k] == x)
        &&& forall|x: NodeId| #[trigger] before.contains(x) && x != anchor ==> self.node_at(x) == before.node_at(x)
        &&& self.root_id() == before.root_id()
        &&& (n == 0 && before.contains(anchor)) ==> self.node_at(anchor) == before.node_at(anchor)
        &&& forall|k: int| 0 <= k < n && nodes[k].parent_id is Some ==> #[trigger] self.holds_sub_node(base_depth, nodes, ids, n, k)
        &&& n > 0 ==> {
            let l = last_anchor(nodes, n);
            &&& a.id == b.id
            &&& a.parent_id == b.parent_id
            &&& a.depth == b.depth
            &&& a.status == nodes[l].status
            &&& a.child_index == nodes[l].child_index
            &&& a.bounding_box == nodes[l].bounding_box
            &&& a.data == nodes[l].data
            &&& self.node_at(anchor).status == before.node_at(anchor).status
            &&& self.node_at(anchor).data == before.node_at(anchor).data
            &&& forall|c: int| 0 <= c < 8 ==> (bit_set(a.children_mask, c) <==> (bit_set(b.children_mask, c) || earlier_sub_sibling(nodes, n, 0, c as usize)))
        }
    }
}


impl<H: HierarchyNodeData, T: NodeData> NewOctree<H, T> {
    /// Applying node `i` of a sub-hierarchy list answers exactly the error the list
    /// predicts, and a parent's depth leaves room for one more level.
    pub proof fn lemma_sub_error(
        &self,
        before: Self,
        anchor: NodeId,
        nodes: Seq<HierarchyNode<H>>,
        ids: Seq<NodeId>,
        i: int,
    )
        requires
            self.wf(),
            before.wf(),
            0 <= i < nodes.len(),
            parents_precede(nodes),
            before.contains(anchor) ==> before.node_at(anchor).hierarchy.depth + nodes.len() <= u32::MAX,
            self.holds_sub_prefix(before, anchor, nodes, ids, i),
        ensures
            nodes[i].parent_id is None ==> (self.contains(anchor) == before.contains(anchor)),
            match nodes[i].parent_id {
                Some(p) => {
                    &&& self.insert_error(Some(ids[p as int]), nodes[i].child_index) == sub_node_error(
                        before.contains(anchor),
                        before.node_at(anchor).hierarchy.children_mask,
                        nodes,
                        i,
                    )
                    &&& self.node_at(ids[p as int]).hierarchy.depth < u32::MAX
                    &&& self.node_at(ids[p as int]).hierarchy.depth <= before.node_at(anchor).hierarchy.depth + p
                },
                None => true,
            },
    {
        if i > 0 {
            assert(before.contains(anchor));
        }
        match nodes[i].parent_id {
            Some(p) => {
                assert(p < i);
                let ci = nodes[i].child_index;
                if nodes[p as int].parent_id is None {
                    assert(ids[p as int] == anchor);
                    assert(nodes[0].parent_id is None);
                    if ci < 8 {
                        assert forall|c: usize| #![auto] earlier_sub_sibling(nodes, i, 0, c) == earlier_sub_sibling(nodes, i, p as int, c) by {
                            if earlier_sub_sibling(nodes, i, 0, c) {
                                let j = choose|j: int| 0 <= j < i && (#[trigger] nodes[j].parent_id matches Some(q) && same_slot(nodes, q as int, 0)) && nodes[j].child_index == c;
                                assert(nodes[j].parent_id is Some);
                            }
                            if earlier_sub_sibling(nodes, i, p as int, c) {
                                let j = choose|j: int| 0 <= j < i && (#[trigger] nodes[j].parent_id matches Some(q) && same_slot(nodes, q as int, p as int)) && nodes[j].child_index == c;
                                assert(nodes[j].parent_id is Some);
                            }
                        }
                    }
                } else {
                    assert(self.holds_sub_node(before.node_at(anchor).hierarchy.depth as int, nodes, ids, i, p as int));
                }
            },
            None => {},
        }
    }
}


proof fn lemma_last_anchor_bounds<H>(nodes: Seq<HierarchyNode<H>>, n: int)
    requires
        0 <= n <= nodes.len(),
    ensures
        -1 <= last_anchor(nodes, n) < n,
        last_anchor(nodes, n) >= 0 ==> nodes[last_anchor(nodes, n)].parent_id is None,
        (n > 0 && nodes[0].parent_id is None) ==> last_anchor(nodes, n) >= 0,
    decreases n,
{
    if n > 0 {
        lemma_last_anchor_bounds(nodes, n - 1);
    }
}

impl<H: HierarchyNodeData, T: NodeData> NewOctree<H, T> {
    /// Applying a parentless node `i` (updating the anchor) extends the applied prefix.
    pub proof fn lemma_sub_update_step(
        &self,
        after: Self,
        before: Self,
        anchor: NodeId,
        nodes: Seq<HierarchyNode<H>>,
        ids: Seq<NodeId>,
        i: int,
    )
        requires
            self.wf(),
            0 <= i < nodes.len(),
            parents_precede(nodes),
            nodes[i].parent_id is None,
            before.contains(anchor),
            self.contains(anchor),
            self.holds_sub_prefix(before, anchor, nodes, ids, i),
            self.replaced(
                after,
                anchor,
                OctreeNode {
                    hierarchy: HierarchyOctreeNode {
                        status: nodes[i].status,
                        child_index: nodes[i].child_index,
                        bounding_box: nodes[i].bounding_box,
                        data: nodes[i].data,
                        ..self.node_at(anchor).hierarchy
                    },
                    ..self.node_at(anchor)
                },
            ),
        ensures
            after.holds_sub_prefix(before, anchor, nodes, ids.push(anchor), i + 1),
    {
        let ids2 = ids.push(anchor);
        let n = i + 1;
        let bd = before.node_at(anchor).hierarchy.depth as int;
        assert(last_anchor(nodes, n) == i);
        if i == 0 {
            assert(self.node_at(anchor) == before.node_at(anchor));
        }
        assert forall|c: usize, k: int| #![auto] 0 <= k < n ==> earlier_sub_sibling(nodes, n, k, c) == earlier_sub_sibling(nodes, i, k, c) by {
            if earlier_sub_sibling(nodes, n, k, c) {
                let j = choose|j: int| 0 <= j < n && (#[trigger] nodes[j].parent_id matches Some(q) && same_slot(nodes, q as int, k)) && nodes[j].child_index == c;
                assert(j < i);
            }
        }
        assert forall|x: NodeId| after.contains(x) <==> (before.contains(x) || exists|k: int| 0 <= k < n && nodes[k].parent_id is Some && ids2[k] == x) by {
            if exists|k: int| 0 <= k < n && nodes[k].parent_id is Some && ids2[k] == x {
                let k = choose|k: int| 0 <= k < n && nodes[k].parent_id is Some && ids2[k] == x;
                assert(ids[k] == x);
            }
            if self.contains(x) && !before.contains(x) {
                let k = choose|k: int| 0 <= k < i && nodes[k].parent_id is Some && ids[k] == x;
                assert(ids2[k] == x);
            }
        }
        assert forall|k: int| 0 <= k < n && nodes[k].parent_id is Some implies #[trigger] after.holds_sub_node(bd, nodes, ids2, n, k) by {
            assert(self.holds_sub_node(bd, nodes, ids, i, k));
            assert(ids2[k] == ids[k]);
            assert(!before.contains(ids[k]));
            match nodes[k].parent_id {
                Some(p) => {
                    assert(ids2[p as int] == ids[p as int]);
                },
                None => {},
            }
        }
        assert forall|a1: int, b1: int| 0 <= a1 < b1 < n && nodes[a1].parent_id is Some && nodes[b1].parent_id is Some implies ids2[a1] != ids2[b1] by {
            assert(ids2[a1] == ids[a1]);
            assert(ids2[b1] == ids[b1]);
        }
        assert forall|k: int| #![trigger ids2[k]] 0 <= k < n && nodes[k].parent_id is Some implies !before.contains(ids2[k]) by {
            assert(ids2[k] == ids[k]);
        }
        assert forall|x: NodeId| #[trigger] before.contains(x) && x != anchor implies after.node_at(x) == before.node_at(x) by {
            assert(self.contains(x));
        }
    }
}


impl<H: HierarchyNodeData, T: NodeData> NewOctree<H, T> {
    /// Applying a child node `i` (inserting it under its parent's octree node) extends the
    /// applied prefix.
    #[verifier::rlimit(100)]
    #[verifier::spinoff_prover]
    pub proof fn lemma_sub_insert_step(
        &self,
        after: Self,
        before: Self,
        anchor: NodeId,
        nodes: Seq<HierarchyNode<H>>,
        ids: Seq<NodeId>,
        i: int,
        id: NodeId,
    )
        requires
            self.wf(),
            0 <= i < nodes.len(),
            nodes.len() <= usize::MAX,
            parents_precede(nodes),
            nodes[i].parent_id is Some,
            self.holds_sub_prefix(before, anchor, nodes, ids, i),
            self.node_at(ids[nodes[i].parent_id->Some_0 as int]).hierarchy.depth
                <= before.node_at(anchor).hierarchy.depth + nodes[i].parent_id->Some_0,
            self.inserted_as(after, Some(ids[nodes[i].parent_id->Some_0 as int]), nodes[i], id),
        ensures
            after.holds_sub_prefix(before, anchor, nodes, ids.push(id), i + 1),
    {
        let ids2 = ids.push(id);
        let n = i + 1;
        let p = nodes[i].parent_id->Some_0 as int;
        let ci = nodes[i].child_index;
        let bd = before.node_at(anchor).hierarchy.depth as int;
        let pid = ids[p];
        assert(p < i);
        assert(i > 0);
        assert(before.contains(anchor));
        assert(nodes[0].parent_id is None);
        assert(ids[0] == anchor);
        assert(self.contains(pid)) by {
            if nodes[p].parent_id is Some {
                assert(self.holds_sub_node(bd, nodes, ids, i, p));
            }
        }
        lemma_empty_mask();
        lemma_last_anchor_bounds(nodes, i);
        assert(last_anchor(nodes, n) == last_anchor(nodes, i));
        // how the sibling sets grow with position i
        assert forall|c: usize, k: int| #![auto] 0 <= k < n ==> earlier_sub_sibling(nodes, n, k, c) == (earlier_sub_sibling(nodes, i, k, c) || (same_slot(nodes, p, k) && ci == c)) by {
            if earlier_sub_sibling(nodes, n, k, c) {
                let j = choose|j: int| 0 <= j < n && (#[trigger] nodes[j].parent_id matches Some(q) && same_slot(nodes, q as int, k)) && nodes[j].child_index == c;
                if j < i {
                    assert(earlier_sub_sibling(nodes, i, k, c));
                }
            }
            if same_slot(nodes, p, k) && ci == c {
                assert(nodes[i].parent_id matches Some(q) && same_slot(nodes, q as int, k));
            }
            if earlier_sub_sibling(nodes, i, k, c) {
                let j = choose|j: int| 0 <= j < i && (#[trigger] nodes[j].parent_id matches Some(q) && same_slot(nodes, q as int, k)) && nodes[j].child_index == c;
                assert(nodes[j].parent_id matches Some(q) && same_slot(nodes, q as int, k));
            }
        }
        assert(!self.contains(id));
        assert forall|x: NodeId| after.contains(x) <==> (before.contains(x) || exists|k: int| 0 <= k < n && nodes[k].parent_id is Some && ids2[k] == x) by {
            if exists|k: int| 0 <= k < n && nodes[k].parent_id is Some && ids2[k] == x {
                let k = choose|k: int| 0 <= k < n && nodes[k].parent_id is Some && ids2[k] == x;
                if k < i {
                    assert(ids[k] == x);
                }
            }
            if self.contains(x) && !before.contains(x) {
                let k = choose|k: int| 0 <= k < i && nodes[k].parent_id is Some && ids[k] == x;
                assert(ids2[k] == x);
            }
            if x == id {
                assert(ids2[i] == x);
            }
        }
        assert forall|k: int| #![trigger ids2[k]] 0 <= k < n && nodes[k].parent_id is Some implies !before.contains(ids2[k]) by {
            if k < i {
                assert(ids2[k] == ids[k]);
            }
        }
        assert forall|a1: int, b1: int| 0 <= a1 < b1 < n && nodes[a1].parent_id is Some && nodes[b1].parent_id is Some implies ids2[a1] != ids2[b1] by {
            assert(ids2[a1] == ids[a1]);
            if b1 < i {
                assert(ids2[b1] == ids[b1]);
            } else {
                assert(self.holds_sub_node(bd, nodes, ids, i, a1));
            }
        }
        assert forall|x: NodeId| #[trigger] before.contains(x) && x != anchor implies after.node_at(x) == before.node_at(x) by {
            assert(self.contains(x));
            if x == pid {
                // the parent is a listed child node, never a node that was there before
                assert(nodes[p].parent_id is Some) by {
                    if nodes[p].parent_id is None {
                        assert(ids[p] == anchor);
                    }
                }
                assert(!before.contains(ids[p]));
            }
        }
        assert forall|k: int| 0 <= k < n && nodes[k].parent_id is Some implies #[trigger] after.holds_sub_node(bd, nodes, ids2, n, k) by {
            if k == i {
                assert(ids2[p] == pid);
                assert forall|c: int| 0 <= c < 8 implies !#[trigger] earlier_sub_sibling(nodes, n, k, c as usize) by {
                    if earlier_sub_sibling(nodes, n, k, c as usize) {
                        let j = choose|j: int| 0 <= j < n && (#[trigger] nodes[j].parent_id matches Some(q) && same_slot(nodes, q as int, k)) && nodes[j].child_index == c as usize;
                        assert(nodes[j].parent_id->Some_0 < j);
                    }
                }
            } else {
                assert(self.holds_sub_node(bd, nodes, ids, i, k));
                assert(ids2[k] == ids[k]);
                match nodes[k].parent_id {
                    Some(q) => {
                        assert(ids2[q as int] == ids[q as int]);
                    },
                    None => {},
                }
                if ids[k] == pid {
                    assert(p == k) by {
                        if nodes[p].parent_id is None {
                            assert(!before.contains(ids[k]));
                        } else if p < k {
                            assert(ids[p] != ids[k]);
                        } else if k < p {
                            assert(ids[k] != ids[p]);
                        }
                    }
                } else {
                    assert(!same_slot(nodes, p, k)) by {
                        if nodes[p].parent_id is Some {
                            assert(p != k);
                        }
                    }
                }
            }
        }
        if pid == anchor {
            assert(same_slot(nodes, p, 0)) by {
                if nodes[p].parent_id is Some {
                    assert(self.holds_sub_node(bd, nodes, ids, i, p));
                    assert(!before.contains(ids[p]));
                }
            }
        } else {
            assert(!same_slot(nodes, p, 0)) by {
                if nodes[p].parent_id is None {
                    assert(ids[p] == anchor);
                }
            }
        }
    }
}


impl<H: HierarchyNodeData, T: NodeData> NewOctree<H, T> {
    /// Merges the sub-hierarchy of `node_id` that a loader handed out: parentless nodes
    /// update `node_id`, the others are inserted under the node their parent position
    /// stands for. Stops at the first node that cannot be applied. Returns the handle each
    /// applied node stands for, and the error that stopped the merge, if any.
    pub fn append_sub_hierarchy(&mut self, node_id: NodeId, hierarchy_nodes: Vec<HierarchyNode<H>>) -> (r: (
        Vec<NodeId>,
        Option<InsertNodeError>,
    ))
        requires
            old(self).wf(),
            parents_precede(hierarchy_nodes@),
            hierarchy_nodes@.len() <= u32::MAX,
            old(self).contains(node_id) ==> old(self).node_at(node_id).hierarchy.depth
                + hierarchy_nodes@.len() <= u32::MAX,
        ensures
            final(self).wf(),
            r.0@.len() <= hierarchy_nodes@.len(),
            final(self).holds_sub_prefix(*old(self), node_id, hierarchy_nodes@, r.0@, r.0@.len() as int),
            forall|j: int|
                0 <= j < r.0@.len() ==> #[trigger] sub_node_error(
                    old(self).contains(node_id),
                    old(self).node_at(node_id).hierarchy.children_mask,
                    hierarchy_nodes@,
                    j,
                ) is None,
            match r.1 {
                Some(e) => r.0@.len() < hierarchy_nodes@.len() && sub_node_error(
                    old(self).contains(node_id),
                    old(self).node_at(node_id).hierarchy.children_mask,
                    hierarchy_nodes@,
                    r.0@.len() as int,
                ) == Some(e),
                None => r.0@.len() == hierarchy_nodes@.len(),
            },
    {
        let ghost all = hierarchy_nodes@;
        let ghost before = *self;
        let ghost live = before.contains(node_id);
        let ghost mask = before.node_at(node_id).hierarchy.children_mask;
        let mut parents: Vec<NodeId> = Vec::new();
        for node in it: hierarchy_nodes.into_iter()
            invariant
                it.seq() == all,
                parents_precede(all),
                all.len() <= u32::MAX,
                before == *old(self),
                before.wf(),
                live == before.contains(node_id),
                mask == before.node_at(node_id).hierarchy.children_mask,
                live ==> before.node_at(node_id).hierarchy.depth + all.len() <= u32::MAX,
                self.wf(),
                parents@.len() == it.index(),
                self.holds_sub_prefix(before, node_id, all, parents@, it.index() as int),
                forall|j: int| 0 <= j < it.index() ==> #[trigger] sub_node_error(live, mask, all, j) is None,
        {
            let ghost i = it.index() as int;
            let ghost cur = *self;
            proof {
                assert(node == all[i]);
                cur.lemma_sub_error(before, node_id, all, parents@, i);
            }
            if let Some(parent) = node.parent_id {
                let parent_id = Some(parents[parent]);
                match self.insert_hierarchy_node(parent_id, node) {
                    Ok(id) => {
                        proof {
                            cur.lemma_sub_insert_step(*self, before, node_id, all, parents@, i, id);
                        }
                        parents.push(id);
                    },
                    Err(error) => {
                        proof {
                            cur.lemma_unchanged_keeps_wf(*self);
                            cur.lemma_unchanged_keeps_sub_prefix(*self, before, node_id, all, parents@, i);
                        }
                        return (parents, Some(error));
                    },
                }
            } else {
                match self.update_hierarchy_node(node_id, node) {
                    Ok(_) => {
                        proof {
                            cur.lemma_sub_update_step(*self, before, node_id, all, parents@, i);
                        }
                        parents.push(node_id);
                    },
                    Err(error) => {
                        proof {
                            cur.lemma_unchanged_keeps_sub_prefix(*self, before, node_id, all, parents@, i);
                        }
                        return (parents, Some(error));
                    },
                }
            }
        }
        (parents, None)
    }
}


impl<H: HierarchyNodeData, T: NodeData> NewOctree<H, T> {
    /// An octree holding the same nodes holds the same applied prefix.
    pub proof fn lemma_unchanged_keeps_sub_prefix(
        &self,
        after: Self,
        before: Self,
        anchor: NodeId,
        nodes: Seq<HierarchyNode<H>>,
        ids: Seq<NodeId>,
        n: int,
    )
        requires
            self.unchanged(after),
            self.holds_sub_prefix(before, anchor, nodes, ids, n),
        ensures
            after.holds_sub_prefix(before, anchor, nodes, ids, n),
    {
        let bd = before.node_at(anchor).hierarchy.depth as int;
        assert forall|k: int| 0 <= k < n && nodes[k].parent_id is Some implies #[trigger] after.holds_sub_node(bd, nodes, ids, n, k) by {
            assert(self.holds_sub_node(bd, nodes, ids, n, k));
        }
        if n > 0 {
            assert(self.contains(anchor));
        }
        assert forall|x: NodeId| #[trigger] before.contains(x) && x != anchor implies after.node_at(x) == before.node_at(x) by {
            assert(self.contains(x));
        }
        if n == 0 && before.contains(anchor) {
            assert(self.contains(anchor));
        }
    }
}

} // verus!
