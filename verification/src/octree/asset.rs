//! An octree whose nodes live in a generational slab.
use crate::bits::{bit_set, has_bit, lemma_empty_mask, lemma_inverted_bit, with_bit};
use crate::geometry::Aabb;
use crate::octree::storage::GenerationalSlab;
pub use crate::octree::storage::NodeId;
use vstd::prelude::*;

verus! {

/// Why a node could not be inserted.
#[derive(Clone, Copy, Debug, PartialEq, Eq, Structural)]
pub enum InsertNodeError {
    ParentNotExists,
    RootAlreadyExists,
    ChildIndexOccupied,
    ChildIndexOutOfBounds,
}

impl InsertNodeError {
    /// The human-readable description of the error.
    pub fn message(&self) -> (s: &'static str)
        ensures
            *self matches InsertNodeError::ParentNotExists ==> s@ == "parent does not exists"@,
            *self matches InsertNodeError::RootAlreadyExists ==> s@ == "root already exists"@,
            *self matches InsertNodeError::ChildIndexOccupied ==> s@ == "child index already occupied"@,
            *self matches InsertNodeError::ChildIndexOutOfBounds ==> s@ == "child index is out of bounds"@,
    {
        match self {
            InsertNodeError::ParentNotExists => "parent does not exists",
            InsertNodeError::RootAlreadyExists => "root already exists",
            InsertNodeError::ChildIndexOccupied => "child index already occupied",
            InsertNodeError::ChildIndexOutOfBounds => "child index is out of bounds",
        }
    }
}

/// A node of an [`Octree`].
#[derive(Debug)]
pub struct OctreeNode<T> {
    pub id: NodeId,
    pub child_index: usize,
    pub parent_id: Option<NodeId>,
    pub children: [NodeId; 8],
    pub children_mask: u8,
    pub bounding_box: Aabb,
    pub data: T,
}

impl<T: Clone> Clone for OctreeNode<T> {
    /// A copy of the node; its data is cloned.
    fn clone(&self) -> (r: Self)
        ensures
            r.id == self.id,
            r.child_index == self.child_index,
            r.parent_id == self.parent_id,
            r.children == self.children,
            r.children_mask == self.children_mask,
            r.bounding_box == self.bounding_box,
            cloned(self.data, r.data),
    {
        OctreeNode {
            id: self.id,
            child_index: self.child_index,
            parent_id: self.parent_id,
            children: self.children,
            children_mask: self.children_mask,
            bounding_box: self.bounding_box,
            data: self.data.clone(),
        }
    }
}

/// `n` is a copy of `m`, its data cloned.
pub open spec fn node_copy_of<T: Clone>(n: OctreeNode<T>, m: OctreeNode<T>) -> bool {
    &&& n.id == m.id
    &&& n.child_index == m.child_index
    &&& n.parent_id == m.parent_id
    &&& n.children == m.children
    &&& n.children_mask == m.children_mask
    &&& n.bounding_box == m.bounding_box
    &&& cloned(m.data, n.data)
}

/// The changes of an octree since they were last taken: the nodes inserted, modified and
/// removed, and a copy of each node still there among those inserted or modified.
#[derive(Debug)]
pub struct OctreeChanges<T> {
    pub added: Vec<NodeId>,
    pub modified: Vec<NodeId>,
    pub removed: Vec<NodeId>,
    pub ids: Vec<NodeId>,
    pub nodes: Vec<OctreeNode<T>>,
}

/// An octree: a root, and for each node up to eight children, one per child index.
///
/// `added` records, in order, the handles of the nodes inserted since it was last cleared.
#[derive(Debug)]
pub struct Octree<T> {
    pub(crate) nodes: GenerationalSlab<OctreeNode<T>>,
    pub(crate) root_id: Option<NodeId>,
    pub(crate) added: Vec<NodeId>,
    pub(crate) modified: Vec<NodeId>,
    pub(crate) removed: Vec<NodeId>,
}

/// `n` is a freshly inserted node with these fields: no children yet, and every child
/// slot holds the zero handle.
pub open spec fn is_fresh_node<T>(
    n: OctreeNode<T>,
    id: NodeId,
    child_index: usize,
    parent_id: Option<NodeId>,
    bounding_box: Aabb,
    data: T,
) -> bool {
    &&& n.id == id
    &&& n.child_index == child_index
    &&& n.parent_id == parent_id
    &&& n.children_mask == 0
    &&& forall|i: int| 0 <= i < 8 ==> n.children[i] == (NodeId { index: 0, generation: 0 })
    &&& n.bounding_box == bounding_box
    &&& n.data == data
}

/// The error `Octree::insert` answers for a parent (and child index), if any.
pub open spec fn insert_error_for(
    has_root: bool,
    parent_live: bool,
    parent_mask: u8,
    parent_id_and_child_index: Option<(NodeId, usize)>,
) -> Option<InsertNodeError> {
    match parent_id_and_child_index {
        Some((_, child_index)) => if child_index >= 8 {
            Some(InsertNodeError::ChildIndexOutOfBounds)
        } else if !parent_live {
            Some(InsertNodeError::ParentNotExists)
        } else if bit_set(parent_mask, child_index as int) {
            Some(InsertNodeError::ChildIndexOccupied)
        } else {
            None
        },
        None => if has_root {
            Some(InsertNodeError::RootAlreadyExists)
        } else {
            None
        },
    }
}

impl<T> Octree<T> {
    /// Whether `id` designates a node of the octree.
    pub closed spec fn contains(&self, id: NodeId) -> bool {
        self.nodes.is_valid(id)
    }

    /// The node behind `id`.
    pub closed spec fn node(&self, id: NodeId) -> OctreeNode<T> {
        self.nodes.value(id)
    }

    /// The root's handle, if there is a root.
    pub closed spec fn root_id(&self) -> Option<NodeId> {
        self.root_id
    }

    /// The handles of the nodes inserted, in order, since the log was last cleared.
    pub closed spec fn added_log(&self) -> Seq<NodeId> {
        self.added@
    }

    /// The handles of the nodes modified since the log was last cleared.
    pub closed spec fn modified_log(&self) -> Seq<NodeId> {
        self.modified@
    }

    /// The handles of the nodes removed since the log was last cleared.
    pub closed spec fn removed_log(&self) -> Seq<NodeId> {
        self.removed@
    }

    /// The number of storage slots ever used, live or freed.
    pub closed spec fn slots_used(&self) -> usize {
        self.nodes.slots()
    }

    /// The generation that the next node stored in slot `i` gets.
    pub closed spec fn slot_generation(&self, i: usize) -> usize {
        self.nodes.generation(i)
    }

    /// The handle that the next inserted node gets.
    pub closed spec fn next_id(&self) -> NodeId {
        NodeId {
            index: self.nodes.next_slot(),
            generation: self.nodes.generation(self.nodes.next_slot()),
        }
    }

    /// The error `insert` answers for these arguments, if any.
    pub open spec fn insert_error(&self, parent_id_and_child_index: Option<
        (NodeId, usize),
    >) -> Option<InsertNodeError> {
        let parent = match parent_id_and_child_index {
            Some((p, _)) => p,
            None => NodeId { index: 0, generation: 0 },
        };
        insert_error_for(
            self.root_id() is Some,
            self.contains(parent),
            self.node(parent).children_mask,
            parent_id_and_child_index,
        )
    }

    /// The links between a node and its parent and children agree.
    pub open spec fn node_linked(&self, id: NodeId) -> bool {
        let n = self.node(id);
        &&& n.id == id
        &&& n.child_index < 8
        &&& match n.parent_id {
            Some(p) => {
                &&& self.contains(p)
                &&& bit_set(self.node(p).children_mask, n.child_index as int)
                &&& self.node(p).children[n.child_index as int] == id
            },
            None => self.root_id() == Some(id),
        }
        &&& forall|i: int|
            0 <= i < 8 && bit_set(n.children_mask, i) ==> {
                &&& self.contains(#[trigger] n.children[i])
                &&& self.node(n.children[i]).parent_id == Some(id)
                &&& self.node(n.children[i]).child_index == i
            }
    }

    /// The octree is a consistent tree of linked nodes.
    pub open spec fn wf(&self) -> bool {
        &&& self.storage_wf()
        &&& forall|id: NodeId| #[trigger] self.contains(id) ==> self.node_linked(id)
        &&& match self.root_id() {
            Some(r) => self.contains(r) && self.node(r).parent_id is None,
            None => forall|id: NodeId| !self.contains(id),
        }
    }

    /// The node storage is consistent.
    pub closed spec fn storage_wf(&self) -> bool {
        self.nodes.wf()
    }
}


impl<T> Octree<T> {
    /// An empty octree: no root, no node.
    pub fn new() -> (o: Self)
        ensures
            o.wf(),
            o.root_id() is None,
            forall|id: NodeId| !o.contains(id),
            o.added_log() == Seq::<NodeId>::empty(),
            o.modified_log() == Seq::<NodeId>::empty(),
            o.removed_log() == Seq::<NodeId>::empty(),
            o.next_id() == (NodeId { index: 0, generation: 0 }),
            o.slots_used() == 0,
            forall|i: usize| o.slot_generation(i) == 0,
    {
        Octree {
            nodes: GenerationalSlab::new(),
            root_id: None,
            added: Vec::new(),
            modified: Vec::new(),
            removed: Vec::new(),
        }
    }

    /// An octree made of a single root node.
    pub fn from_root(bounding_box: Aabb, data: T) -> (o: Self)
        ensures
            o.wf(),
            o.root_id() is Some,
            forall|id: NodeId| o.contains(id) <==> o.root_id() == Some(id),
            is_fresh_node(o.node(o.root_id()->Some_0), o.root_id()->Some_0, 0, None, bounding_box, data),
            o.added_log() == seq![o.root_id()->Some_0],
            o.root_id() == Some(NodeId { index: 0, generation: 0 }),
            o.modified_log() == Seq::<NodeId>::empty(),
            o.removed_log() == Seq::<NodeId>::empty(),
            o.next_id() == (NodeId { index: 1, generation: 0 }),
            o.slots_used() == 1,
            forall|i: usize| o.slot_generation(i) == 0,
    {
        let mut nodes = GenerationalSlab::new();
        let zero = NodeId::zero();
        let root = OctreeNode {
            id: zero,
            child_index: 0,
            parent_id: None,
            children: [zero; 8],
            children_mask: 0,
            bounding_box,
            data,
        };
        let root_id = nodes.insert(root);
        match nodes.get_mut(root_id) {
            Some(node) => {
                node.id = root_id;
            },
            None => {},
        }
        let mut added = Vec::new();
        added.push(root_id);
        let o = Octree { nodes, root_id: Some(root_id), added, modified: Vec::new(), removed: Vec::new() };
        proof {
            lemma_empty_mask();
            assert forall|id: NodeId| o.contains(id) <==> o.root_id() == Some(id) by {
                if o.contains(id) {
                    assert(o.nodes.entries().contains_key(id.index));
                }
            }
            assert(o.added_log() =~= seq![root_id]);
        }
        o
    }
}


impl<T> Octree<T> {
    /// Inserts a node, as the root when `parent_id_and_child_index` is `None`, else as the
    /// child of the given parent at the given child index.
    pub fn insert(
        &mut self,
        parent_id_and_child_index: Option<(NodeId, usize)>,
        bounding_box: Aabb,
        data: T,
    ) -> (r: Result<NodeId, InsertNodeError>)
        requires
            old(self).wf(),
        ensures
            final(self).wf(),
            final(self).modified_log() == old(self).modified_log(),
            final(self).removed_log() == old(self).removed_log(),
            forall|i: usize| final(self).slot_generation(i) == old(self).slot_generation(i),
            match old(self).insert_error(parent_id_and_child_index) {
                Some(e) => {
                    &&& r == Err::<NodeId, InsertNodeError>(e)
                    &&& forall|x: NodeId| final(self).contains(x) == old(self).contains(x)
                    &&& forall|x: NodeId| #[trigger]
                        old(self).contains(x) ==> final(self).node(x) == old(self).node(x)
                    &&& final(self).root_id() == old(self).root_id()
                    &&& final(self).added_log() == old(self).added_log()
                    &&& final(self).next_id() == old(self).next_id()
                    &&& final(self).slots_used() == old(self).slots_used()
                },
                None => {
                    let id = old(self).next_id();
                    &&& r == Ok::<NodeId, InsertNodeError>(id)
                    &&& id.index <= old(self).slots_used()
                    &&& (id.index == old(self).slots_used() ==> final(self).slots_used() == id.index + 1
                        && final(self).next_id() == NodeId {
                        index: (id.index + 1) as usize,
                        generation: old(self).slot_generation((id.index + 1) as usize),
                    })
                    &&& (id.index < old(self).slots_used() ==> final(self).slots_used() == old(self).slots_used())
                    &&& !old(self).contains(id)
                    &&& forall|x: NodeId|
                        final(self).contains(x) == (old(self).contains(x) || x == id)
                    &&& final(self).added_log() == old(self).added_log().push(id)
                    &&& match parent_id_and_child_index {
                        Some((p, ci)) => {
                            &&& is_fresh_node(final(self).node(id), id, ci, Some(p), bounding_box, data)
                            &&& final(self).root_id() == old(self).root_id()
                            &&& final(self).node(p).children@ == old(self).node(p).children@.update(ci as int, id)
                            &&& bit_set(final(self).node(p).children_mask, ci as int)
                            &&& forall|i: int| 0 <= i < 8 && i != ci ==> bit_set(final(self).node(p).children_mask, i)
                                == bit_set(old(self).node(p).children_mask, i)
                            &&& final(self).node(p).id == old(self).node(p).id
                            &&& final(self).node(p).child_index == old(self).node(p).child_index
                            &&& final(self).node(p).parent_id == old(self).node(p).parent_id
                            &&& final(self).node(p).bounding_box == old(self).node(p).bounding_box
                            &&& final(self).node(p).data == old(self).node(p).data
                            &&& forall|x: NodeId| #[trigger] old(self).contains(x) && x != p
                                ==> final(self).node(x) == old(self).node(x)
                        },
                        None => {
                            &&& is_fresh_node(final(self).node(id), id, 0, None, bounding_box, data)
                            &&& final(self).root_id() == Some(id)
                            &&& forall|x: NodeId| #[trigger]
                                old(self).contains(x) ==> final(self).node(x) == old(self).node(x)
                        },
                    }
                },
            },
    {
        if let Some((parent_id, child_index)) = parent_id_and_child_index {
            if child_index >= 8 {
                return Err(InsertNodeError::ChildIndexOutOfBounds);
            }
            match self.nodes.get(parent_id) {
                None => {
                    return Err(InsertNodeError::ParentNotExists);
                },
                Some(parent) => {
                    if has_bit(parent.children_mask, child_index) {
                        return Err(InsertNodeError::ChildIndexOccupied);
                    }
                },
            }
        } else {
            if self.root_id.is_some() {
                return Err(InsertNodeError::RootAlreadyExists);
            }
        }
        let ghost old_self = *self;
        let zero = NodeId::zero();
        let (parent_id, child_index) = match parent_id_and_child_index {
            Some((p, ci)) => (Some(p), ci),
            None => (None, 0),
        };
        let id = self.nodes.insert(
            OctreeNode {
                id: zero,
                parent_id,
                child_index,
                children: [zero; 8],
                children_mask: 0,
                bounding_box,
                data,
            },
        );
        match self.nodes.get_mut(id) {
            Some(node) => {
                node.id = id;
            },
            None => {},
        }
        if let Some((parent_id, child_index)) = parent_id_and_child_index {
            match self.nodes.get_mut(parent_id) {
                Some(parent) => {
                    parent.children[child_index] = id;
                    parent.children_mask = with_bit(parent.children_mask, child_index);
                },
                None => {},
            }
        } else {
            self.root_id = Some(id);
        }
        self.added.push(id);
        proof {
            lemma_empty_mask();
            let fin = *self;
            assert forall|x: NodeId| #[trigger] fin.contains(x) implies fin.node_linked(x) by {
                if x == id {
                    match parent_id_and_child_index {
                        Some((p, ci)) => {
                            assert(fin.contains(p));
                        },
                        None => {},
                    }
                } else {
                    assert(old_self.contains(x));
                    assert(old_self.node_linked(x));
                    let n = old_self.node(x);
                    match parent_id_and_child_index {
                        Some((p, ci)) => {
                            let nn = fin.node(x);
                            match nn.parent_id {
                                Some(q) => {
                                    assert(old_self.contains(q));
                                    if q == p {
                                        assert(n.child_index != ci);
                                    }
                                },
                                None => {},
                            }
                            assert forall|i: int|
                                0 <= i < 8 && bit_set(nn.children_mask, i) implies {
                                &&& fin.contains(#[trigger] nn.children[i])
                                &&& fin.node(nn.children[i]).parent_id == Some(x)
                                &&& fin.node(nn.children[i]).child_index == i
                            } by {
                                if x == p && i == ci {
                                    assert(nn.children[i] == id);
                                } else {
                                    assert(bit_set(n.children_mask, i));
                                    assert(nn.children[i] == n.children[i]);
                                    assert(old_self.contains(n.children[i]));
                                }
                            }
                        },
                        None => {
                            assert(false);
                        },
                    }
                }
            }
            match fin.root_id() {
                Some(r) => {
                    if r != id {
                        assert(old_self.contains(r));
                    }
                },
                None => {},
            }
        }
        Ok(id)
    }
}


impl<T> Octree<T> {
    /// The node behind `node_id`, if it is a node of the octree.
    pub fn get(&self, node_id: NodeId) -> (r: Option<&OctreeNode<T>>)
        requires
            self.wf(),
        ensures
            r == (if self.contains(node_id) {
                Some(&self.node(node_id))
            } else {
                None
            }),
    {
        self.nodes.get(node_id)
    }

    /// The root node, if there is one.
    pub fn root(&self) -> (r: Option<&OctreeNode<T>>)
        requires
            self.wf(),
        ensures
            r == (match self.root_id() {
                Some(root_id) => Some(&self.node(root_id)),
                None => None,
            }),
    {
        match self.root_id {
            Some(root_id) => self.get(root_id),
            None => None,
        }
    }
}

/// The index of the lowest set bit of `mask`, if any.
pub fn first_one(mask: u8) -> (r: Option<usize>)
    ensures
        match r {
            Some(i) => i < 8 && bit_set(mask, i as int) && forall|j: int|
                0 <= j < i ==> !bit_set(mask, j),
            None => forall|j: int| 0 <= j < 8 ==> !bit_set(mask, j),
        },
{
    let inverted_mask: u8 = !mask;
    let mut i: usize = 0;
    while i < 8
        invariant
            i <= 8,
            inverted_mask == !mask,
            forall|j: int| 0 <= j < i ==> !bit_set(mask, j),
        decreases 8 - i,
    {
        if !has_bit(inverted_mask, i) {
            proof {
                lemma_inverted_bit(mask, i);
            }
            return Some(i);
        }
        proof {
            lemma_inverted_bit(mask, i);
        }
        i = i + 1;
    }
    None
}

/// Whether `ids` lists `id`.
fn lists_id(ids: &Vec<NodeId>, id: NodeId) -> (b: bool)
    ensures
        b == ids@.contains(id),
{
    let mut i: usize = 0;
    while i < ids.len()
        invariant
            i <= ids@.len(),
            forall|j: int| 0 <= j < i ==> ids@[j] != id,
        decreases ids@.len() - i,
    {
        if ids[i] == id {
            return true;
        }
        i = i + 1;
    }
    false
}

impl<T> Octree<T> {
    /// An octree with the same nodes and root is as well-formed, whatever its logs.
    proof fn lemma_same_tree(&self, other: Self)
        requires
            self.wf(),
            other.nodes == self.nodes,
            other.root_id == self.root_id,
        ensures
            other.wf(),
            forall|x: NodeId| other.contains(x) == self.contains(x),
            forall|x: NodeId| #[trigger] self.contains(x) ==> other.node(x) == self.node(x),
            other.root_id() == self.root_id(),
            other.next_id() == self.next_id(),
    {
        assert(other.storage_wf() == self.storage_wf());
        assert forall|x: NodeId| #[trigger] other.contains(x) implies other.node_linked(x) by {
            assert(self.contains(x));
            assert(self.node_linked(x));
        }
        match self.root_id() {
            Some(r) => {
                assert(other.contains(r));
            },
            None => {
                assert forall|x: NodeId| !other.contains(x) by {
                    assert(!self.contains(x));
                }
            },
        }
    }
}

impl<T: Clone> Octree<T> {
    /// Appends to `ids` each node of `from` in the octree that `ids` does not list yet,
    /// and a copy of it to `nodes`.
    fn collect_copies(&self, from: &Vec<NodeId>, ids: &mut Vec<NodeId>, nodes: &mut Vec<OctreeNode<T>>)
        requires
            self.wf(),
            old(ids)@.no_duplicates(),
            old(nodes)@.len() == old(ids)@.len(),
            forall|k: int| 0 <= k < old(ids)@.len() ==> node_copy_of(#[trigger] old(nodes)@[k], self.node(old(ids)@[k])),
        ensures
            final(ids)@.no_duplicates(),
            final(nodes)@.len() == final(ids)@.len(),
            forall|k: int| 0 <= k < final(ids)@.len() ==> node_copy_of(#[trigger] final(nodes)@[k], self.node(final(ids)@[k])),
            forall|x: NodeId| final(ids)@.contains(x) <==> old(ids)@.contains(x) || (self.contains(x) && from@.contains(x)),
    {
        let mut i: usize = 0;
        while i < from.len()
            invariant
                i <= from@.len(),
                self.wf(),
                ids@.no_duplicates(),
                nodes@.len() == ids@.len(),
                forall|k: int| 0 <= k < ids@.len() ==> node_copy_of(#[trigger] nodes@[k], self.node(ids@[k])),
                forall|x: NodeId| #![trigger ids@.contains(x)] ids@.contains(x) <==> old(ids)@.contains(x) || (self.contains(x) && from@.take(i as int).contains(x)),
            decreases from@.len() - i,
        {
            let id = from[i];
            let ghost before = ids@;
            let ghost mut pushed = false;
            assert(forall|x: NodeId| #![trigger before.contains(x)] before.contains(x) <==> old(ids)@.contains(x) || (self.contains(x) && from@.take(i as int).contains(x)));
            if !lists_id(ids, id) {
                match self.get(id) {
                    Some(node) => {
                        ids.push(id);
                        nodes.push(node.clone());
                        proof {
                            pushed = true;
                            assert forall|a: int, b: int| 0 <= a < b < ids@.len() implies ids@[a] != ids@[b] by {
                                if b == before.len() {
                                    assert(before.contains(before[a]));
                                }
                            }
                        }
                    },
                    None => {},
                }
            }
            proof {
                assert(pushed ==> ids@ == before.push(id) && self.contains(id) && !before.contains(id));
                assert(!pushed ==> ids@ == before && (before.contains(id) || !self.contains(id)));
                let t0 = from@.take(i as int);
                let t1 = from@.take(i + 1);
                assert(t1 == t0.push(id));
                assert forall|x: NodeId| #![trigger ids@.contains(x)] ids@.contains(x) <==> old(ids)@.contains(x) || (self.contains(x) && t1.contains(x)) by {
                    assert(t1.contains(x) <==> t0.contains(x) || x == id) by {
                        if t1.contains(x) {
                            let a = choose|a: int| 0 <= a < t1.len() && t1[a] == x;
                            if a < t0.len() {
                                assert(t0[a] == x);
                            }
                        }
                        if t0.contains(x) {
                            let a = choose|a: int| 0 <= a < t0.len() && t0[a] == x;
                            assert(t1[a] == x);
                        }
                        if x == id {
                            assert(t1[i as int] == x);
                        }
                    }
                    if pushed {
                        assert(ids@.contains(x) <==> before.contains(x) || x == id) by {
                            if ids@.contains(x) {
                                let a = choose|a: int| 0 <= a < ids@.len() && ids@[a] == x;
                                if a < before.len() {
                                    assert(before[a] == x);
                                }
                            }
                            if before.contains(x) {
                                let a = choose|a: int| 0 <= a < before.len() && before[a] == x;
                                assert(ids@[a] == x);
                            }
                            if x == id {
                                assert(ids@[before.len() as int] == x);
                            }
                        }
                    }
                    assert(before.contains(x) <==> old(ids)@.contains(x) || (self.contains(x) && t0.contains(x)));
                }
            }
            i = i + 1;
        }
        proof {
            assert(from@.take(from@.len() as int) == from@);
        }
    }

    /// Takes the change logs, leaving them empty, with a copy of each node still in the
    /// octree that was inserted or modified (each once, those inserted first).
    pub fn take_changes(&mut self) -> (r: OctreeChanges<T>)
        requires
            old(self).wf(),
        ensures
            final(self).wf(),
            forall|x: NodeId| final(self).contains(x) == old(self).contains(x),
            forall|x: NodeId| #[trigger] old(self).contains(x) ==> final(self).node(x) == old(self).node(x),
            final(self).root_id() == old(self).root_id(),
            final(self).next_id() == old(self).next_id(),
            final(self).added_log().len() == 0,
            final(self).modified_log().len() == 0,
            final(self).removed_log().len() == 0,
            r.added@ == old(self).added_log(),
            r.modified@ == old(self).modified_log(),
            r.removed@ == old(self).removed_log(),
            r.ids@.no_duplicates(),
            forall|x: NodeId| r.ids@.contains(x) <==> old(self).contains(x) && (old(self).added_log().contains(x)
                || old(self).modified_log().contains(x)),
            r.nodes@.len() == r.ids@.len(),
            forall|k: int| 0 <= k < r.ids@.len() ==> node_copy_of(#[trigger] r.nodes@[k], old(self).node(r.ids@[k])),
    {
        let mut added: Vec<NodeId> = Vec::new();
        let mut modified: Vec<NodeId> = Vec::new();
        let mut removed: Vec<NodeId> = Vec::new();
        std::mem::swap(&mut added, &mut self.added);
        std::mem::swap(&mut modified, &mut self.modified);
        std::mem::swap(&mut removed, &mut self.removed);
        proof {
            old(self).lemma_same_tree(*self);
        }
        let mut ids: Vec<NodeId> = Vec::new();
        let mut nodes: Vec<OctreeNode<T>> = Vec::new();
        self.collect_copies(&added, &mut ids, &mut nodes);
        self.collect_copies(&modified, &mut ids, &mut nodes);
        proof {
            assert forall|x: NodeId| ids@.contains(x) <==> old(self).contains(x) && (old(self).added_log().contains(x)
                || old(self).modified_log().contains(x)) by {
                assert(added@ == old(self).added_log());
                assert(modified@ == old(self).modified_log());
            }
        }
        OctreeChanges { added, modified, removed, ids, nodes }
    }
}

} // verus!
