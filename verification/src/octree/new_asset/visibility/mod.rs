//! Which hierarchy nodes of a lazily loaded octree a camera sees, and which of them still
//! need their children loaded.
pub mod budget;
pub mod components;

use crate::bits::{bit_set, lemma_set_bits_members, set_bits, with_bit};
use crate::octree::new_asset::asset::NewOctree;
use crate::octree::new_asset::hierarchy::{HierarchyNodeData, HierarchyNodeStatus, HierarchyOctreeNode};
use crate::octree::new_asset::node::NodeData;
use crate::octree::storage::NodeId;
use crate::octree::visibility::iter_one_bits;
use std::collections::VecDeque;
use vstd::prelude::*;

verus! {

/// A visible hierarchy node, with the positions of its visible children.
pub struct VisibleHierarchyNode<H> {
    /// The node's own position in the list of visible nodes.
    pub index: usize,
    /// `children[i]` is the position of the visible child at child index `i`, when bit `i`
    /// of `children_mask` is set.
    pub children: [usize; 8],
    pub children_mask: u8,
    pub node: HierarchyOctreeNode<H>,
}

/// A hierarchy node waiting to be tested for visibility.
#[derive(Clone, Copy, Debug)]
pub struct PendingHierarchyNode {
    /// The position of the parent in the list of visible nodes (none for the start node).
    pub parent_index: Option<usize>,
    pub id: NodeId,
    /// An ancestor lies completely inside the frustum, so this node does too.
    pub completely_visible: bool,
}

/// Every node below the root sits at a child index below 8.
pub open spec fn children_indexed<H: HierarchyNodeData, T: NodeData>(o: NewOctree<H, T>) -> bool {
    forall|id: NodeId| #[trigger] o.contains(id) && o.node_at(id).hierarchy.parent_id is Some
        ==> o.node_at(id).hierarchy.child_index < 8
}

/// `n` is a copy of `m`, its data cloned.
pub open spec fn copy_of<H: Clone>(n: HierarchyOctreeNode<H>, m: HierarchyOctreeNode<H>) -> bool {
    &&& n.id == m.id
    &&& n.status == m.status
    &&& n.child_index == m.child_index
    &&& n.parent_id == m.parent_id
    &&& n.children == m.children
    &&& n.children_mask == m.children_mask
    &&& n.bounding_box == m.bounding_box
    &&& n.depth == m.depth
    &&& cloned(m.data, n.data)
}

/// `after` is `e` with the visible child at child index `ci` found at position `k`.
pub open spec fn links_child<H>(e: VisibleHierarchyNode<H>, after: VisibleHierarchyNode<H>, ci: int, k: int) -> bool {
    &&& after.index == e.index
    &&& after.children@ == e.children@.update(ci, k as usize)
    &&& after.children_mask == (e.children_mask | (1u8 << (ci as u8))) as u8
    &&& after.node == e.node
}

/// The pending entries queued for the children of a loaded node accepted at position `k`.
pub open spec fn pending_children<H>(n: HierarchyOctreeNode<H>, completely_visible: bool, k: int) -> Seq<PendingHierarchyNode> {
    set_bits(n.children_mask).map_values(
        |i: usize| PendingHierarchyNode { parent_index: Some(k as usize), id: n.children[i as int], completely_visible },
    )
}

/// The breadth-first walk over the hierarchy of a lazily loaded octree.
///
/// The caller pops each pending node, tests it against the camera (screen size and
/// frustum, unless `completely_visible`), and accepts the nodes it finds visible. A loaded
/// node becomes visible and queues its children; a proxy node is listed as a node whose
/// children are to be loaded; a node whose children are being loaded is passed over.
pub struct HierarchyVisibilityTraversal<'a, H, T> {
    octree: &'a NewOctree<H, T>,
    stack: VecDeque<PendingHierarchyNode>,
    visible_nodes: Vec<VisibleHierarchyNode<H>>,
    nodes_to_load: Vec<NodeId>,
}

impl<'a, H: HierarchyNodeData, T: NodeData> HierarchyVisibilityTraversal<'a, H, T> {
    /// The octree being walked.
    pub closed spec fn tree(&self) -> NewOctree<H, T> {
        *self.octree
    }

    /// The nodes waiting to be tested, in order.
    pub closed spec fn pending(&self) -> Seq<PendingHierarchyNode> {
        self.stack@
    }

    /// The visible nodes found so far, in order.
    pub closed spec fn visible(&self) -> Seq<VisibleHierarchyNode<H>> {
        self.visible_nodes@
    }

    /// The visible proxy nodes found so far, in order.
    pub closed spec fn to_load(&self) -> Seq<NodeId> {
        self.nodes_to_load@
    }

    /// A pending node is a node of the octree; when it has a parent position, that
    /// position is in range and the node has a parent.
    pub open spec fn pending_ok(&self, item: PendingHierarchyNode) -> bool {
        &&& self.tree().contains(item.id)
        &&& match item.parent_index {
            Some(q) => q < self.visible().len() && self.tree().node_at(item.id).hierarchy.parent_id is Some,
            None => true,
        }
    }

    /// The walk's state is consistent.
    pub open spec fn wf(&self) -> bool {
        &&& self.tree().wf()
        &&& children_indexed(self.tree())
        &&& forall|i: int| 0 <= i < self.pending().len() ==> self.pending_ok(#[trigger] self.pending()[i])
        &&& forall|k: int| 0 <= k < self.visible().len() ==> (#[trigger] self.visible()[k]).index == k
    }

    /// Starts the walk at the hierarchy root, if the octree has one.
    pub fn new(octree: &'a NewOctree<H, T>) -> (t: Self)
        requires
            octree.wf(),
            children_indexed(*octree),
        ensures
            t.wf(),
            t.tree() == *octree,
            t.visible() == Seq::<VisibleHierarchyNode<H>>::empty(),
            t.to_load() == Seq::<NodeId>::empty(),
            t.pending() == (match octree.root_id() {
                Some(r) => seq![PendingHierarchyNode { parent_index: None, id: r, completely_visible: false }],
                None => Seq::<PendingHierarchyNode>::empty(),
            }),
    {
        let mut stack: VecDeque<PendingHierarchyNode> = VecDeque::new();
        match octree.hierarchy_root() {
            Some(root) => {
                stack.push_back(PendingHierarchyNode { parent_index: None, id: root.id, completely_visible: false });
            },
            None => {},
        }
        let t = HierarchyVisibilityTraversal { octree, stack, visible_nodes: Vec::new(), nodes_to_load: Vec::new() };
        proof {
            if octree.root_id() is Some {
                assert(t.pending()[0].id == octree.root_id()->Some_0);
            }
        }
        t
    }

    /// Takes the next pending node.
    pub fn pop(&mut self) -> (r: Option<PendingHierarchyNode>)
        requires
            old(self).wf(),
        ensures
            final(self).wf(),
            final(self).tree() == old(self).tree(),
            final(self).visible() == old(self).visible(),
            final(self).to_load() == old(self).to_load(),
            match r {
                Some(item) => {
                    &&& old(self).pending().len() > 0
                    &&& item == old(self).pending()[0]
                    &&& final(self).pending() == old(self).pending().drop_first()
                    &&& final(self).pending_ok(item)
                },
                None => old(self).pending().len() == 0 && final(self).pending() == old(self).pending(),
            },
    {
        let r = self.stack.pop_front();
        proof {
            if r is Some {
                assert(old(self).pending_ok(old(self).pending()[0]));
                assert forall|i: int| 0 <= i < self.pending().len() implies self.pending_ok(#[trigger] self.pending()[i]) by {
                    assert(self.pending()[i] == old(self).pending()[i + 1]);
                }
            }
        }
        r
    }

    /// Whether no node is left to test.
    pub fn is_finished(&self) -> (b: bool)
        ensures
            b == (self.pending().len() == 0),
    {
        self.stack.len() == 0
    }

    /// The visible nodes and the visible proxy nodes, in the order found.
    pub fn into_results(self) -> (r: (Vec<VisibleHierarchyNode<H>>, Vec<NodeId>))
        ensures
            r.0@ == self.visible(),
            r.1@ == self.to_load(),
    {
        (self.visible_nodes, self.nodes_to_load)
    }
}

impl<'a, H: HierarchyNodeData, T: NodeData> HierarchyVisibilityTraversal<'a, H, T> {
    /// Takes `item`, found visible (completely inside the frustum when
    /// `completely_visible`), into account: a loaded node is added to the visible nodes,
    /// linked from its visible parent, and its children are queued; a proxy node is listed
    /// for loading; a node being loaded changes nothing.
    pub fn accept(&mut self, item: PendingHierarchyNode, completely_visible: bool)
        requires
            old(self).wf(),
            old(self).pending_ok(item),
        ensures
            final(self).wf(),
            final(self).tree() == old(self).tree(),
            ({
                let k = old(self).visible().len() as int;
                let n = old(self).tree().node_at(item.id).hierarchy;
                match n.status {
                    HierarchyNodeStatus::Loaded => {
                        &&& final(self).to_load() == old(self).to_load()
                        &&& final(self).pending() == old(self).pending() + pending_children(n, completely_visible, k)
                        &&& final(self).visible().len() == k + 1
                        &&& final(self).visible()[k].index == k
                        &&& forall|c: int| 0 <= c < 8 ==> #[trigger] final(self).visible()[k].children[c] == 0
                        &&& final(self).visible()[k].children_mask == 0
                        &&& copy_of(final(self).visible()[k].node, n)
                        &&& forall|j: int| 0 <= j < k && item.parent_index != Some(j as usize)
                            ==> #[trigger] final(self).visible()[j] == old(self).visible()[j]
                        &&& (item.parent_index matches Some(q) ==> links_child(
                            old(self).visible()[q as int],
                            final(self).visible()[q as int],
                            n.child_index as int,
                            k,
                        ))
                    },
                    HierarchyNodeStatus::Proxy => {
                        &&& final(self).to_load() == old(self).to_load().push(item.id)
                        &&& final(self).pending() == old(self).pending()
                        &&& final(self).visible() == old(self).visible()
                    },
                    HierarchyNodeStatus::Loading => {
                        &&& final(self).to_load() == old(self).to_load()
                        &&& final(self).pending() == old(self).pending()
                        &&& final(self).visible() == old(self).visible()
                    },
                }
            }),
    {
        let ghost old_self = *self;
        let ghost k = self.visible_nodes@.len() as int;
        let node = match self.octree.hierarchy_node(item.id) {
            Some(node) => node,
            None => {
                return;
            },
        };
        proof {
            assert(self.tree().node_linked(item.id));
        }
        match node.status {
            HierarchyNodeStatus::Loaded => {
                let current_index = self.visible_nodes.len();
                let ones = iter_one_bits(node.children_mask);
                let ghost items = pending_children(*node, completely_visible, k);
                let mut j: usize = 0;
                while j < ones.len()
                    invariant
                        self.octree == old_self.octree,
                        self.visible_nodes == old_self.visible_nodes,
                        self.nodes_to_load == old_self.nodes_to_load,
                        self.tree().wf(),
                        *node == self.tree().node_at(item.id).hierarchy,
                        self.tree().contains(item.id),
                        self.tree().node_linked(item.id),
                        ones@ == set_bits(node.children_mask),
                        items == pending_children(*node, completely_visible, k),
                        current_index == k,
                        j <= ones@.len(),
                        self.stack@ == old_self.stack@ + items.take(j as int),
                    decreases ones@.len() - j,
                {
                    let i = ones[j];
                    proof {
                        lemma_set_bits_members(node.children_mask, j as int);
                    }
                    let child_id = node.children[i];
                    match self.octree.hierarchy_node(child_id) {
                        Some(child) => {
                            self.stack.push_back(
                                PendingHierarchyNode { parent_index: Some(current_index), id: child.id, completely_visible },
                            );
                        },
                        None => {},
                    }
                    proof {
                        assert(items.take(j + 1) == items.take(j as int).push(items[j as int]));
                    }
                    j = j + 1;
                }
                proof {
                    assert(items.take(ones@.len() as int) == items);
                }
                let child_index = node.child_index;
                self.visible_nodes.push(
                    VisibleHierarchyNode { index: current_index, children: [0usize; 8], children_mask: 0, node: node.clone() },
                );
                match item.parent_index {
                    Some(parent_index) => {
                        let parent = &mut self.visible_nodes[parent_index];
                        parent.children[child_index] = current_index;
                        parent.children_mask = with_bit(parent.children_mask, child_index);
                    },
                    None => {},
                }
                proof {
                    let n = old_self.tree().node_at(item.id).hierarchy;
                    assert(self.pending() =~= old_self.pending() + pending_children(n, completely_visible, k));
                    assert forall|i: int| 0 <= i < self.pending().len() implies self.pending_ok(#[trigger] self.pending()[i]) by {
                        if i < old_self.pending().len() {
                            assert(old_self.pending_ok(old_self.pending()[i]));
                        } else {
                            let jj = i - old_self.pending().len();
                            lemma_set_bits_members(n.children_mask, jj);
                            let c = set_bits(n.children_mask)[jj];
                            assert(self.pending()[i] == items[jj]);
                            assert(bit_set(n.children_mask, c as int));
                            assert(self.tree().contains(n.children[c as int]));
                            assert(self.tree().node_at(n.children[c as int]).hierarchy.parent_id == Some(item.id));
                        }
                    }
                    assert forall|kk: int| 0 <= kk < self.visible().len() implies (#[trigger] self.visible()[kk]).index == kk by {
                        if kk < k {
                            assert(old_self.visible()[kk].index == kk);
                        }
                    }
                }
            },
            HierarchyNodeStatus::Proxy => {
                self.nodes_to_load.push(node.id);
                proof {
                    assert forall|i: int| 0 <= i < self.pending().len() implies self.pending_ok(#[trigger] self.pending()[i]) by {
                        assert(old_self.pending_ok(old_self.pending()[i]));
                    }
                }
            },
            HierarchyNodeStatus::Loading => {},
        }
    }
}

} // verus!
