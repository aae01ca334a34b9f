//! Which nodes of an octree a camera sees, as a tree of visible nodes.
pub mod extract;
pub mod prepare;
use crate::bits::{
    bit_set, has_bit, lemma_empty_mask, lemma_or_bit, lemma_set_bits_below_members, lemma_set_bits_members, set_bits,
    set_bits_below, with_bit,
};
use crate::octree::asset::{Octree, OctreeNode};
use crate::octree::new_asset::visibility::components::clear_entries;
use crate::octree::storage::NodeId;
use crate::slab_specs::{
    entity_slab_entries, entity_slab_insert, entity_slab_len, entity_slab_new, entity_slab_try_remove,
};
use slab::Slab;
use crate::platform_specs::{index_map, index_map_get, index_map_insert, index_map_new, index_map_remove};
use bevy_platform::collections::HashMap;
use std::collections::VecDeque;
use std::marker::PhantomData;
use vstd::prelude::*;

verus! {

/// The indices of the set bits of `mask`, in increasing order.
pub fn iter_one_bits(mask: u8) -> (r: Vec<usize>)
    ensures
        r@ == set_bits(mask),
{
    let mut r: Vec<usize> = Vec::new();
    let mut i: usize = 0;
    while i < 8
        invariant
            i <= 8,
            r@ == set_bits_below(mask, i as nat),
        decreases 8 - i,
    {
        if has_bit(mask, i) {
            r.push(i);
        }
        i = i + 1;
    }
    r
}



/// A visible node, with which of its children are visible too.
#[derive(Clone, Debug)]
pub struct VisibleOctreeNode {
    pub id: NodeId,
    pub children: [NodeId; 8],
    /// Bit `i` is set when the child at child index `i` is visible.
    pub children_mask: u8,
    /// The position of the first visible child in the list of visible nodes (0: none).
    pub first_child_index: usize,
}

impl VisibleOctreeNode {
    /// The entry for a node, before any of its children is found visible.
    pub fn from_node<T>(value: &OctreeNode<T>) -> (r: VisibleOctreeNode)
        ensures
            r.id == value.id,
            r.children == value.children,
            r.children_mask == 0,
            r.first_child_index == 0,
    {
        VisibleOctreeNode {
            id: value.id,
            children: value.children,
            children_mask: 0,
            first_child_index: 0,
        }
    }
}

/// A node waiting to be tested for visibility.
#[derive(Clone, Copy, Debug)]
pub struct PendingOctreeNode {
    pub id: NodeId,
    /// An ancestor lies completely inside the frustum, so this node does too.
    pub completely_visible: bool,
    /// The position of the parent in the list of visible nodes.
    pub parent_index: Option<usize>,
}

/// The breadth-first walk that computes the visible nodes of an octree.
///
/// The caller pops each pending node, tests it against the camera (screen size and
/// frustum, unless `completely_visible`), and accepts the nodes it finds visible; the walk
/// then queues their children and links each visible node to its visible parent.
pub struct VisibleNodesTraversal<'a, T> {
    octree: &'a Octree<T>,
    queue: VecDeque<PendingOctreeNode>,
    visible_nodes: Vec<VisibleOctreeNode>,
    parents: Ghost<Seq<Option<usize>>>,
}

impl<'a, T> VisibleNodesTraversal<'a, T> {
    /// The octree being walked.
    pub closed spec fn tree(&self) -> Octree<T> {
        *self.octree
    }

    /// The nodes waiting to be tested, in order.
    pub closed spec fn pending(&self) -> Seq<PendingOctreeNode> {
        self.queue@
    }

    /// The visible nodes found so far, in order.
    pub closed spec fn visible(&self) -> Seq<VisibleOctreeNode> {
        self.visible_nodes@
    }

    /// The position in `visible()` of each visible node's parent.
    pub closed spec fn parent_positions(&self) -> Seq<Option<usize>> {
        self.parents@
    }

    /// A pending node is a node of the octree whose parent position names its parent.
    pub open spec fn pending_ok(&self, item: PendingOctreeNode) -> bool {
        let n = self.tree().node(item.id);
        &&& self.tree().contains(item.id)
        &&& match item.parent_index {
            Some(q) => q < self.visible().len() && n.parent_id == Some(self.visible()[q as int].id),
            None => n.parent_id is None,
        }
    }

    /// Visible node `k` with parent position `q` is a child of node `q`, which records it.
    pub open spec fn visible_linked(&self, k: int) -> bool {
        let e = self.visible()[k];
        let n = self.tree().node(e.id);
        &&& self.tree().contains(e.id)
        &&& e.children == n.children
        &&& match self.parent_positions()[k] {
            Some(q) => {
                &&& q < k
                &&& n.parent_id == Some(self.visible()[q as int].id)
                &&& bit_set(self.visible()[q as int].children_mask, n.child_index as int)
                &&& 0 < self.visible()[q as int].first_child_index <= k
            },
            None => n.parent_id is None,
        }
    }

    /// The children mask and first child position of visible node `q` describe exactly the
    /// visible nodes whose parent position is `q`.
    pub open spec fn children_recorded(&self, q: int) -> bool {
        let e = self.visible()[q];
        &&& forall|c: int| 0 <= c < 8 && bit_set(e.children_mask, c) ==> exists|k: int|
            0 <= k < self.visible().len() && self.parent_positions()[k] == Some(q as usize)
                && self.tree().node(#[trigger] self.visible()[k].id).child_index == c
        &&& e.first_child_index != 0 ==> {
            &&& e.first_child_index < self.visible().len()
            &&& self.parent_positions()[e.first_child_index as int] == Some(q as usize)
            &&& forall|k: int| 0 <= k < e.first_child_index ==> self.parent_positions()[k] != Some(q as usize)
        }
        &&& e.first_child_index == 0 ==> forall|k: int| 0 <= k < self.visible().len() ==> self.parent_positions()[k] != Some(q as usize)
    }

    /// The walk's state is consistent.
    pub open spec fn wf(&self) -> bool {
        &&& self.tree().wf()
        &&& self.parent_positions().len() == self.visible().len()
        &&& forall|i: int| 0 <= i < self.pending().len() ==> self.pending_ok(#[trigger] self.pending()[i])
        &&& forall|k: int| 0 <= k < self.visible().len() ==> #[trigger] self.visible_linked(k)
        &&& forall|q: int| 0 <= q < self.visible().len() ==> #[trigger] self.children_recorded(q)
        &&& self.in_walk_order()
    }

    /// The child index of a node of the octree.
    pub open spec fn child_index_of(&self, id: NodeId) -> int {
        self.tree().node(id).child_index as int
    }

    /// Visible node `j` comes before visible node `k` in the walk's order.
    pub open spec fn visible_before(&self, j: int, k: int) -> bool {
        walk_before(
            self.parent_positions()[j],
            self.child_index_of(self.visible()[j].id),
            self.parent_positions()[k],
            self.child_index_of(self.visible()[k].id),
        )
    }

    /// Pending node `i` comes before pending node `j` in the walk's order.
    pub open spec fn pending_before(&self, i: int, j: int) -> bool {
        walk_before(
            self.pending()[i].parent_index,
            self.child_index_of(self.pending()[i].id),
            self.pending()[j].parent_index,
            self.child_index_of(self.pending()[j].id),
        )
    }

    /// `item` comes after every visible node in the walk's order.
    pub open spec fn comes_after_visible(&self, item: PendingOctreeNode) -> bool {
        forall|k: int|
            0 <= k < self.visible().len() ==> walk_before(
                self.parent_positions()[k],
                self.child_index_of(#[trigger] self.visible()[k].id),
                item.parent_index,
                self.child_index_of(item.id),
            )
    }

    /// `item` is the next node of the walk: after every visible node and before every
    /// pending one, as `pop` hands it out.
    pub open spec fn comes_next(&self, item: PendingOctreeNode) -> bool {
        &&& self.comes_after_visible(item)
        &&& forall|i: int|
            0 <= i < self.pending().len() ==> walk_before(
                item.parent_index,
                self.child_index_of(item.id),
                #[trigger] self.pending()[i].parent_index,
                self.child_index_of(self.pending()[i].id),
            )
    }

    /// The visible nodes, then the pending ones, are in the walk's order: by the position
    /// of their parent, then by child index.
    pub open spec fn in_walk_order(&self) -> bool {
        &&& forall|j: int, k: int| 0 <= j < k < self.visible().len() ==> #[trigger] self.visible_before(j, k)
        &&& forall|i: int, j: int| 0 <= i < j < self.pending().len() ==> #[trigger] self.pending_before(i, j)
        &&& forall|i: int| 0 <= i < self.pending().len() ==> #[trigger] self.comes_after_visible(self.pending()[i])
    }

    /// The visible children of a visible node stand side by side, in increasing child
    /// index: a visible node between two children of the same node is a child of it too,
    /// and comes after the first by child index.
    pub proof fn law_children_contiguous(&self, j: int, k: int, m: int)
        requires
            self.wf(),
            0 <= j <= k <= m < self.visible().len(),
            self.parent_positions()[j] is Some,
            self.parent_positions()[m] == self.parent_positions()[j],
        ensures
            self.parent_positions()[k] == self.parent_positions()[j],
            j < k ==> self.child_index_of(self.visible()[j].id) < self.child_index_of(self.visible()[k].id),
    {
        if j < k {
            assert(self.visible_before(j, k));
        }
        if k < m {
            assert(self.visible_before(k, m));
        }
    }

    /// Starts the walk at the root, if the octree has one.
    pub fn new(octree: &'a Octree<T>) -> (t: Self)
        requires
            octree.wf(),
        ensures
            t.wf(),
            t.tree() == *octree,
            t.visible() == Seq::<VisibleOctreeNode>::empty(),
            t.pending() == (match octree.root_id() {
                Some(r) => seq![PendingOctreeNode { id: r, completely_visible: false, parent_index: None }],
                None => Seq::<PendingOctreeNode>::empty(),
            }),
    {
        let mut queue: VecDeque<PendingOctreeNode> = VecDeque::new();
        match octree.root() {
            Some(root) => {
                queue.push_back(PendingOctreeNode { id: root.id, completely_visible: false, parent_index: None });
            },
            None => {},
        }
        let t = VisibleNodesTraversal { octree, queue, visible_nodes: Vec::new(), parents: Ghost(Seq::empty()) };
        proof {
            if octree.root_id() is Some {
                assert(t.pending()[0].id == octree.root_id()->Some_0);
            }
        }
        t
    }
}


/// The order in which the walk finds nodes: by the position of the parent among the
/// visible nodes (the root, which has none, first), then by child index.
pub open spec fn walk_before(p1: Option<usize>, c1: int, p2: Option<usize>, c2: int) -> bool {
    let r1: int = match p1 {
        Some(q) => q as int,
        None => -1,
    };
    let r2: int = match p2 {
        Some(q) => q as int,
        None => -1,
    };
    r1 < r2 || (r1 == r2 && c1 < c2)
}

/// The pending entries queued for the visible children of a node accepted at position `k`.
pub open spec fn child_items<T>(n: OctreeNode<T>, completely_visible: bool, k: int) -> Seq<PendingOctreeNode> {
    set_bits(n.children_mask).map_values(
        |i: usize| PendingOctreeNode { id: n.children[i as int], completely_visible, parent_index: Some(k as usize) },
    )
}

/// `e` with the child at child index `ci`, found at position `k`, recorded.
pub open spec fn with_visible_child(e: VisibleOctreeNode, ci: int, k: int) -> VisibleOctreeNode {
    VisibleOctreeNode {
        children_mask: (e.children_mask | (1u8 << (ci as u8))) as u8,
        first_child_index: if e.first_child_index == 0 { k as usize } else { e.first_child_index },
        ..e
    }
}

impl<'a, T> VisibleNodesTraversal<'a, T> {
    /// Takes the next pending node.
    pub fn pop(&mut self) -> (r: Option<PendingOctreeNode>)
        requires
            old(self).wf(),
        ensures
            final(self).wf(),
            final(self).tree() == old(self).tree(),
            final(self).visible() == old(self).visible(),
            final(self).parent_positions() == old(self).parent_positions(),
            match r {
                Some(item) => {
                    &&& old(self).pending().len() > 0
                    &&& item == old(self).pending()[0]
                    &&& final(self).pending() == old(self).pending().drop_first()
                    &&& final(self).pending_ok(item)
                    &&& final(self).comes_next(item)
                },
                None => old(self).pending().len() == 0 && final(self).pending() == old(self).pending(),
            },
    {
        let r = self.queue.pop_front();
        proof {
            assert forall|k: int| 0 <= k < self.visible().len() implies #[trigger] self.visible_linked(k) by {
                assert(old(self).visible_linked(k));
            }
            assert forall|q: int| 0 <= q < self.visible().len() implies #[trigger] self.children_recorded(q) by {
                assert(old(self).children_recorded(q));
            }
            assert forall|j: int, k: int| 0 <= j < k < self.visible().len() implies #[trigger] self.visible_before(j, k) by {
                assert(old(self).visible_before(j, k));
            }
            if r is None {
                assert forall|i: int, j: int| 0 <= i < j < self.pending().len() implies #[trigger] self.pending_before(i, j) by {
                    assert(old(self).pending_before(i, j));
                }
                assert forall|i: int| 0 <= i < self.pending().len() implies #[trigger] self.comes_after_visible(self.pending()[i]) by {
                    assert(old(self).comes_after_visible(old(self).pending()[i]));
                }
            }
            if r is Some {
                assert(old(self).pending_ok(old(self).pending()[0]));
                assert forall|i: int| 0 <= i < self.pending().len() implies self.pending_ok(#[trigger] self.pending()[i]) by {
                    assert(self.pending()[i] == old(self).pending()[i + 1]);
                }
                assert forall|i: int, j: int| 0 <= i < j < self.pending().len() implies #[trigger] self.pending_before(i, j) by {
                    assert(old(self).pending_before(i + 1, j + 1));
                }
                assert forall|i: int| 0 <= i < self.pending().len() implies #[trigger] self.comes_after_visible(self.pending()[i]) by {
                    assert(self.pending()[i] == old(self).pending()[i + 1]);
                    assert(old(self).comes_after_visible(old(self).pending()[i + 1]));
                }
                let item = old(self).pending()[0];
                assert(old(self).comes_after_visible(item));
                assert forall|i: int| 0 <= i < self.pending().len() implies walk_before(
                    item.parent_index,
                    self.child_index_of(item.id),
                    #[trigger] self.pending()[i].parent_index,
                    self.child_index_of(self.pending()[i].id),
                ) by {
                    assert(self.pending()[i] == old(self).pending()[i + 1]);
                    assert(old(self).pending_before(0, i + 1));
                }
            }
        }
        r
    }

    /// Records `item` as visible (completely inside the frustum when `completely_visible`)
    /// and queues its children.
    pub fn accept(&mut self, item: PendingOctreeNode, completely_visible: bool)
        requires
            old(self).wf(),
            old(self).pending_ok(item),
            old(self).comes_next(item),
        ensures
            final(self).wf(),
            final(self).tree() == old(self).tree(),
            ({
                let k = old(self).visible().len() as int;
                let n = old(self).tree().node(item.id);
                let added = VisibleOctreeNode { id: item.id, children: n.children, children_mask: 0, first_child_index: 0 };
                &&& final(self).parent_positions() == old(self).parent_positions().push(item.parent_index)
                &&& final(self).pending() == old(self).pending() + child_items(n, completely_visible, k)
                &&& final(self).visible() == (match item.parent_index {
                    Some(q) => old(self).visible().update(q as int, with_visible_child(old(self).visible()[q as int], n.child_index as int, k)),
                    None => old(self).visible(),
                }).push(added)
            }),
    {
        let ghost old_self = *self;
        let ghost k = self.visible_nodes@.len() as int;
        let node = match self.octree.get(item.id) {
            Some(node) => node,
            None => {
                return;
            },
        };
        let current_index = self.visible_nodes.len();
        let ones = iter_one_bits(node.children_mask);
        let ghost items = child_items(*node, completely_visible, k);
        let mut j: usize = 0;
        while j < ones.len()
            invariant
                self.octree == old_self.octree,
                self.visible_nodes == old_self.visible_nodes,
                self.parents == old_self.parents,
                self.tree().wf(),
                *node == self.tree().node(item.id),
                self.tree().contains(item.id),
                ones@ == set_bits(node.children_mask),
                items == child_items(*node, completely_visible, k),
                current_index == k,
                j <= ones@.len(),
                self.queue@ == old_self.queue@ + items.take(j as int),
            decreases ones@.len() - j,
        {
            let i = ones[j];
            proof {
                lemma_set_bits_members(node.children_mask, j as int);
            }
            let child_id = node.children[i];
            match self.octree.get(child_id) {
                Some(child) => {
                    self.queue.push_back(PendingOctreeNode { id: child_id, completely_visible, parent_index: Some(current_index) });
                },
                None => {},
            }
            proof {
                assert(items.take(j + 1) == items.take(j as int).push(items[j as int]));
            }
            j = j + 1;
        }
        proof {
            assert(items.take(ones@.len() as int) == items);
        }
        self.visible_nodes.push(VisibleOctreeNode::from_node(node));
        proof {
            self.parents@ = self.parents@.push(item.parent_index);
        }
        match item.parent_index {
            Some(parent_index) => {
                let parent = &mut self.visible_nodes[parent_index];
                if parent.first_child_index == 0 {
                    parent.first_child_index = current_index;
                }
                parent.children_mask = with_bit(parent.children_mask, node.child_index);
            },
            None => {},
        }
        proof {
            let n = old_self.tree().node(item.id);
            let added = VisibleOctreeNode { id: item.id, children: n.children, children_mask: 0, first_child_index: 0 };
            assert(self.visible() =~= (match item.parent_index {
                Some(q) => old_self.visible().update(q as int, with_visible_child(old_self.visible()[q as int], n.child_index as int, k)),
                None => old_self.visible(),
            }).push(added));
            assert(self.pending() =~= old_self.pending() + child_items(n, completely_visible, k));
            old_self.lemma_accept_keeps_wf(*self, item, completely_visible);
        }
    }

    /// Accepting a pending node keeps the walk consistent.
    pub proof fn lemma_accept_keeps_wf(&self, after: Self, item: PendingOctreeNode, completely_visible: bool)
        requires
            self.wf(),
            self.pending_ok(item),
            self.comes_next(item),
            self.visible().len() <= usize::MAX,
            after.tree() == self.tree(),
            ({
                let k = self.visible().len() as int;
                let n = self.tree().node(item.id);
                let added = VisibleOctreeNode { id: item.id, children: n.children, children_mask: 0, first_child_index: 0 };
                &&& after.parent_positions() == self.parent_positions().push(item.parent_index)
                &&& after.pending() == self.pending() + child_items(n, completely_visible, k)
                &&& after.visible() == (match item.parent_index {
                    Some(q) => self.visible().update(q as int, with_visible_child(self.visible()[q as int], n.child_index as int, k)),
                    None => self.visible(),
                }).push(added)
            }),
        ensures
            after.wf(),
    {
        let k = self.visible().len() as int;
        let n = self.tree().node(item.id);
        let o = self.tree();
        lemma_empty_mask();
        assert(o.node_linked(item.id));
        // entries keep their handles
        assert forall|j: int| 0 <= j < k implies #[trigger] after.visible()[j].id == self.visible()[j].id by {
            match item.parent_index {
                Some(q) => {
                    if j == q as int {
                    }
                },
                None => {},
            }
        }
        assert forall|i: int| 0 <= i < after.pending().len() implies after.pending_ok(#[trigger] after.pending()[i]) by {
            if i < self.pending().len() {
                let it = self.pending()[i];
                assert(after.pending()[i] == it);
                assert(self.pending_ok(it));
                match it.parent_index {
                    Some(q) => {
                        assert(after.visible()[q as int].id == self.visible()[q as int].id);
                    },
                    None => {},
                }
            } else {
                let j = i - self.pending().len();
                lemma_set_bits_members(n.children_mask, j);
                let c = set_bits(n.children_mask)[j];
                let it = after.pending()[i];
                assert(it == child_items(n, completely_visible, k)[j]);
                assert(it.id == n.children[c as int]);
                assert(it.parent_index == Some(k as usize));
                assert(bit_set(n.children_mask, c as int));
                assert(o.contains(n.children[c as int]));
                assert(o.node(n.children[c as int]).parent_id == Some(item.id));
                assert(after.visible()[k].id == item.id);
                assert((k as usize) as int == k);
            }
        }
        assert forall|j: int| 0 <= j < after.visible().len() implies #[trigger] after.visible_linked(j) by {
            let e = after.visible()[j];
            let nj = o.node(e.id);
            if j < k {
                assert(self.visible_linked(j));
                let e0 = self.visible()[j];
                assert(e.id == e0.id);
                assert(e.children == e0.children);
                match self.parent_positions()[j] {
                    Some(q2) => {
                        assert(after.parent_positions()[j] == Some(q2));
                        let p1 = after.visible()[q2 as int];
                        let p0 = self.visible()[q2 as int];
                        assert(p1.id == p0.id);
                        if item.parent_index == Some(q2) {
                            assert(self.children_recorded(q2 as int));
                            lemma_or_bit(p0.children_mask, n.child_index as int, nj.child_index as int);
                            assert(p0.first_child_index != 0);
                            assert(p1.first_child_index == p0.first_child_index);
                            assert(bit_set(p1.children_mask, nj.child_index as int));
                        } else {
                            assert(p1 == p0);
                        }
                    },
                    None => {
                        assert(after.parent_positions()[j] is None);
                    },
                }
            } else {
                assert(j == k);
                assert(e.id == item.id);
                assert(after.parent_positions()[k] == item.parent_index);
                match item.parent_index {
                    Some(q) => {
                        assert(self.children_recorded(q as int));
                        let p1 = after.visible()[q as int];
                        let p0 = self.visible()[q as int];
                        assert(p1.id == p0.id);
                        assert(p1 == with_visible_child(p0, n.child_index as int, k));
                        lemma_or_bit(p0.children_mask, n.child_index as int, n.child_index as int);
                        assert(bit_set(p1.children_mask, n.child_index as int));
                        assert(0 < p1.first_child_index <= k);
                    },
                    None => {},
                }
            }
        }
        assert forall|q2: int| 0 <= q2 < after.visible().len() implies #[trigger] after.children_recorded(q2) by {
            let e = after.visible()[q2];
            if q2 < k {
                assert(self.children_recorded(q2));
                let e0 = self.visible()[q2];
                assert forall|c: int| 0 <= c < 8 && bit_set(e.children_mask, c) implies exists|j: int|
                    0 <= j < after.visible().len() && after.parent_positions()[j] == Some(q2 as usize)
                        && after.tree().node(#[trigger] after.visible()[j].id).child_index == c by {
                    if item.parent_index == Some(q2 as usize) {
                        lemma_or_bit(e0.children_mask, n.child_index as int, c);
                    }
                    if item.parent_index == Some(q2 as usize) && c == n.child_index as int {
                        assert(after.visible()[k].id == item.id);
                        assert(after.parent_positions()[k] == Some(q2 as usize));
                    } else {
                        assert(bit_set(e0.children_mask, c));
                        let j = choose|j: int| 0 <= j < self.visible().len() && self.parent_positions()[j] == Some(q2 as usize)
                            && self.tree().node(#[trigger] self.visible()[j].id).child_index == c;
                        assert(after.visible()[j].id == self.visible()[j].id);
                        assert(after.parent_positions()[j] == self.parent_positions()[j]);
                    }
                }
                if e.first_child_index != 0 {
                    if e0.first_child_index != 0 {
                        assert(e.first_child_index == e0.first_child_index);
                        assert forall|j: int| 0 <= j < e.first_child_index implies after.parent_positions()[j] != Some(q2 as usize) by {
                            assert(after.parent_positions()[j] == self.parent_positions()[j]);
                        }
                    } else {
                        assert(item.parent_index == Some(q2 as usize));
                        assert forall|j: int| 0 <= j < e.first_child_index implies after.parent_positions()[j] != Some(q2 as usize) by {
                            assert(after.parent_positions()[j] == self.parent_positions()[j]);
                        }
                    }
                } else {
                    assert forall|j: int| 0 <= j < after.visible().len() implies after.parent_positions()[j] != Some(q2 as usize) by {
                        if j < k {
                            assert(after.parent_positions()[j] == self.parent_positions()[j]);
                        }
                    }
                }
            } else {
                assert(q2 == k);
                assert forall|j: int| 0 <= j < after.visible().len() implies after.parent_positions()[j] != Some(q2 as usize) by {
                    if j < k {
                        assert(self.visible_linked(j));
                        assert(after.parent_positions()[j] == self.parent_positions()[j]);
                    } else {
                        assert(j == k);
                        assert(after.parent_positions()[k] == item.parent_index);
                    }
                }
            }
        }
        self.lemma_accept_keeps_order(after, item, completely_visible);
    }

    /// Accepting the next node of the walk keeps the visible and pending nodes in the
    /// walk's order.
    proof fn lemma_accept_keeps_order(&self, after: Self, item: PendingOctreeNode, completely_visible: bool)
        requires
            self.wf(),
            self.pending_ok(item),
            self.comes_next(item),
            self.visible().len() <= usize::MAX,
            after.tree() == self.tree(),
            ({
                let k = self.visible().len() as int;
                let n = self.tree().node(item.id);
                let added = VisibleOctreeNode { id: item.id, children: n.children, children_mask: 0, first_child_index: 0 };
                &&& after.parent_positions() == self.parent_positions().push(item.parent_index)
                &&& after.pending() == self.pending() + child_items(n, completely_visible, k)
                &&& after.visible() == (match item.parent_index {
                    Some(q) => self.visible().update(q as int, with_visible_child(self.visible()[q as int], n.child_index as int, k)),
                    None => self.visible(),
                }).push(added)
            }),
        ensures
            after.in_walk_order(),
    {
        let k = self.visible().len() as int;
        let n = self.tree().node(item.id);
        let o = self.tree();
        let pl = self.pending().len() as int;
        let items = child_items(n, completely_visible, k);
        assert(o.node_linked(item.id));
        lemma_set_bits_below_members(n.children_mask, 8);
        assert forall|j: int| 0 <= j < k implies #[trigger] after.visible()[j].id == self.visible()[j].id by {
            match item.parent_index {
                Some(q) => {
                    if j == q as int {
                    }
                },
                None => {},
            }
        }
        assert(after.visible()[k].id == item.id);
        // each visible node's parent comes before it
        assert forall|m: int| 0 <= m < k implies match #[trigger] self.parent_positions()[m] {
            Some(q) => q < k,
            None => true,
        } by {
            assert(self.visible_linked(m));
        }
        assert forall|j: int, m: int| 0 <= j < m < after.visible().len() implies #[trigger] after.visible_before(j, m) by {
            if m < k {
                assert(self.visible_before(j, m));
            } else {
                assert(self.visible()[j].id == after.visible()[j].id);
            }
        }
        assert forall|a: int| 0 <= a < items.len() implies #[trigger] after.child_index_of(items[a].id) == set_bits(n.children_mask)[a] as int by {
            lemma_set_bits_members(n.children_mask, a);
            let c = set_bits(n.children_mask)[a];
            assert(items[a].id == n.children[c as int]);
            assert(bit_set(n.children_mask, c as int));
        }
        assert forall|i: int, j: int| 0 <= i < j < after.pending().len() implies #[trigger] after.pending_before(i, j) by {
            if j < pl {
                assert(self.pending_before(i, j));
            } else if i < pl {
                assert(self.pending_ok(self.pending()[i]));
                assert(after.pending()[j] == items[j - pl]);
            } else {
                assert(after.pending()[i] == items[i - pl]);
                assert(after.pending()[j] == items[j - pl]);
            }
        }
        assert forall|i: int| 0 <= i < after.pending().len() implies #[trigger] after.comes_after_visible(after.pending()[i]) by {
            let it = after.pending()[i];
            if i < pl {
                assert(it == self.pending()[i]);
                assert(self.comes_after_visible(it));
                assert forall|m: int| 0 <= m < after.visible().len() implies walk_before(
                    after.parent_positions()[m],
                    after.child_index_of(#[trigger] after.visible()[m].id),
                    it.parent_index,
                    after.child_index_of(it.id),
                ) by {
                    if m < k {
                        assert(self.visible()[m].id == after.visible()[m].id);
                    }
                }
            } else {
                assert(it == items[i - pl]);
                assert forall|m: int| 0 <= m < after.visible().len() implies walk_before(
                    after.parent_positions()[m],
                    after.child_index_of(#[trigger] after.visible()[m].id),
                    it.parent_index,
                    after.child_index_of(it.id),
                ) by {
                    if m < k {
                        assert(after.parent_positions()[m] == self.parent_positions()[m]);
                    }
                }
            }
        }
    }
}


impl<'a, T> VisibleNodesTraversal<'a, T> {
    /// Whether no node is waiting to be tested.
    pub fn is_finished(&self) -> (b: bool)
        ensures
            b == (self.pending().len() == 0),
    {
        self.queue.len() == 0
    }

    /// The visible nodes found, in the order they were accepted.
    pub fn into_visible_nodes(self) -> (r: Vec<VisibleOctreeNode>)
        ensures
            r@ == self.visible(),
    {
        self.visible_nodes
    }
}


/// Gives each octree entity of the render world (its `Entity::to_bits`) a small index,
/// reused once the entity is removed.
#[derive(Debug)]
pub struct RenderOctreeIndex<C> {
    pub(crate) octrees_slab: Slab<u64>,
    pub(crate) octrees_index: HashMap<u64, usize>,
    _phantom_data: PhantomData<C>,
}

impl<C> RenderOctreeIndex<C> {
    /// The index of each indexed entity.
    pub closed spec fn indices(&self) -> Map<u64, usize> {
        index_map(self.octrees_index)
    }

    /// The entity at each used index.
    pub closed spec fn entities(&self) -> Map<usize, u64> {
        entity_slab_entries(self.octrees_slab)
    }

    /// The two maps are inverse to each other.
    pub open spec fn wf(&self) -> bool {
        &&& self.entities().dom().finite()
        &&& forall|e: u64| #[trigger] self.indices().contains_key(e) ==> self.entities().contains_key(self.indices()[e])
            && self.entities()[self.indices()[e]] == e
        &&& forall|k: usize| #[trigger] self.entities().contains_key(k) ==> self.indices().contains_key(self.entities()[k])
            && self.indices()[self.entities()[k]] == k
    }

    /// `after` is `self` once `entity` has index `r`: the index it had, or a free one.
    pub open spec fn added_octree(&self, after: Self, entity: u64, r: usize) -> bool {
        &&& self.indices().contains_key(entity) ==> r == self.indices()[entity] && after.indices() == self.indices()
            && after.entities() == self.entities()
        &&& !self.indices().contains_key(entity) ==> !self.entities().contains_key(r) && after.indices()
            == self.indices().insert(entity, r) && after.entities() == self.entities().insert(r, entity)
    }

    /// An empty index.
    pub fn new() -> (r: Self)
        ensures
            r.wf(),
            r.indices().dom().is_empty(),
            r.entities().dom().is_empty(),
    {
        RenderOctreeIndex { octrees_slab: entity_slab_new(), octrees_index: index_map_new(), _phantom_data: PhantomData }
    }

    /// The index of `entity`, giving it a free one if it has none yet.
    pub fn add_octree(&mut self, entity: u64) -> (r: usize)
        requires
            old(self).wf(),
        ensures
            final(self).wf(),
            old(self).indices().contains_key(entity) ==> r == old(self).indices()[entity]
                && final(self).indices() == old(self).indices() && final(self).entities() == old(self).entities(),
            !old(self).indices().contains_key(entity) ==> !old(self).entities().contains_key(r)
                && final(self).indices() == old(self).indices().insert(entity, r)
                && final(self).entities() == old(self).entities().insert(r, entity),
            old(self).added_octree(*final(self), entity, r),
    {
        match index_map_get(&self.octrees_index, entity) {
            Some(index) => index,
            None => {
                let ghost old_self = *self;
                let index = entity_slab_insert(&mut self.octrees_slab, entity);
                index_map_insert(&mut self.octrees_index, entity, index);
                proof {
                    assert forall|e: u64| #[trigger] self.indices().contains_key(e) implies self.entities().contains_key(self.indices()[e])
                        && self.entities()[self.indices()[e]] == e by {
                        if e != entity {
                            assert(old_self.indices().contains_key(e));
                        }
                    }
                    assert forall|k: usize| #[trigger] self.entities().contains_key(k) implies self.indices().contains_key(self.entities()[k])
                        && self.indices()[self.entities()[k]] == k by {
                        if k != index {
                            assert(old_self.entities().contains_key(k));
                        }
                    }
                }
                index
            },
        }
    }

    /// Removes `entity` from the index and frees its index, which is returned.
    pub fn remove_octree(&mut self, entity: u64) -> (r: Option<usize>)
        requires
            old(self).wf(),
        ensures
            final(self).wf(),
            r == (if old(self).indices().contains_key(entity) {
                Some(old(self).indices()[entity])
            } else {
                None
            }),
            final(self).indices() == old(self).indices().remove(entity),
            r is Some ==> final(self).entities() == old(self).entities().remove(r->Some_0),
            r is Some ==> final(self).entities().len() == old(self).entities().len() - 1,
            r is None ==> final(self).entities() == old(self).entities(),
    {
        let ghost old_self = *self;
        if let Some(index) = index_map_remove(&mut self.octrees_index, entity) {
            entity_slab_try_remove(&mut self.octrees_slab, index);
            proof {
                assert(old_self.indices().contains_key(entity));
                assert(old_self.indices()[entity] == index);
                assert(self.indices() == old_self.indices().remove(entity));
                assert(self.entities() == old_self.entities().remove(index));
                assert forall|e: u64| #[trigger] self.indices().contains_key(e) implies self.entities().contains_key(self.indices()[e])
                    && self.entities()[self.indices()[e]] == e by {
                    assert(old_self.indices().contains_key(e));
                    assert(e != entity);
                    assert(old_self.entities()[old_self.indices()[e]] == e);
                    assert(old_self.indices()[e] != index);
                }
                assert forall|k: usize| #[trigger] self.entities().contains_key(k) implies self.indices().contains_key(self.entities()[k])
                    && self.indices()[self.entities()[k]] == k by {
                    assert(old_self.entities().contains_key(k));
                    assert(k != index);
                    let e = old_self.entities()[k];
                    assert(old_self.indices()[e] == k);
                    assert(e != entity);
                }
            }
            Some(index)
        } else {
            proof {
                assert(self.indices() =~= old_self.indices());
                assert(self.entities() == old_self.entities());
                assert(self.wf());
            }
            None
        }
    }

    /// The index of `entity`, if it has one.
    pub fn get_octree_index(&self, entity: u64) -> (r: Option<usize>)
        ensures
            r == (if self.indices().contains_key(entity) {
                Some(self.indices()[entity])
            } else {
                None
            }),
    {
        index_map_get(&self.octrees_index, entity)
    }

    /// The number of indexed entities.
    pub fn len(&self) -> (n: usize)
        ensures
            n == self.entities().len(),
    {
        entity_slab_len(&self.octrees_slab)
    }
}

/// Adding an entity that is indexed already changes nothing and gives its index: adding
/// the same entity twice gives the same index.
pub proof fn law_add_octree_twice<C>(
    s0: RenderOctreeIndex<C>,
    s1: RenderOctreeIndex<C>,
    s2: RenderOctreeIndex<C>,
    entity: u64,
    r1: usize,
    r2: usize,
)
    requires
        s0.added_octree(s1, entity, r1),
        s1.added_octree(s2, entity, r2),
    ensures
        r1 == r2,
        s1.indices().contains_key(entity),
        s1.indices()[entity] == r1,
        s2.indices() == s1.indices(),
        s2.entities() == s1.entities(),
{
}

/// Two entities added to the index get different indices.
pub proof fn law_add_octree_distinct<C>(
    s0: RenderOctreeIndex<C>,
    s1: RenderOctreeIndex<C>,
    s2: RenderOctreeIndex<C>,
    a: u64,
    b: u64,
    ra: usize,
    rb: usize,
)
    requires
        s0.wf(),
        s1.wf(),
        a != b,
        s0.added_octree(s1, a, ra),
        s1.added_octree(s2, b, rb),
    ensures
        ra != rb,
{
    assert(s1.indices().contains_key(a));
    if s1.indices().contains_key(b) {
        assert(s1.entities()[s1.indices()[b]] == b);
        assert(s1.entities()[s1.indices()[a]] == a);
    }
}


/// The visible nodes of each octree entity (by its entity bits), per view: the octree
/// asset they were computed for (none once cleared) and the nodes.
pub struct VisibleOctreeNodes<T, C> {
    pub octrees: std::collections::HashMap<u64, (Option<u128>, Vec<VisibleOctreeNode>)>,
    _phantom_data: PhantomData<(T, C)>,
}

impl<T, C> View for VisibleOctreeNodes<T, C> {
    type V = Map<u64, (Option<u128>, Seq<VisibleOctreeNode>)>;

    /// For each octree entity, its asset and its visible nodes.
    closed spec fn view(&self) -> Self::V {
        self.octrees@.map_values(|e: (Option<u128>, Vec<VisibleOctreeNode>)| (e.0, e.1@))
    }
}

impl<T, C> Default for VisibleOctreeNodes<T, C> {
    /// No octree entity.
    fn default() -> (r: Self)
        ensures
            r@.dom().is_empty(),
    {
        let r = VisibleOctreeNodes { octrees: std::collections::HashMap::new(), _phantom_data: PhantomData };
        proof {
            assert(r.octrees@.dom() =~= Set::<u64>::empty());
        }
        r
    }
}

impl<T, C> VisibleOctreeNodes<T, C> {
    /// The entry of octree entity `entity`, made empty (no asset, no node) if it has none.
    pub fn get_mut(&mut self, entity: u64) -> (r: &mut (Option<u128>, Vec<VisibleOctreeNode>))
        ensures
            old(self)@.contains_key(entity) ==> (r.0, r.1@) == old(self)@[entity],
            !old(self)@.contains_key(entity) ==> r.0 is None && r.1@.len() == 0,
            final(self)@ == old(self)@.insert(entity, (final(r).0, final(r).1@)),
    {
        self.octrees.entry(entity).or_insert((None, Vec::new()))
    }

    /// Every entry loses its asset and its nodes; the entries stay.
    pub fn clear_all(&mut self)
        ensures
            final(self)@.dom() == old(self)@.dom(),
            forall|e: u64| #[trigger] final(self)@.contains_key(e) ==> final(self)@[e].0 is None
                && final(self)@[e].1.len() == 0,
    {
        clear_entries(&mut self.octrees);
        proof {
            assert(self@.dom() =~= old(self)@.dom());
        }
    }
}

} // verus!
