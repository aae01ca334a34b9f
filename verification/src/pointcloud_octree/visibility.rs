//! The visible nodes of each point cloud octree entity, per view, and the depth-first walk
//! that finds them.
use crate::bits::{bit_set, has_bit};
use crate::octree::asset::{Octree, OctreeNode};
use crate::octree::storage::NodeId;
use std::collections::HashMap;
use vstd::prelude::*;

verus! {

broadcast use vstd::std_specs::hash::group_hash_axioms;

/// The visible nodes of each octree entity (by its entity bits), per view.
pub struct VisibleOctreeNodes {
    pub nodes: HashMap<u64, Vec<NodeId>>,
}

impl View for VisibleOctreeNodes {
    type V = Map<u64, Seq<NodeId>>;

    /// The visible nodes of each octree entity that has an entry.
    open spec fn view(&self) -> Self::V {
        self.nodes@.map_values(|v: Vec<NodeId>| v@)
    }
}

/// The visible nodes of `entity` in `m`: none when it has no entry.
pub open spec fn nodes_of(m: Map<u64, Seq<NodeId>>, entity: u64) -> Seq<NodeId> {
    if m.contains_key(entity) {
        m[entity]
    } else {
        Seq::empty()
    }
}

impl Default for VisibleOctreeNodes {
    /// No entry.
    fn default() -> (r: Self)
        ensures
            r@.dom().is_empty(),
    {
        let r = VisibleOctreeNodes { nodes: HashMap::new() };
        proof {
            assert(r@.dom() =~= Set::<u64>::empty());
        }
        r
    }
}

impl VisibleOctreeNodes {
    /// The visible nodes of `entity`.
    pub fn get(&self, entity: u64) -> (r: &[NodeId])
        ensures
            r@ == nodes_of(self@, entity),
    {
        match self.nodes.get(&entity) {
            Some(nodes) => nodes.as_slice(),
            None => &[],
        }
    }

    /// The visible nodes of `entity`, given an empty entry when it has none.
    pub fn get_mut(&mut self, entity: u64) -> (r: &mut Vec<NodeId>)
        ensures
            r@ == nodes_of(old(self)@, entity),
            final(self)@ == old(self)@.insert(entity, final(r)@),
    {
        let r = self.nodes.entry(entity).or_insert(Vec::new());
        r
    }

    /// The number of visible nodes of `entity`.
    pub fn len(&self, entity: u64) -> (n: usize)
        ensures
            n == nodes_of(self@, entity).len(),
    {
        self.get(entity).len()
    }

    /// Whether `entity` has no visible node.
    pub fn is_empty(&self, entity: u64) -> (b: bool)
        ensures
            b == (nodes_of(self@, entity).len() == 0),
    {
        self.get(entity).len() == 0
    }

    /// Forgets the visible nodes of `entity`, keeping (or making) its entry.
    pub fn clear(&mut self, entity: u64)
        ensures
            final(self)@ == old(self)@.insert(entity, Seq::empty()),
    {
        self.get_mut(entity).clear();
    }

    /// Records `node_id` as the next visible node of `entity`.
    pub fn push(&mut self, node_id: NodeId, entity: u64)
        ensures
            final(self)@ == old(self)@.insert(entity, nodes_of(old(self)@, entity).push(node_id)),
    {
        self.get_mut(entity).push(node_id);
    }

    /// Forgets the visible nodes of every entity; the entries stay.
    pub fn clear_all(&mut self)
        ensures
            final(self)@.dom() == old(self)@.dom(),
            forall|e: u64| #[trigger] final(self)@.contains_key(e) ==> final(self)@[e].len() == 0,
    {
        let mut keys: Vec<u64> = Vec::new();
        let ghost ks = vstd::std_specs::iter::IteratorSpec::remaining(&vstd::std_specs::hash::spec_keys_iter(&self.nodes));
        for k in it: self.nodes.keys()
            invariant
                it.seq() == ks,
                keys@ == ks.take(it.index()).map_values(|r: &u64| *r),
        {
            keys.push(*k);
        }
        proof {
            assert(keys@ =~= ks.unref());
            assert(keys@.to_set() =~= old(self).nodes@.dom());
        }
        let ghost dom = old(self).nodes@.dom();
        let mut i: usize = 0;
        while i < keys.len()
            invariant
                i <= keys@.len(),
                keys@.to_set() == dom,
                self.nodes@.dom() == dom,
                forall|j: int| 0 <= j < i ==> (#[trigger] self.nodes@[keys@[j]])@.len() == 0,
            decreases keys@.len() - i,
        {
            let k = keys[i];
            let ghost before = self.nodes@;
            match self.nodes.remove(&k) {
                Some(mut nodes) => {
                    nodes.clear();
                    self.nodes.insert(k, nodes);
                    proof {
                        assert(self.nodes@.dom() =~= before.dom());
                    }
                },
                None => {
                    proof {
                        assert(self.nodes@ =~= before);
                    }
                },
            }
            i = i + 1;
        }
        proof {
            assert(self@.dom() =~= old(self)@.dom());
            assert forall|e: u64| #[trigger] self@.contains_key(e) implies self@[e].len() == 0 by {
                assert(dom.contains(e));
                assert(keys@.to_set().contains(e));
                let j = choose|j: int| 0 <= j < keys@.len() && keys@[j] == e;
                assert(self.nodes@[keys@[j]]@.len() == 0);
            }
        }
    }
}

/// The children of `n` at its first `k` child indices, in order, that its children mask
/// records and `o` holds, each with the flag `completely_visible`.
pub open spec fn held_children<T>(o: Octree<T>, n: OctreeNode<T>, completely_visible: bool, k: int) -> Seq<
    (NodeId, bool),
>
    decreases k,
{
    if k <= 0 {
        Seq::empty()
    } else {
        let prev = held_children(o, n, completely_visible, k - 1);
        if bit_set(n.children_mask, k - 1) && o.contains(n.children[k - 1]) {
            prev.push((n.children[k - 1], completely_visible))
        } else {
            prev
        }
    }
}

/// The depth-first walk that lists the visible nodes of a point cloud octree.
///
/// The caller pops each pending node with its flag (an ancestor lies completely inside
/// the frustum), tests it against the camera (screen size, and the frustum unless the
/// flag is set), and accepts the nodes it finds visible: the walk lists the node and
/// stacks its children with the flag the test gave.
pub struct DepthFirstVisibilityWalk<'a, T> {
    octree: &'a Octree<T>,
    stack: Vec<(NodeId, bool)>,
    visible_nodes: Vec<NodeId>,
}

impl<'a, T> DepthFirstVisibilityWalk<'a, T> {
    /// The octree being walked.
    pub closed spec fn tree(&self) -> Octree<T> {
        *self.octree
    }

    /// The nodes waiting to be tested, the next one last.
    pub closed spec fn pending(&self) -> Seq<(NodeId, bool)> {
        self.stack@
    }

    /// The visible nodes found so far, in order.
    pub closed spec fn visible(&self) -> Seq<NodeId> {
        self.visible_nodes@
    }

    /// The octree is consistent and holds every pending node.
    pub open spec fn wf(&self) -> bool {
        &&& self.tree().wf()
        &&& forall|i: int| 0 <= i < self.pending().len() ==> self.tree().contains(#[trigger] self.pending()[i].0)
    }

    /// Starts the walk at the root, if the octree has one, not known to be completely
    /// visible.
    pub fn new(octree: &'a Octree<T>) -> (w: Self)
        requires
            octree.wf(),
        ensures
            w.wf(),
            w.tree() == *octree,
            w.visible() == Seq::<NodeId>::empty(),
            w.pending() == (match octree.root_id() {
                Some(r) => seq![(r, false)],
                None => Seq::<(NodeId, bool)>::empty(),
            }),
    {
        let mut stack: Vec<(NodeId, bool)> = Vec::new();
        match octree.root() {
            Some(root) => stack.push((root.id, false)),
            None => {},
        }
        let w = DepthFirstVisibilityWalk { octree, stack, visible_nodes: Vec::new() };
        proof {
            if octree.root_id() is Some {
                assert(octree.node_linked(octree.root_id()->Some_0));
                assert(w.pending()[0].0 == octree.root_id()->Some_0);
            }
        }
        w
    }

    /// Takes the last pending node.
    pub fn pop(&mut self) -> (r: Option<(NodeId, bool)>)
        requires
            old(self).wf(),
        ensures
            final(self).wf(),
            final(self).tree() == old(self).tree(),
            final(self).visible() == old(self).visible(),
            match r {
                Some(item) => {
                    &&& old(self).pending().len() > 0
                    &&& item == old(self).pending().last()
                    &&& final(self).pending() == old(self).pending().drop_last()
                    &&& final(self).tree().contains(item.0)
                },
                None => old(self).pending().len() == 0 && final(self).pending() == old(self).pending(),
            },
    {
        let r = self.stack.pop();
        proof {
            if r is Some {
                assert(old(self).tree().contains(old(self).pending()[old(self).pending().len() - 1].0));
                assert forall|i: int| 0 <= i < self.pending().len() implies self.tree().contains(#[trigger] self.pending()[i].0) by {
                    assert(self.pending()[i] == old(self).pending()[i]);
                }
            }
        }
        r
    }

    /// Lists node `id`, found visible (completely inside the frustum when
    /// `completely_visible`), and stacks its children, by child index, with that flag.
    pub fn accept(&mut self, id: NodeId, completely_visible: bool)
        requires
            old(self).wf(),
            old(self).tree().contains(id),
        ensures
            final(self).wf(),
            final(self).tree() == old(self).tree(),
            final(self).pending() == old(self).pending() + held_children(
                old(self).tree(),
                old(self).tree().node(id),
                completely_visible,
                8,
            ),
            final(self).visible() == old(self).visible().push(id),
    {
        let ghost start = self.stack@;
        let node = match self.octree.get(id) {
            Some(node) => node,
            None => {
                return;
            },
        };
        proof {
            assert forall|j: int| 0 <= j < self.stack@.len() implies self.octree.contains(#[trigger] self.stack@[j].0) by {
                assert(old(self).tree().contains(old(self).pending()[j].0));
            }
        }
        let mut i: usize = 0;
        while i < 8
            invariant
                i <= 8,
                self.octree == old(self).octree,
                self.visible_nodes == old(self).visible_nodes,
                self.tree().wf(),
                *node == self.tree().node(id),
                self.stack@ == start + held_children(self.tree(), *node, completely_visible, i as int),
                forall|j: int| 0 <= j < self.stack@.len() ==> self.octree.contains(#[trigger] self.stack@[j].0),
            decreases 8 - i,
        {
            let child = node.children[i];
            let ghost before = self.stack@;
            let present = if has_bit(node.children_mask, i) {
                self.octree.get(child)
            } else {
                None
            };
            match present {
                Some(_) => {
                    self.stack.push((child, completely_visible));
                    proof {
                        assert(self.stack@ =~= start + held_children(self.tree(), *node, completely_visible, i + 1));
                        assert(self.octree.contains(child));
                        assert forall|j: int| 0 <= j < self.stack@.len() implies self.octree.contains(#[trigger] self.stack@[j].0) by {
                            if j < before.len() {
                                assert(self.stack@[j] == before[j]);
                            } else {
                                assert(self.stack@[j].0 == child);
                            }
                        }
                    }
                },
                None => {},
            }
            i = i + 1;
        }
        let ghost stacked = self.stack@;
        self.visible_nodes.push(id);
        proof {
            assert forall|j: int| 0 <= j < self.pending().len() implies self.tree().contains(#[trigger] self.pending()[j].0) by {
                assert(self.stack@[j] == stacked[j]);
            }
        }
    }

    /// Whether no node is waiting to be tested.
    pub fn is_finished(&self) -> (b: bool)
        ensures
            b == (self.pending().len() == 0),
    {
        self.stack.len() == 0
    }

    /// The visible nodes found, in the order they were accepted.
    pub fn into_visible_nodes(self) -> (r: Vec<NodeId>)
        ensures
            r@ == self.visible(),
    {
        self.visible_nodes
    }
}

} // verus!
