//! The visible nodes of each octree, per view.
use crate::octree::new_asset::node::{NodeData, OctreeNode};
use crate::octree::new_asset::hierarchy::HierarchyNodeData;
use crate::octree::storage::NodeId;
use std::collections::HashMap;
use std::marker::PhantomData;
use vstd::prelude::*;

verus! {

broadcast use vstd::std_specs::hash::group_hash_axioms;

/// A visible node, with the positions of its visible children.
#[derive(Clone, Debug)]
pub struct VisibleOctreeNode {
    pub id: NodeId,
    pub children: [usize; 8],
    pub children_mask: u8,
    pub first_child_index: usize,
}

impl VisibleOctreeNode {
    /// The entry for a node, before any of its children is found visible.
    pub fn from_node<H: HierarchyNodeData, T: NodeData>(value: &OctreeNode<H, T>) -> (r: VisibleOctreeNode)
        ensures
            r.id == value.hierarchy.id,
            forall|c: int| 0 <= c < 8 ==> #[trigger] r.children[c] == 0,
            r.children_mask == 0,
            r.first_child_index == 0,
    {
        VisibleOctreeNode { id: value.hierarchy.id, children: [0usize; 8], children_mask: 0, first_child_index: 0 }
    }
}


/// The visible nodes of one octree entity, per view.
pub struct OctreeVisibility<H, T, C> {
    pub asset_id: u128,
    pub visible_nodes: Vec<VisibleOctreeNode>,
    _phantom_data: PhantomData<(H, T, C)>,
}

/// The visible nodes of each octree entity (by its entity bits), per view: the octree
/// asset they were computed for (none once cleared) and the nodes.
pub struct OctreesVisibility<H, T, C> {
    pub octrees: HashMap<u64, (Option<u128>, Vec<VisibleOctreeNode>)>,
    _phantom_data: PhantomData<(H, T, C)>,
}

impl<H, T, C> View for OctreesVisibility<H, T, C> {
    type V = Map<u64, (Option<u128>, Seq<VisibleOctreeNode>)>;

    /// For each octree entity, its asset and its visible nodes.
    closed spec fn view(&self) -> Self::V {
        self.octrees@.map_values(|e: (Option<u128>, Vec<VisibleOctreeNode>)| (e.0, e.1@))
    }
}

impl<H, T, C> Default for OctreesVisibility<H, T, C> {
    /// No octree entity.
    fn default() -> (r: Self)
        ensures
            r@.dom().is_empty(),
    {
        let r = OctreesVisibility { octrees: HashMap::new(), _phantom_data: PhantomData };
        proof {
            assert(r.octrees@.dom() =~= Set::<u64>::empty());
        }
        r
    }
}

impl<H, T, C> OctreesVisibility<H, T, C> {

    /// The entry of octree entity `entity`, made empty (no asset, no node) if it has none.
    pub fn get_mut(&mut self, entity: u64) -> (r: &mut (Option<u128>, Vec<VisibleOctreeNode>))
        ensures
            old(self)@.contains_key(entity) ==> (r.0, r.1@) == old(self)@[entity],
            !old(self)@.contains_key(entity) ==> r.0 is None && r.1@.len() == 0,
            final(self)@ == old(self)@.insert(entity, (final(r).0, final(r).1@)),
    {
        self.octrees.entry(entity).or_insert((None, Vec::new()))
    }

    /// Every entry loses its asset and its nodes; the entries stay.
    pub fn clear_all(&mut self)
        ensures
            final(self)@.dom() == old(self)@.dom(),
            forall|e: u64| #[trigger] final(self)@.contains_key(e) ==> final(self)@[e].0 is None
                && final(self)@[e].1.len() == 0,
    {
        clear_entries(&mut self.octrees);
        proof {
            assert(self@.dom() =~= old(self)@.dom());
        }
    }
}

/// Empties every entry of a map from octree entities to an asset and visible nodes,
/// keeping the entries (and the nodes' allocations).
pub(crate) fn clear_entries<V>(octrees: &mut HashMap<u64, (Option<u128>, Vec<V>)>)
    ensures
        final(octrees)@.dom() == old(octrees)@.dom(),
        forall|e: u64| #[trigger] final(octrees)@.contains_key(e) ==> final(octrees)@[e].0 is None
            && final(octrees)@[e].1@.len() == 0,
{
    let mut keys: Vec<u64> = Vec::new();
    let ghost ks = vstd::std_specs::iter::IteratorSpec::remaining(&vstd::std_specs::hash::spec_keys_iter(&*octrees));
    for k in it: octrees.keys()
        invariant
            it.seq() == ks,
            keys@ == ks.take(it.index()).map_values(|r: &u64| *r),
    {
        keys.push(*k);
    }
    proof {
        assert(keys@ =~= ks.unref());
        assert(keys@.to_set() =~= old(octrees)@.dom());
    }
    let ghost dom = old(octrees)@.dom();
    let mut i: usize = 0;
    while i < keys.len()
        invariant
            i <= keys@.len(),
            keys@.to_set() == dom,
            octrees@.dom() == dom,
            forall|j: int| 0 <= j < i ==> (#[trigger] octrees@[keys@[j]]).0 is None
                && octrees@[keys@[j]].1@.len() == 0,
        decreases keys@.len() - i,
    {
        let k = keys[i];
        let ghost before = octrees@;
        match octrees.remove(&k) {
            Some(mut entry) => {
                entry.0 = None;
                entry.1.clear();
                octrees.insert(k, entry);
                proof {
                    assert(octrees@.dom() =~= before.dom());
                }
            },
            None => {
                proof {
                    assert(octrees@ =~= before);
                }
            },
        }
        proof {
            assert forall|j: int| 0 <= j < i + 1 implies (#[trigger] octrees@[keys@[j]]).0 is None
                && octrees@[keys@[j]].1@.len() == 0 by {
                if j < i && keys@[j] != k {
                    assert(octrees@[keys@[j]] == before[keys@[j]]);
                }
            }
        }
        i = i + 1;
    }
    proof {
        assert forall|e: u64| #[trigger] octrees@.contains_key(e) implies octrees@[e].0 is None
            && octrees@[e].1@.len() == 0 by {
            assert(keys@.to_set().contains(e));
            let j = choose|j: int| 0 <= j < keys@.len() && keys@[j] == e;
            assert(octrees@[keys@[j]].0 is None);
        }
    }
}

} // verus!
