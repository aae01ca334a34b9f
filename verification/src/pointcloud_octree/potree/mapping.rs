//! The correspondence between the node ids of a Potree hierarchy and the handles of the
//! octree nodes made from them, per octree asset.
use crate::octree::storage::{node_key, NodeId};
use std::collections::HashMap;
use vstd::prelude::*;

verus! {

broadcast use vstd::std_specs::hash::group_hash_axioms;

/// The two directions of the correspondence for one octree: Potree id to handle, and
/// handle key to Potree id.
pub struct PotreePointCloudOctreeMapping {
    pub forward: HashMap<u64, NodeId>,
    pub backward: HashMap<u128, u64>,
}

impl PotreePointCloudOctreeMapping {
    /// An empty correspondence.
    pub fn new() -> (r: Self)
        ensures
            r.forward@.dom().is_empty(),
            r.backward@.dom().is_empty(),
    {
        let r = PotreePointCloudOctreeMapping { forward: HashMap::new(), backward: HashMap::new() };
        proof {
            assert(r.forward@.dom() =~= Set::<u64>::empty());
            assert(r.backward@.dom() =~= Set::<u128>::empty());
        }
        r
    }

    /// The handle made from Potree node `potree_node_id`, if any.
    pub fn get_octree_node_id(&self, potree_node_id: u64) -> (r: Option<NodeId>)
        ensures
            r == (if self.forward@.contains_key(potree_node_id) {
                Some(self.forward@[potree_node_id])
            } else {
                None
            }),
    {
        match self.forward.get(&potree_node_id) {
            Some(id) => Some(*id),
            None => None,
        }
    }

    /// The Potree node that handle `node_id` was made from, if any.
    pub fn get_potree_node_id(&self, node_id: NodeId) -> (r: Option<u64>)
        ensures
            r == (if self.backward@.contains_key(node_key(node_id)) {
                Some(self.backward@[node_key(node_id)])
            } else {
                None
            }),
    {
        match self.backward.get(&node_id.key()) {
            Some(p) => Some(*p),
            None => None,
        }
    }

    /// Records that handle `node_id` was made from Potree node `potree_node_id`, both ways.
    pub fn insert(&mut self, potree_node_id: u64, node_id: NodeId)
        ensures
            final(self).forward@ == old(self).forward@.insert(potree_node_id, node_id),
            final(self).backward@ == old(self).backward@.insert(node_key(node_id), potree_node_id),
    {
        self.forward.insert(potree_node_id, node_id);
        self.backward.insert(node_id.key(), potree_node_id);
    }

    /// Forgets Potree node `potree_node_id` and the handle made from it.
    pub fn remove_potree_node_id(&mut self, potree_node_id: u64)
        ensures
            final(self).forward@ == old(self).forward@.remove(potree_node_id),
            final(self).backward@ == (if old(self).forward@.contains_key(potree_node_id) {
                old(self).backward@.remove(node_key(old(self).forward@[potree_node_id]))
            } else {
                old(self).backward@
            }),
    {
        if let Some(node_id) = self.forward.remove(&potree_node_id) {
            self.backward.remove(&node_id.key());
        }
    }

    /// Forgets handle `node_id` and the Potree node it was made from.
    pub fn remove_node_id(&mut self, node_id: NodeId)
        ensures
            final(self).backward@ == old(self).backward@.remove(node_key(node_id)),
            final(self).forward@ == (if old(self).backward@.contains_key(node_key(node_id)) {
                old(self).forward@.remove(old(self).backward@[node_key(node_id)])
            } else {
                old(self).forward@
            }),
    {
        if let Some(potree_node_id) = self.backward.remove(&node_id.key()) {
            self.forward.remove(&potree_node_id);
        }
    }
}

/// The correspondence of every octree asset, by asset key.
pub struct PotreePointCloudOctreeNodes {
    pub octrees: HashMap<u128, PotreePointCloudOctreeMapping>,
}

impl PotreePointCloudOctreeNodes {
    /// The forward direction of each octree's correspondence.
    pub open spec fn forward_view(&self) -> Map<u128, Map<u64, NodeId>> {
        self.octrees@.map_values(|m: PotreePointCloudOctreeMapping| m.forward@)
    }

    /// `after` is `self` once `insert(asset, potree_node_id, node_id)` recorded the
    /// correspondence both ways, the octree getting one when it had none.
    pub open spec fn inserted(&self, after: &Self, asset: u128, potree_node_id: u64, node_id: NodeId) -> bool {
        &&& after.octrees@.dom() == self.octrees@.dom().insert(asset)
        &&& forall|a: u128| a != asset && #[trigger] self.octrees@.contains_key(a) ==> after.octrees@[a] == self.octrees@[a]
        &&& after.octrees@[asset].forward@ == (if self.octrees@.contains_key(asset) {
            self.octrees@[asset].forward@
        } else {
            Map::empty()
        }).insert(potree_node_id, node_id)
        &&& after.octrees@[asset].backward@ == (if self.octrees@.contains_key(asset) {
            self.octrees@[asset].backward@
        } else {
            Map::empty()
        }).insert(node_key(node_id), potree_node_id)
    }

    /// `after` is `self` once `remove(asset, potree_node_id)` forgot the Potree node and
    /// the handle made from it.
    pub open spec fn removed(&self, after: &Self, asset: u128, potree_node_id: u64) -> bool {
        &&& after.octrees@.dom() == self.octrees@.dom()
        &&& forall|a: u128| a != asset && #[trigger] self.octrees@.contains_key(a) ==> after.octrees@[a] == self.octrees@[a]
        &&& self.octrees@.contains_key(asset) ==> after.octrees@[asset].forward@ == self.octrees@[asset].forward@.remove(
            potree_node_id,
        )
        &&& self.octrees@.contains_key(asset) ==> after.octrees@[asset].backward@ == (if self.octrees@[asset].forward@.contains_key(
            potree_node_id,
        ) {
            self.octrees@[asset].backward@.remove(node_key(self.octrees@[asset].forward@[potree_node_id]))
        } else {
            self.octrees@[asset].backward@
        })
    }

    /// No octree.
    pub fn new() -> (r: Self)
        ensures
            r.octrees@.dom().is_empty(),
    {
        let r = PotreePointCloudOctreeNodes { octrees: HashMap::new() };
        proof {
            assert(r.octrees@.dom() =~= Set::<u128>::empty());
        }
        r
    }

    /// The correspondence of octree `asset`, if any.
    pub fn get(&self, asset: u128) -> (r: Option<&PotreePointCloudOctreeMapping>)
        ensures
            r == (if self.octrees@.contains_key(asset) {
                Some(&self.octrees@[asset])
            } else {
                None
            }),
    {
        self.octrees.get(&asset)
    }

    /// The correspondence of octree `asset`, made empty when it has none.
    pub fn get_or_insert_mut(&mut self, asset: u128) -> (r: &mut PotreePointCloudOctreeMapping)
        ensures
            old(self).octrees@.contains_key(asset) ==> *r == old(self).octrees@[asset],
            !old(self).octrees@.contains_key(asset) ==> r.forward@.dom().is_empty() && r.backward@.dom().is_empty(),
            final(self).octrees@ == old(self).octrees@.insert(asset, *final(r)),
    {
        self.octrees.entry(asset).or_insert(PotreePointCloudOctreeMapping::new())
    }

    /// The handle made from Potree node `potree_node_id` in octree `asset`, if any.
    pub fn get_octree_node_id(&self, asset: u128, potree_node_id: u64) -> (r: Option<NodeId>)
        ensures
            r == (if self.forward_view().contains_key(asset) && self.forward_view()[asset].contains_key(potree_node_id) {
                Some(self.forward_view()[asset][potree_node_id])
            } else {
                None
            }),
    {
        match self.octrees.get(&asset) {
            Some(m) => m.get_octree_node_id(potree_node_id),
            None => None,
        }
    }

    /// Records, in octree `asset`, that handle `node_id` was made from Potree node
    /// `potree_node_id`, both ways; the octree gets a correspondence if it has none.
    pub fn insert(&mut self, asset: u128, potree_node_id: u64, node_id: NodeId)
        ensures
            old(self).inserted(&*final(self), asset, potree_node_id, node_id),
    {
        let mut mapping = match self.octrees.remove(&asset) {
            Some(m) => m,
            None => PotreePointCloudOctreeMapping::new(),
        };
        proof {
            if !old(self).octrees@.contains_key(asset) {
                assert(mapping.forward@ =~= Map::empty());
                assert(mapping.backward@ =~= Map::empty());
            }
        }
        mapping.insert(potree_node_id, node_id);
        self.octrees.insert(asset, mapping);
        proof {
            assert(self.octrees@.dom() =~= old(self).octrees@.dom().insert(asset));
        }
    }

    /// Forgets, in octree `asset`, Potree node `potree_node_id` and the handle made from it.
    pub fn remove(&mut self, asset: u128, potree_node_id: u64)
        ensures
            old(self).removed(&*final(self), asset, potree_node_id),
    {
        match self.octrees.remove(&asset) {
            Some(mut mapping) => {
                mapping.remove_potree_node_id(potree_node_id);
                self.octrees.insert(asset, mapping);
                proof {
                    assert(self.octrees@.dom() =~= old(self).octrees@.dom());
                    assert forall|a: u128| a != asset && #[trigger] old(self).octrees@.contains_key(a) implies self.octrees@[a]
                        == old(self).octrees@[a] by {}
                }
            },
            None => {
                proof {
                    assert(self.octrees@ =~= old(self).octrees@);
                }
            },
        }
    }
}

/// After recording a correspondence, both lookups give it back.
pub proof fn law_lookup_after_insert(
    before: PotreePointCloudOctreeMapping,
    after: PotreePointCloudOctreeMapping,
    potree_node_id: u64,
    node_id: NodeId,
)
    requires
        after.forward@ == before.forward@.insert(potree_node_id, node_id),
        after.backward@ == before.backward@.insert(node_key(node_id), potree_node_id),
    ensures
        after.forward@.contains_key(potree_node_id),
        after.forward@[potree_node_id] == node_id,
        after.backward@.contains_key(node_key(node_id)),
        after.backward@[node_key(node_id)] == potree_node_id,
{
}

/// Recording a correspondence in an octree makes both lookups give it back, leaving the
/// other octrees alone; removing the Potree node again makes both lookups give nothing,
/// still leaving the other octrees alone.
pub proof fn law_insert_then_remove(
    m0: PotreePointCloudOctreeNodes,
    m1: PotreePointCloudOctreeNodes,
    m2: PotreePointCloudOctreeNodes,
    asset: u128,
    potree_node_id: u64,
    node_id: NodeId,
)
    requires
        m0.inserted(&m1, asset, potree_node_id, node_id),
        m1.removed(&m2, asset, potree_node_id),
    ensures
        m1.forward_view().contains_key(asset),
        m1.forward_view()[asset].contains_key(potree_node_id),
        m1.forward_view()[asset][potree_node_id] == node_id,
        m1.octrees@[asset].backward@.contains_key(node_key(node_id)),
        m1.octrees@[asset].backward@[node_key(node_id)] == potree_node_id,
        m2.forward_view().contains_key(asset),
        !m2.forward_view()[asset].contains_key(potree_node_id),
        !m2.octrees@[asset].backward@.contains_key(node_key(node_id)),
        forall|a: u128| a != asset && #[trigger] m0.octrees@.contains_key(a) ==> m2.octrees@[a] == m0.octrees@[a],
{
    assert(m1.octrees@.contains_key(asset));
    assert(m1.octrees@[asset].forward@[potree_node_id] == node_id);
    assert forall|a: u128| a != asset && #[trigger] m0.octrees@.contains_key(a) implies m2.octrees@[a] == m0.octrees@[a] by {
        assert(m1.octrees@.contains_key(a));
    }
}

} // verus!
