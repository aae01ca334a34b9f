//! The nodes extracted into the render world, per octree asset.
use super::prepare::{roots_kept, with_octree, RenderOctrees};
use super::render_asset::RenderOctreeNodeData;
use super::{extract_visible_nodes, extracted_after, extraction_asked, ExtractOctreeNode};
use crate::octree::new_asset::asset::NewOctree;
use crate::octree::new_asset::visibility::components::VisibleOctreeNode;
use crate::octree::storage::NodeId;
use std::collections::{HashMap, HashSet};
use vstd::prelude::*;

verus! {

broadcast use vstd::std_specs::hash::group_hash_axioms;

/// The extracted nodes of each octree asset (by node key), the nodes already prepared,
/// and the handles of the nodes removed, modified and added this frame.
pub struct ExtractedOctreeNodes<T: ExtractOctreeNode> {
    pub octrees: HashMap<u128, HashMap<u128, RenderOctreeNodeData<T::Out>>>,
    /// The keys of the nodes already prepared in the render world, per asset.
    pub prepared_octrees: HashMap<u128, HashSet<u128>>,
    pub removed_nodes: HashMap<u128, Vec<NodeId>>,
    pub modified_nodes: HashMap<u128, Vec<NodeId>>,
    pub added_nodes: HashMap<u128, Vec<NodeId>>,
}

/// The handle lists of a map from assets to lists.
pub open spec fn lists_view(m: Map<u128, Vec<NodeId>>) -> Map<u128, Seq<NodeId>> {
    m.map_values(|v: Vec<NodeId>| v@)
}

/// The extracted nodes of `m` for `asset`, none when it has no entry.
pub open spec fn nodes_or_empty<V>(m: Map<u128, Map<u128, V>>, asset: u128) -> Map<u128, V> {
    if m.contains_key(asset) {
        m[asset]
    } else {
        Map::empty()
    }
}

impl<T: ExtractOctreeNode> Default for ExtractedOctreeNodes<T> {
    /// Nothing extracted.
    fn default() -> (r: Self)
        ensures
            r.octrees@.dom().is_empty(),
            r.prepared_octrees@.dom().is_empty(),
            r.removed_nodes@.dom().is_empty(),
            r.modified_nodes@.dom().is_empty(),
            r.added_nodes@.dom().is_empty(),
    {
        let r = ExtractedOctreeNodes {
            octrees: HashMap::new(),
            prepared_octrees: HashMap::new(),
            removed_nodes: HashMap::new(),
            modified_nodes: HashMap::new(),
            added_nodes: HashMap::new(),
        };
        proof {
            assert(r.octrees@.dom() =~= Set::<u128>::empty());
            assert(r.prepared_octrees@.dom() =~= Set::<u128>::empty());
            assert(r.removed_nodes@.dom() =~= Set::<u128>::empty());
        }
        r
    }
}

impl<T: ExtractOctreeNode> ExtractedOctreeNodes<T> {
    /// The extracted nodes of each asset, by node key.
    pub open spec fn view_octrees(&self) -> Map<u128, Map<u128, RenderOctreeNodeData<T::Out>>> {
        self.octrees@.map_values(|m: HashMap<u128, RenderOctreeNodeData<T::Out>>| m@)
    }

    /// Forgets this frame's lists of removed, modified and added nodes; the extracted and
    /// prepared nodes stay.
    pub fn clear_all(&mut self)
        ensures
            final(self).added_nodes@ == Map::<u128, Vec<NodeId>>::empty(),
            final(self).modified_nodes@ == Map::<u128, Vec<NodeId>>::empty(),
            final(self).removed_nodes@ == Map::<u128, Vec<NodeId>>::empty(),
            final(self).octrees@ == old(self).octrees@,
            final(self).prepared_octrees@ == old(self).prepared_octrees@,
    {
        self.added_nodes.clear();
        self.modified_nodes.clear();
        self.removed_nodes.clear();
    }

    /// The extracted nodes of `asset`, made empty when it has none.
    pub fn get_or_create_mut(&mut self, asset: u128) -> (r: &mut HashMap<u128, RenderOctreeNodeData<T::Out>>)
        ensures
            r@ == nodes_or_empty(old(self).view_octrees(), asset),
            final(self).octrees@ == old(self).octrees@.insert(asset, *final(r)),
            final(self).prepared_octrees@ == old(self).prepared_octrees@,
            final(self).removed_nodes@ == old(self).removed_nodes@,
            final(self).modified_nodes@ == old(self).modified_nodes@,
            final(self).added_nodes@ == old(self).added_nodes@,
    {
        self.octrees.entry(asset).or_insert(HashMap::new())
    }
}

/// Extracts the visible nodes of the octree of `asset` (see [`extract_visible_nodes`]):
/// the asset gets a prepared octree in `render_octrees` when it has none, its extracted
/// nodes are updated, and its lists of added and modified nodes are this extraction's,
/// with no removed node. Other assets keep their entries.
pub fn extract_octree_nodes<T: ExtractOctreeNode, A>(
    render_octrees: &mut RenderOctrees<A>,
    extracted: &mut ExtractedOctreeNodes<T>,
    asset: u128,
    octree: &NewOctree<T::Hierarchy, T>,
    visible: &Vec<VisibleOctreeNode>,
    item: &T::Item,
)
    requires
        octree.wf(),
    ensures
        final(render_octrees).view_octrees() == with_octree(old(render_octrees).view_octrees(), asset),
        roots_kept(old(render_octrees).octrees@, final(render_octrees).octrees@),
        final(extracted).view_octrees().dom() == old(extracted).view_octrees().dom().insert(asset),
        forall|a: u128| a != asset && #[trigger] old(extracted).view_octrees().contains_key(a)
            ==> final(extracted).view_octrees()[a] == old(extracted).view_octrees()[a],
        lists_view(final(extracted).added_nodes@) == lists_view(old(extracted).added_nodes@).insert(
            asset,
            lists_view(final(extracted).added_nodes@)[asset],
        ),
        lists_view(final(extracted).modified_nodes@) == lists_view(old(extracted).modified_nodes@).insert(
            asset,
            lists_view(final(extracted).modified_nodes@)[asset],
        ),
        lists_view(final(extracted).removed_nodes@) == lists_view(old(extracted).removed_nodes@).insert(
            asset,
            Seq::<NodeId>::empty(),
        ),
        final(extracted).prepared_octrees@ == old(extracted).prepared_octrees@,
        exists|outs: Seq<Option<T::Out>>| #[trigger] extracted_after(
            with_octree(old(render_octrees).view_octrees(), asset)[asset].dom(),
            *octree,
            nodes_or_empty(old(extracted).view_octrees(), asset),
            visible@,
            outs,
            visible@.len() as int,
        ) == (
            final(extracted).view_octrees()[asset],
            lists_view(final(extracted).added_nodes@)[asset],
            lists_view(final(extracted).modified_nodes@)[asset],
        ) && extraction_asked::<T>(
            with_octree(old(render_octrees).view_octrees(), asset)[asset].dom(),
            *octree,
            nodes_or_empty(old(extracted).view_octrees(), asset),
            visible@,
            outs,
            *item,
            visible@.len() as int,
        ),
{
    render_octrees.get_or_insert(asset);
    let prepared = match render_octrees.get(asset) {
        Some(p) => p,
        None => {
            proof {
                assert(render_octrees.view_octrees().contains_key(asset));
            }
            return;
        },
    };
    let ghost before_nodes = extracted.octrees@;
    let ghost pset = prepared.view_nodes().dom();
    assert(pset == with_octree(old(render_octrees).view_octrees(), asset)[asset].dom());
    let render_nodes = extracted.get_or_create_mut(asset);
    let ghost start = render_nodes@;
    let (added, modified) = extract_visible_nodes(octree, prepared, render_nodes, visible, item);
    let ghost end = render_nodes@;
    let ghost outs = choose|outs: Seq<Option<T::Out>>| #[trigger] extracted_after(
        pset,
        *octree,
        start,
        visible@,
        outs,
        visible@.len() as int,
    ) == (end, added@, modified@) && extraction_asked::<T>(pset, *octree, start, visible@, outs, *item, visible@.len() as int);
    extracted.added_nodes.insert(asset, added);
    extracted.modified_nodes.insert(asset, modified);
    extracted.removed_nodes.insert(asset, Vec::new());
    proof {
        let fv = extracted.view_octrees();
        let ov = old(extracted).view_octrees();
        assert(fv[asset] == end);
        assert(extracted_after(pset, *octree, nodes_or_empty(ov, asset), visible@, outs, visible@.len() as int) == (
            fv[asset],
            lists_view(extracted.added_nodes@)[asset],
            lists_view(extracted.modified_nodes@)[asset],
        ));
        assert(fv.dom() =~= ov.dom().insert(asset));
        assert forall|a: u128| a != asset && #[trigger] ov.contains_key(a) implies fv[a] == ov[a] by {
            assert(extracted.octrees@[a] == before_nodes[a]);
        }
        assert(lists_view(extracted.added_nodes@) =~= lists_view(old(extracted).added_nodes@).insert(
            asset,
            lists_view(extracted.added_nodes@)[asset],
        ));
        assert(lists_view(extracted.modified_nodes@) =~= lists_view(old(extracted).modified_nodes@).insert(
            asset,
            lists_view(extracted.modified_nodes@)[asset],
        ));
        assert(lists_view(extracted.removed_nodes@) =~= lists_view(old(extracted).removed_nodes@).insert(
            asset,
            Seq::<NodeId>::empty(),
        ));
    }
}

} // verus!
