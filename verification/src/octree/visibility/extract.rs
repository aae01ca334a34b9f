//! Extraction of the visible nodes of octrees into the render world.
use crate::octree::asset::{Octree, OctreeNode};
use crate::octree::render_asset::RenderOctree;
use crate::octree::storage::{lemma_node_key_injective, node_key, NodeId};
use crate::octree::visibility::VisibleOctreeNode;
use crate::octree::new_asset::extract::resources::{lists_view, nodes_or_empty};
use crate::octree::visibility::prepare::{roots_kept, with_octree, RenderOctrees};
use std::collections::{HashMap, HashSet};
use vstd::prelude::*;

verus! {

broadcast use vstd::std_specs::hash::group_hash_axioms;

/// Describes how the data of an octree node is taken into the render world.
pub trait ExtractOctreeNode: Sized {
    /// The main-world data the extraction reads besides the node.
    type Item;
    /// What the render world keeps of a node.
    type Out;

    /// The render-world data of `node`, or `None` to leave the node out.
    fn extract_octree_node(node: &OctreeNode<Self>, item: &Self::Item) -> Option<Self::Out>;
}

/// The render-world node made from node `n`, with data `d`.
pub open spec fn render_node_of<T, O>(n: OctreeNode<T>, d: O) -> OctreeNode<O> {
    OctreeNode {
        id: n.id,
        child_index: n.child_index,
        parent_id: n.parent_id,
        children: n.children,
        children_mask: n.children_mask,
        bounding_box: n.bounding_box,
        data: d,
    }
}

/// The extracted nodes, and the handles of the nodes added and modified, after taking the
/// first `n` visible nodes into account; `outs[i]` is what the extraction of the `i`-th
/// visible node gave, when it was asked.
pub open spec fn extracted_after<T, O>(
    prepared: Set<u128>,
    octree: Octree<T>,
    nodes: Map<u128, OctreeNode<O>>,
    visible: Seq<VisibleOctreeNode>,
    outs: Seq<Option<O>>,
    n: int,
) -> (Map<u128, OctreeNode<O>>, Seq<NodeId>, Seq<NodeId>)
    decreases n,
{
    if n <= 0 {
        (nodes, Seq::empty(), Seq::empty())
    } else {
        let prev = extracted_after(prepared, octree, nodes, visible, outs, n - 1);
        let v = visible[n - 1].id;
        let k = node_key(v);
        let h = octree.node(v);
        if prepared.contains(k) || !octree.contains(v) {
            prev
        } else if prev.0.contains_key(k) {
            let e = prev.0[k];
            if e.children@ != h.children@ {
                (
                    prev.0.insert(k, OctreeNode { children: h.children, children_mask: h.children_mask, ..e }),
                    prev.1,
                    prev.2.push(v),
                )
            } else {
                prev
            }
        } else {
            match outs[n - 1] {
                Some(d) => (prev.0.insert(k, render_node_of(h, d)), prev.1.push(v), prev.2),
                None => prev,
            }
        }
    }
}

/// Over the first `n` visible nodes, the render node under the key of node `v` (not
/// prepared, in the octree) is either the one given, untouched, or carries the children
/// and the children mask of `v`'s octree node.
proof fn lemma_key_follows_octree<T, O>(
    prepared: Set<u128>,
    octree: Octree<T>,
    nodes: Map<u128, OctreeNode<O>>,
    visible: Seq<VisibleOctreeNode>,
    outs: Seq<Option<O>>,
    n: int,
    v: NodeId,
)
    requires
        n <= visible.len(),
        !prepared.contains(node_key(v)),
        octree.contains(v),
    ensures
        ({
            let r = extracted_after(prepared, octree, nodes, visible, outs, n).0;
            let k = node_key(v);
            let h = octree.node(v);
            r.contains_key(k) ==> (nodes.contains_key(k) && r[k] == nodes[k]) || (r[k].children@ == h.children@
                && r[k].children_mask == h.children_mask)
        }),
    decreases n,
{
    if n > 0 {
        lemma_key_follows_octree(prepared, octree, nodes, visible, outs, n - 1, v);
        lemma_node_key_injective(visible[n - 1].id, v);
    }
}

/// Once visible node `j` (not prepared, in the octree) was taken into account, the render
/// node under its key, when there is one, has the children of its octree node.
proof fn lemma_children_follow_octree<T, O>(
    prepared: Set<u128>,
    octree: Octree<T>,
    nodes: Map<u128, OctreeNode<O>>,
    visible: Seq<VisibleOctreeNode>,
    outs: Seq<Option<O>>,
    n: int,
    j: int,
)
    requires
        0 <= j < n <= visible.len(),
        !prepared.contains(node_key(visible[j].id)),
        octree.contains(visible[j].id),
    ensures
        ({
            let r = extracted_after(prepared, octree, nodes, visible, outs, n).0;
            let k = node_key(visible[j].id);
            r.contains_key(k) ==> r[k].children@ == octree.node(visible[j].id).children@
        }),
    decreases n,
{
    lemma_node_key_injective(visible[n - 1].id, visible[j].id);
    if n - 1 > j {
        lemma_children_follow_octree(prepared, octree, nodes, visible, outs, n - 1, j);
    }
}

/// After the extraction, a visible node that is not prepared, is in the octree and is in
/// the render world has the children of its octree node, and the children mask of its
/// octree node too, unless the render world kept the node it had, untouched, because its
/// children had not changed.
pub proof fn law_extracted_nodes_follow_octree<T, O>(
    prepared: Set<u128>,
    octree: Octree<T>,
    nodes: Map<u128, OctreeNode<O>>,
    visible: Seq<VisibleOctreeNode>,
    outs: Seq<Option<O>>,
    j: int,
)
    requires
        0 <= j < visible.len(),
        !prepared.contains(node_key(visible[j].id)),
        octree.contains(visible[j].id),
    ensures
        ({
            let r = extracted_after(prepared, octree, nodes, visible, outs, visible.len() as int).0;
            let k = node_key(visible[j].id);
            let h = octree.node(visible[j].id);
            r.contains_key(k) ==> {
                &&& r[k].children@ == h.children@
                &&& (r[k].children_mask == h.children_mask || (nodes.contains_key(k) && r[k] == nodes[k]))
            }
        }),
{
    lemma_key_follows_octree(prepared, octree, nodes, visible, outs, visible.len() as int, visible[j].id);
    lemma_children_follow_octree(prepared, octree, nodes, visible, outs, visible.len() as int, j);
}

/// Only the outcomes of the first `n` visible nodes matter after `n` of them.
pub proof fn lemma_extracted_prefix<T, O>(
    prepared: Set<u128>,
    octree: Octree<T>,
    nodes: Map<u128, OctreeNode<O>>,
    visible: Seq<VisibleOctreeNode>,
    outs1: Seq<Option<O>>,
    outs2: Seq<Option<O>>,
    n: int,
)
    requires
        n <= outs1.len(),
        n <= outs2.len(),
        forall|j: int| 0 <= j < n ==> outs1[j] == outs2[j],
    ensures
        extracted_after(prepared, octree, nodes, visible, outs1, n) == extracted_after(
            prepared,
            octree,
            nodes,
            visible,
            outs2,
            n,
        ),
    decreases n,
{
    if n > 0 {
        lemma_extracted_prefix(prepared, octree, nodes, visible, outs1, outs2, n - 1);
    }
}

/// Every outcome in `outs` that `extracted_after` uses is what `T::extract_octree_node`
/// gave on the octree's node and `item`, when the extraction was asked.
pub open spec fn extraction_asked<T: ExtractOctreeNode>(
    prepared: Set<u128>,
    octree: Octree<T>,
    nodes: Map<u128, OctreeNode<T::Out>>,
    visible: Seq<VisibleOctreeNode>,
    outs: Seq<Option<T::Out>>,
    item: T::Item,
    n: int,
) -> bool
    decreases n,
{
    if n <= 0 {
        true
    } else {
        let prev = extracted_after(prepared, octree, nodes, visible, outs, n - 1);
        let v = visible[n - 1].id;
        &&& extraction_asked(prepared, octree, nodes, visible, outs, item, n - 1)
        &&& (!prepared.contains(node_key(v)) && octree.contains(v) && !prev.0.contains_key(node_key(v)))
            ==> call_ensures(T::extract_octree_node, (&octree.node(v), &item), outs[n - 1])
    }
}

/// Only the outcomes of the first `n` visible nodes matter to `extraction_asked` after
/// `n` of them.
pub proof fn lemma_asked_prefix<T: ExtractOctreeNode>(
    prepared: Set<u128>,
    octree: Octree<T>,
    nodes: Map<u128, OctreeNode<T::Out>>,
    visible: Seq<VisibleOctreeNode>,
    outs1: Seq<Option<T::Out>>,
    outs2: Seq<Option<T::Out>>,
    item: T::Item,
    n: int,
)
    requires
        n <= outs1.len(),
        n <= outs2.len(),
        forall|j: int| 0 <= j < n ==> outs1[j] == outs2[j],
    ensures
        extraction_asked(prepared, octree, nodes, visible, outs1, item, n) == extraction_asked(
            prepared,
            octree,
            nodes,
            visible,
            outs2,
            item,
            n,
        ),
    decreases n,
{
    if n > 0 {
        lemma_asked_prefix(prepared, octree, nodes, visible, outs1, outs2, item, n - 1);
        lemma_extracted_prefix(prepared, octree, nodes, visible, outs1, outs2, n - 1);
    }
}

/// Takes what the extraction of the node `node_id`, `n`, gave (`out`): extracted data
/// makes a render-world node, stored under the node's key and listed as added; no data
/// leaves both as they were.
pub fn apply_extraction<T, O>(
    render_nodes: &mut HashMap<u128, OctreeNode<O>>,
    added: &mut Vec<NodeId>,
    node_id: NodeId,
    n: &OctreeNode<T>,
    out: Option<O>,
)
    ensures
        match out {
            Some(d) => {
                &&& final(render_nodes)@ == old(render_nodes)@.insert(node_key(node_id), render_node_of(*n, d))
                &&& final(added)@ == old(added)@.push(node_id)
            },
            None => final(render_nodes)@ == old(render_nodes)@ && final(added)@ == old(added)@,
        },
{
    match out {
        Some(data) => {
            added.push(node_id);
            render_nodes.insert(
                node_id.key(),
                OctreeNode {
                    id: n.id,
                    child_index: n.child_index,
                    parent_id: n.parent_id,
                    children: n.children,
                    children_mask: n.children_mask,
                    bounding_box: n.bounding_box,
                    data,
                },
            );
        },
        None => {},
    }
}

/// Whether two child arrays are equal.
fn same_children(a: &[NodeId; 8], b: &[NodeId; 8]) -> (r: bool)
    ensures
        r == (a@ == b@),
{
    let mut i: usize = 0;
    while i < 8
        invariant
            i <= 8,
            forall|j: int| 0 <= j < i ==> a[j] == b[j],
        decreases 8 - i,
    {
        if a[i] != b[i] {
            return false;
        }
        i = i + 1;
    }
    proof {
        assert(a@ =~= b@);
    }
    true
}

/// Takes the visible nodes of an octree into the render world: a node already prepared,
/// or missing from the octree, is passed over; a node already extracted gets the children
/// of the octree's node, and is listed as modified when they changed; another node is
/// extracted and listed as added, unless the extraction leaves it out.
pub fn extract_visible_nodes<T: ExtractOctreeNode, A>(
    octree: &Octree<T>,
    prepared: &RenderOctree<A>,
    render_nodes: &mut HashMap<u128, OctreeNode<T::Out>>,
    visible: &Vec<VisibleOctreeNode>,
    item: &T::Item,
) -> (r: (Vec<NodeId>, Vec<NodeId>))
    requires
        octree.wf(),
    ensures
        exists|outs: Seq<Option<T::Out>>| #[trigger] extracted_after(
            prepared.nodes@.dom(),
            *octree,
            old(render_nodes)@,
            visible@,
            outs,
            visible@.len() as int,
        ) == (final(render_nodes)@, r.0@, r.1@) && extraction_asked::<T>(
            prepared.nodes@.dom(),
            *octree,
            old(render_nodes)@,
            visible@,
            outs,
            *item,
            visible@.len() as int,
        ),
        forall|j: int|
            0 <= j < visible@.len() && !prepared.nodes@.dom().contains(node_key(visible@[j].id)) && octree.contains(
                visible@[j].id,
            ) && final(render_nodes)@.contains_key(#[trigger] node_key(visible@[j].id)) ==> {
                &&& final(render_nodes)@[node_key(visible@[j].id)].children@ == octree.node(visible@[j].id).children@
                &&& (final(render_nodes)@[node_key(visible@[j].id)].children_mask == octree.node(
                    visible@[j].id,
                ).children_mask || (old(render_nodes)@.contains_key(node_key(visible@[j].id))
                    && final(render_nodes)@[node_key(visible@[j].id)] == old(render_nodes)@[node_key(visible@[j].id)]))
            },
{
    let ghost start = render_nodes@;
    let ghost pset = prepared.nodes@.dom();
    let ghost mut outs: Seq<Option<T::Out>> = Seq::empty();
    let mut added: Vec<NodeId> = Vec::new();
    let mut modified: Vec<NodeId> = Vec::new();
    let mut i: usize = 0;
    while i < visible.len()
        invariant
            i <= visible@.len(),
            outs.len() == i,
            pset == prepared.nodes@.dom(),
            octree.wf(),
            extracted_after(pset, *octree, start, visible@, outs, i as int) == (render_nodes@, added@, modified@),
            extraction_asked::<T>(pset, *octree, start, visible@, outs, *item, i as int),
        decreases visible@.len() - i,
    {
        let node_id = visible[i].id;
        let key = node_id.key();
        let ghost prev = (render_nodes@, added@, modified@);
        let ghost mut out: Option<T::Out> = None;
        if !prepared.contains(node_id) {
            match octree.get(node_id) {
                Some(octree_node) => {
                    match render_nodes.remove(&key) {
                        Some(mut node) => {
                            if !same_children(&node.children, &octree_node.children) {
                                node.children = octree_node.children;
                                node.children_mask = octree_node.children_mask;
                                modified.push(node_id);
                            }
                            render_nodes.insert(key, node);
                            proof {
                                assert(render_nodes@ =~= prev.0.insert(key, node));
                            }
                        },
                        None => {
                            let extracted = T::extract_octree_node(octree_node, item);
                            proof {
                                assert(call_ensures(T::extract_octree_node, (octree_node, item), extracted));
                            }
                            proof {
                                out = extracted;
                            }
                            apply_extraction(render_nodes, &mut added, node_id, octree_node, extracted);
                        },
                    }
                },
                None => {},
            }
        }
        proof {
            let outs2 = outs.push(out);
            lemma_extracted_prefix(pset, *octree, start, visible@, outs, outs2, i as int);
            lemma_asked_prefix::<T>(pset, *octree, start, visible@, outs, outs2, *item, i as int);
            assert(outs2[i as int] == out);
            outs = outs2;
        }
        i = i + 1;
    }
    proof {
        assert forall|j: int|
            0 <= j < visible@.len() && !pset.contains(node_key(visible@[j].id)) && octree.contains(visible@[j].id)
                && render_nodes@.contains_key(#[trigger] node_key(visible@[j].id)) implies {
            &&& render_nodes@[node_key(visible@[j].id)].children@ == octree.node(visible@[j].id).children@
            &&& (render_nodes@[node_key(visible@[j].id)].children_mask == octree.node(visible@[j].id).children_mask
                || (start.contains_key(node_key(visible@[j].id)) && render_nodes@[node_key(visible@[j].id)]
                == start[node_key(visible@[j].id)]))
        } by {
            law_extracted_nodes_follow_octree(pset, *octree, start, visible@, outs, j);
        }
    }
    (added, modified)
}

/// The extracted nodes of each octree asset (by node key), the nodes already prepared,
/// and the handles of the nodes removed, modified and added this frame.
pub struct ExtractedOctreeNodes<T: ExtractOctreeNode> {
    pub octrees: HashMap<u128, HashMap<u128, OctreeNode<T::Out>>>,
    /// The keys of the nodes already prepared in the render world, per asset.
    pub prepared_octrees: HashMap<u128, HashSet<u128>>,
    pub removed_nodes: HashMap<u128, Vec<NodeId>>,
    pub modified_nodes: HashMap<u128, Vec<NodeId>>,
    pub added_nodes: HashMap<u128, Vec<NodeId>>,
}

impl<T: ExtractOctreeNode> Default for ExtractedOctreeNodes<T> {
    /// Nothing extracted.
    fn default() -> (r: Self)
        ensures
            r.octrees@.dom().is_empty(),
            r.prepared_octrees@.dom().is_empty(),
            r.removed_nodes@.dom().is_empty(),
            r.modified_nodes@.dom().is_empty(),
            r.added_nodes@.dom().is_empty(),
    {
        let r = ExtractedOctreeNodes {
            octrees: HashMap::new(),
            prepared_octrees: HashMap::new(),
            removed_nodes: HashMap::new(),
            modified_nodes: HashMap::new(),
            added_nodes: HashMap::new(),
        };
        proof {
            assert(r.octrees@.dom() =~= Set::<u128>::empty());
            assert(r.prepared_octrees@.dom() =~= Set::<u128>::empty());
            assert(r.removed_nodes@.dom() =~= Set::<u128>::empty());
        }
        r
    }
}

impl<T: ExtractOctreeNode> ExtractedOctreeNodes<T> {
    /// The extracted nodes of each asset, by node key.
    pub open spec fn view_octrees(&self) -> Map<u128, Map<u128, OctreeNode<T::Out>>> {
        self.octrees@.map_values(|m: HashMap<u128, OctreeNode<T::Out>>| m@)
    }

    /// Forgets this frame's lists of removed, modified and added nodes; the extracted and
    /// prepared nodes stay.
    pub fn clear_all(&mut self)
        ensures
            final(self).added_nodes@ == Map::<u128, Vec<NodeId>>::empty(),
            final(self).modified_nodes@ == Map::<u128, Vec<NodeId>>::empty(),
            final(self).removed_nodes@ == Map::<u128, Vec<NodeId>>::empty(),
            final(self).octrees@ == old(self).octrees@,
            final(self).prepared_octrees@ == old(self).prepared_octrees@,
    {
        self.added_nodes.clear();
        self.modified_nodes.clear();
        self.removed_nodes.clear();
    }

    /// The extracted nodes of `asset`, made empty when it has none.
    pub fn get_or_create_mut(&mut self, asset: u128) -> (r: &mut HashMap<u128, OctreeNode<T::Out>>)
        ensures
            r@ == nodes_or_empty(old(self).view_octrees(), asset),
            final(self).octrees@ == old(self).octrees@.insert(asset, *final(r)),
            final(self).prepared_octrees@ == old(self).prepared_octrees@,
            final(self).removed_nodes@ == old(self).removed_nodes@,
            final(self).modified_nodes@ == old(self).modified_nodes@,
            final(self).added_nodes@ == old(self).added_nodes@,
    {
        self.octrees.entry(asset).or_insert(HashMap::new())
    }
}

/// Extracts the visible nodes of the octree of `asset` (see [`extract_visible_nodes`]):
/// the asset gets a prepared octree in `render_octrees` when it has none, its extracted
/// nodes are updated, and its lists of added and modified nodes are this extraction's,
/// with no removed node. Other assets keep their entries.
pub fn extract_octree_nodes<T: ExtractOctreeNode, A>(
    render_octrees: &mut RenderOctrees<A>,
    extracted: &mut ExtractedOctreeNodes<T>,
    asset: u128,
    octree: &Octree<T>,
    visible: &Vec<VisibleOctreeNode>,
    item: &T::Item,
)
    requires
        octree.wf(),
    ensures
        final(render_octrees).view_octrees() == with_octree(old(render_octrees).view_octrees(), asset),
        roots_kept(old(render_octrees).octrees@, final(render_octrees).octrees@),
        final(extracted).view_octrees().dom() == old(extracted).view_octrees().dom().insert(asset),
        forall|a: u128| a != asset && #[trigger] old(extracted).view_octrees().contains_key(a)
            ==> final(extracted).view_octrees()[a] == old(extracted).view_octrees()[a],
        lists_view(final(extracted).added_nodes@) == lists_view(old(extracted).added_nodes@).insert(
            asset,
            lists_view(final(extracted).added_nodes@)[asset],
        ),
        lists_view(final(extracted).modified_nodes@) == lists_view(old(extracted).modified_nodes@).insert(
            asset,
            lists_view(final(extracted).modified_nodes@)[asset],
        ),
        lists_view(final(extracted).removed_nodes@) == lists_view(old(extracted).removed_nodes@).insert(
            asset,
            Seq::<NodeId>::empty(),
        ),
        final(extracted).prepared_octrees@ == old(extracted).prepared_octrees@,
        exists|outs: Seq<Option<T::Out>>| #[trigger] extracted_after(
            with_octree(old(render_octrees).view_octrees(), asset)[asset].dom(),
            *octree,
            nodes_or_empty(old(extracted).view_octrees(), asset),
            visible@,
            outs,
            visible@.len() as int,
        ) == (
            final(extracted).view_octrees()[asset],
            lists_view(final(extracted).added_nodes@)[asset],
            lists_view(final(extracted).modified_nodes@)[asset],
        ) && extraction_asked::<T>(
            with_octree(old(render_octrees).view_octrees(), asset)[asset].dom(),
            *octree,
            nodes_or_empty(old(extracted).view_octrees(), asset),
            visible@,
            outs,
            *item,
            visible@.len() as int,
        ),
{
    render_octrees.get_or_insert(asset);
    let prepared = match render_octrees.get(asset) {
        Some(p) => p,
        None => {
            proof {
                assert(render_octrees.view_octrees().contains_key(asset));
            }
            return;
        },
    };
    let ghost before_nodes = extracted.octrees@;
    let ghost pset = prepared.nodes@.dom();
    assert(pset == with_octree(old(render_octrees).view_octrees(), asset)[asset].dom());
    let render_nodes = extracted.get_or_create_mut(asset);
    let ghost start = render_nodes@;
    let (added, modified) = extract_visible_nodes(octree, prepared, render_nodes, visible, item);
    let ghost end = render_nodes@;
    let ghost outs = choose|outs: Seq<Option<T::Out>>| #[trigger] extracted_after(
        pset,
        *octree,
        start,
        visible@,
        outs,
        visible@.len() as int,
    ) == (end, added@, modified@) && extraction_asked::<T>(pset, *octree, start, visible@, outs, *item, visible@.len() as int);
    extracted.added_nodes.insert(asset, added);
    extracted.modified_nodes.insert(asset, modified);
    extracted.removed_nodes.insert(asset, Vec::new());
    proof {
        let fv = extracted.view_octrees();
        let ov = old(extracted).view_octrees();
        assert(fv[asset] == end);
        assert(extracted_after(pset, *octree, nodes_or_empty(ov, asset), visible@, outs, visible@.len() as int) == (
            fv[asset],
            lists_view(extracted.added_nodes@)[asset],
            lists_view(extracted.modified_nodes@)[asset],
        ));
        assert(fv.dom() =~= ov.dom().insert(asset));
        assert forall|a: u128| a != asset && #[trigger] ov.contains_key(a) implies fv[a] == ov[a] by {
            assert(extracted.octrees@[a] == before_nodes[a]);
        }
        assert(lists_view(extracted.added_nodes@) =~= lists_view(old(extracted).added_nodes@).insert(
            asset,
            lists_view(extracted.added_nodes@)[asset],
        ));
        assert(lists_view(extracted.modified_nodes@) =~= lists_view(old(extracted).modified_nodes@).insert(
            asset,
            lists_view(extracted.modified_nodes@)[asset],
        ));
        assert(lists_view(extracted.removed_nodes@) =~= lists_view(old(extracted).removed_nodes@).insert(
            asset,
            Seq::<NodeId>::empty(),
        ));
    }
}

} // verus!
