//! Extraction of visible octree nodes into the render world.
use crate::octree::new_asset::asset::NewOctree;
use crate::octree::new_asset::hierarchy::{HierarchyNodeData, HierarchyOctreeNode};
use crate::octree::new_asset::node::{NodeData, OctreeNode};
use crate::octree::new_asset::visibility::components::VisibleOctreeNode;
use crate::octree::storage::{lemma_node_key_injective, node_key, NodeId};
use render_asset::{RenderOctree, RenderOctreeNodeData};
use std::collections::HashMap;
use vstd::prelude::*;

pub mod limiter;
pub mod prepare;
pub mod render_asset;
pub mod resources;

pub use crate::octree::visibility::{iter_one_bits, RenderOctreeIndex};

verus! {

broadcast use vstd::std_specs::hash::group_hash_axioms;

/// Describes how an octree node is taken into the render world.
pub trait ExtractOctreeNode: Sized + NodeData {
    /// The hierarchy data of the octree's nodes.
    type Hierarchy: HierarchyNodeData;
    /// The main-world data the extraction reads besides the node.
    type Item;
    /// What the render world keeps of a node.
    type Out;

    /// The render-world data of `node`, or `None` to leave the node out.
    fn extract_octree_node(node: &OctreeNode<Self::Hierarchy, Self>, item: &Self::Item) -> Option<Self::Out>;
}

/// The render-world node made from hierarchy node `h`, with data `d`.
pub open spec fn render_node_of<H, O>(h: HierarchyOctreeNode<H>, d: O) -> RenderOctreeNodeData<O> {
    RenderOctreeNodeData {
        id: h.id,
        child_index: h.child_index,
        parent_id: h.parent_id,
        children: h.children,
        children_mask: h.children_mask,
        bounding_box: h.bounding_box,
        depth: h.depth,
        data: d,
    }
}

/// The extracted nodes, and the handles of the nodes added and modified, after taking the
/// first `n` visible nodes into account; `outs[i]` is what the extraction of the `i`-th
/// visible node gave, when it was asked.
pub open spec fn extracted_after<H: HierarchyNodeData, T: NodeData, O>(
    prepared: Set<u128>,
    octree: NewOctree<H, T>,
    nodes: Map<u128, RenderOctreeNodeData<O>>,
    visible: Seq<VisibleOctreeNode>,
    outs: Seq<Option<O>>,
    n: int,
) -> (Map<u128, RenderOctreeNodeData<O>>, Seq<NodeId>, Seq<NodeId>)
    decreases n,
{
    if n <= 0 {
        (nodes, Seq::empty(), Seq::empty())
    } else {
        let prev = extracted_after(prepared, octree, nodes, visible, outs, n - 1);
        let v = visible[n - 1].id;
        let k = node_key(v);
        let h = octree.node_at(v).hierarchy;
        if prepared.contains(k) || !octree.contains(v) {
            prev
        } else if prev.0.contains_key(k) {
            let e = prev.0[k];
            if e.children@ != h.children@ {
                (
                    prev.0.insert(k, RenderOctreeNodeData { children: h.children, children_mask: h.children_mask, ..e }),
                    prev.1,
                    prev.2.push(v),
                )
            } else {
                prev
            }
        } else {
            match outs[n - 1] {
                Some(d) => (prev.0.insert(k, render_node_of(h, d)), prev.1.push(v), prev.2),
                None => prev,
            }
        }
    }
}

/// Only the outcomes of the first `n` visible nodes matter after `n` of them.
pub proof fn lemma_extracted_prefix<H: HierarchyNodeData, T: NodeData, O>(
    prepared: Set<u128>,
    octree: NewOctree<H, T>,
    nodes: Map<u128, RenderOctreeNodeData<O>>,
    visible: Seq<VisibleOctreeNode>,
    outs1: Seq<Option<O>>,
    outs2: Seq<Option<O>>,
    n: int,
)
    requires
        n <= outs1.len(),
        n <= outs2.len(),
        forall|j: int| 0 <= j < n ==> outs1[j] == outs2[j],
    ensures
        extracted_after(prepared, octree, nodes, visible, outs1, n) == extracted_after(
            prepared,
            octree,
            nodes,
            visible,
            outs2,
            n,
        ),
    decreases n,
{
    if n > 0 {
        lemma_extracted_prefix(prepared, octree, nodes, visible, outs1, outs2, n - 1);
    }
}

/// Over the first `n` visible nodes, the render node under the key of node `v` (not
/// prepared, in the octree) is either the one given, untouched, or carries the children
/// and the children mask of `v`'s octree node.
proof fn lemma_key_follows_octree<H: HierarchyNodeData, T: NodeData, O>(
    prepared: Set<u128>,
    octree: NewOctree<H, T>,
    nodes: Map<u128, RenderOctreeNodeData<O>>,
    visible: Seq<VisibleOctreeNode>,
    outs: Seq<Option<O>>,
    n: int,
    v: NodeId,
)
    requires
        n <= visible.len(),
        !prepared.contains(node_key(v)),
        octree.contains(v),
    ensures
        ({
            let r = extracted_after(prepared, octree, nodes, visible, outs, n).0;
            let k = node_key(v);
            let h = octree.node_at(v).hierarchy;
            r.contains_key(k) ==> (nodes.contains_key(k) && r[k] == nodes[k]) || (r[k].children@ == h.children@
                && r[k].children_mask == h.children_mask)
        }),
    decreases n,
{
    if n > 0 {
        lemma_key_follows_octree(prepared, octree, nodes, visible, outs, n - 1, v);
        lemma_node_key_injective(visible[n - 1].id, v);
    }
}

/// Once visible node `j` (not prepared, in the octree) was taken into account, the render
/// node under its key, when there is one, has the children of its octree node.
proof fn lemma_children_follow_octree<H: HierarchyNodeData, T: NodeData, O>(
    prepared: Set<u128>,
    octree: NewOctree<H, T>,
    nodes: Map<u128, RenderOctreeNodeData<O>>,
    visible: Seq<VisibleOctreeNode>,
    outs: Seq<Option<O>>,
    n: int,
    j: int,
)
    requires
        0 <= j < n <= visible.len(),
        !prepared.contains(node_key(visible[j].id)),
        octree.contains(visible[j].id),
    ensures
        ({
            let r = extracted_after(prepared, octree, nodes, visible, outs, n).0;
            let k = node_key(visible[j].id);
            r.contains_key(k) ==> r[k].children@ == octree.node_at(visible[j].id).hierarchy.children@
        }),
    decreases n,
{
    lemma_node_key_injective(visible[n - 1].id, visible[j].id);
    if n - 1 > j {
        lemma_children_follow_octree(prepared, octree, nodes, visible, outs, n - 1, j);
    }
}

/// After the extraction, a visible node that is not prepared, is in the octree and is in
/// the render world has the children of its octree node, and the children mask of its
/// octree node too, unless the render world kept the node it had, untouched, because its
/// children had not changed.
pub proof fn law_extracted_nodes_follow_octree<H: HierarchyNodeData, T: NodeData, O>(
    prepared: Set<u128>,
    octree: NewOctree<H, T>,
    nodes: Map<u128, RenderOctreeNodeData<O>>,
    visible: Seq<VisibleOctreeNode>,
    outs: Seq<Option<O>>,
    j: int,
)
    requires
        0 <= j < visible.len(),
        !prepared.contains(node_key(visible[j].id)),
        octree.contains(visible[j].id),
    ensures
        ({
            let r = extracted_after(prepared, octree, nodes, visible, outs, visible.len() as int).0;
            let k = node_key(visible[j].id);
            let h = octree.node_at(visible[j].id).hierarchy;
            r.contains_key(k) ==> {
                &&& r[k].children@ == h.children@
                &&& (r[k].children_mask == h.children_mask || (nodes.contains_key(k) && r[k] == nodes[k]))
            }
        }),
{
    lemma_key_follows_octree(prepared, octree, nodes, visible, outs, visible.len() as int, visible[j].id);
    lemma_children_follow_octree(prepared, octree, nodes, visible, outs, visible.len() as int, j);
}

/// Every outcome in `outs` that `extracted_after` uses is what `T::extract_octree_node`
/// gave on the octree's node and `item`, when the extraction was asked.
pub open spec fn extraction_asked<T: ExtractOctreeNode>(
    prepared: Set<u128>,
    octree: NewOctree<T::Hierarchy, T>,
    nodes: Map<u128, RenderOctreeNodeData<T::Out>>,
    visible: Seq<VisibleOctreeNode>,
    outs: Seq<Option<T::Out>>,
    item: T::Item,
    n: int,
) -> bool
    decreases n,
{
    if n <= 0 {
        true
    } else {
        let prev = extracted_after(prepared, octree, nodes, visible, outs, n - 1);
        let v = visible[n - 1].id;
        &&& extraction_asked(prepared, octree, nodes, visible, outs, item, n - 1)
        &&& (!prepared.contains(node_key(v)) && octree.contains(v) && !prev.0.contains_key(node_key(v)))
            ==> call_ensures(T::extract_octree_node, (&octree.node_at(v), &item), outs[n - 1])
    }
}

/// Only the outcomes of the first `n` visible nodes matter to `extraction_asked` after
/// `n` of them.
pub proof fn lemma_asked_prefix<T: ExtractOctreeNode>(
    prepared: Set<u128>,
    octree: NewOctree<T::Hierarchy, T>,
    nodes: Map<u128, RenderOctreeNodeData<T::Out>>,
    visible: Seq<VisibleOctreeNode>,
    outs1: Seq<Option<T::Out>>,
    outs2: Seq<Option<T::Out>>,
    item: T::Item,
    n: int,
)
    requires
        n <= outs1.len(),
        n <= outs2.len(),
        forall|j: int| 0 <= j < n ==> outs1[j] == outs2[j],
    ensures
        extraction_asked(prepared, octree, nodes, visible, outs1, item, n) == extraction_asked(
            prepared,
            octree,
            nodes,
            visible,
            outs2,
            item,
            n,
        ),
    decreases n,
{
    if n > 0 {
        lemma_asked_prefix(prepared, octree, nodes, visible, outs1, outs2, item, n - 1);
        lemma_extracted_prefix(prepared, octree, nodes, visible, outs1, outs2, n - 1);
    }
}

/// Takes what the extraction of the node `node_id`, whose hierarchy is `h`, gave (`out`):
/// extracted data makes a render-world node, stored under the node's key and listed as
/// added; no data leaves both as they were.
pub fn apply_extraction<H, O>(
    render_nodes: &mut HashMap<u128, RenderOctreeNodeData<O>>,
    added: &mut Vec<NodeId>,
    node_id: NodeId,
    h: &HierarchyOctreeNode<H>,
    out: Option<O>,
)
    ensures
        match out {
            Some(d) => {
                &&& final(render_nodes)@ == old(render_nodes)@.insert(node_key(node_id), render_node_of(*h, d))
                &&& final(added)@ == old(added)@.push(node_id)
            },
            None => final(render_nodes)@ == old(render_nodes)@ && final(added)@ == old(added)@,
        },
{
    match out {
        Some(data) => {
            added.push(node_id);
            render_nodes.insert(
                node_id.key(),
                RenderOctreeNodeData {
                    id: h.id,
                    child_index: h.child_index,
                    parent_id: h.parent_id,
                    children: h.children,
                    children_mask: h.children_mask,
                    bounding_box: h.bounding_box,
                    depth: h.depth,
                    data,
                },
            );
        },
        None => {},
    }
}

/// Whether two child arrays are equal.
fn same_children(a: &[NodeId; 8], b: &[NodeId; 8]) -> (r: bool)
    ensures
        r == (a@ == b@),
{
    let mut i: usize = 0;
    while i < 8
        invariant
            i <= 8,
            forall|j: int| 0 <= j < i ==> a[j] == b[j],
        decreases 8 - i,
    {
        if a[i] != b[i] {
            return false;
        }
        i = i + 1;
    }
    proof {
        assert(a@ =~= b@);
    }
    true
}

/// Takes the visible nodes of an octree into the render world: a node already prepared,
/// or missing from the octree, is passed over; a node already extracted gets the children
/// of the octree's node, and is listed as modified when they changed; another node is
/// extracted and listed as added, unless the extraction leaves it out.
pub fn extract_visible_nodes<T: ExtractOctreeNode, A>(
    octree: &NewOctree<T::Hierarchy, T>,
    prepared: &RenderOctree<A>,
    render_nodes: &mut HashMap<u128, RenderOctreeNodeData<T::Out>>,
    visible: &Vec<VisibleOctreeNode>,
    item: &T::Item,
) -> (r: (Vec<NodeId>, Vec<NodeId>))
    requires
        octree.wf(),
    ensures
        exists|outs: Seq<Option<T::Out>>| #[trigger] extracted_after(
            prepared.view_nodes().dom(),
            *octree,
            old(render_nodes)@,
            visible@,
            outs,
            visible@.len() as int,
        ) == (final(render_nodes)@, r.0@, r.1@) && extraction_asked::<T>(
            prepared.view_nodes().dom(),
            *octree,
            old(render_nodes)@,
            visible@,
            outs,
            *item,
            visible@.len() as int,
        ),
        forall|j: int|
            0 <= j < visible@.len() && !prepared.view_nodes().dom().contains(node_key(visible@[j].id)) && octree.contains(
                visible@[j].id,
            ) && final(render_nodes)@.contains_key(#[trigger] node_key(visible@[j].id)) ==> {
                &&& final(render_nodes)@[node_key(visible@[j].id)].children@ == octree.node_at(
                    visible@[j].id,
                ).hierarchy.children@
                &&& (final(render_nodes)@[node_key(visible@[j].id)].children_mask == octree.node_at(
                    visible@[j].id,
                ).hierarchy.children_mask || (old(render_nodes)@.contains_key(node_key(visible@[j].id))
                    && final(render_nodes)@[node_key(visible@[j].id)] == old(render_nodes)@[node_key(visible@[j].id)]))
            },
{
    let ghost start = render_nodes@;
    let ghost pset = prepared.view_nodes().dom();
    let ghost mut outs: Seq<Option<T::Out>> = Seq::empty();
    let mut added: Vec<NodeId> = Vec::new();
    let mut modified: Vec<NodeId> = Vec::new();
    let mut i: usize = 0;
    while i < visible.len()
        invariant
            i <= visible@.len(),
            outs.len() == i,
            pset == prepared.view_nodes().dom(),
            octree.wf(),
            extracted_after(pset, *octree, start, visible@, outs, i as int) == (render_nodes@, added@, modified@),
            extraction_asked::<T>(pset, *octree, start, visible@, outs, *item, i as int),
        decreases visible@.len() - i,
    {
        let node_id = visible[i].id;
        let key = node_id.key();
        let ghost prev = (render_nodes@, added@, modified@);
        let ghost mut out: Option<T::Out> = None;
        if !prepared.contains(node_id) {
            match octree.node(node_id) {
                Some(octree_node) => {
                    match render_nodes.remove(&key) {
                        Some(mut node) => {
                            if !same_children(&node.children, &octree_node.hierarchy.children) {
                                node.children = octree_node.hierarchy.children;
                                node.children_mask = octree_node.hierarchy.children_mask;
                                modified.push(node_id);
                            }
                            render_nodes.insert(key, node);
                            proof {
                                assert(render_nodes@ =~= prev.0.insert(key, node));
                            }
                        },
                        None => {
                            let extracted = T::extract_octree_node(octree_node, item);
                            proof {
                                assert(call_ensures(T::extract_octree_node, (octree_node, item), extracted));
                            }
                            proof {
                                out = extracted;
                            }
                            apply_extraction(render_nodes, &mut added, node_id, &octree_node.hierarchy, extracted);
                        },
                    }
                },
                None => {},
            }
        }
        proof {
            let outs2 = outs.push(out);
            lemma_extracted_prefix(pset, *octree, start, visible@, outs, outs2, i as int);
            lemma_asked_prefix::<T>(pset, *octree, start, visible@, outs, outs2, *item, i as int);
            assert(outs2[i as int] == out);
            outs = outs2;
        }
        i = i + 1;
    }
    proof {
        assert forall|j: int|
            0 <= j < visible@.len() && !pset.contains(node_key(visible@[j].id)) && octree.contains(visible@[j].id)
                && render_nodes@.contains_key(#[trigger] node_key(visible@[j].id)) implies {
            &&& render_nodes@[node_key(visible@[j].id)].children@ == octree.node_at(visible@[j].id).hierarchy.children@
            &&& (render_nodes@[node_key(visible@[j].id)].children_mask == octree.node_at(
                visible@[j].id,
            ).hierarchy.children_mask || (start.contains_key(node_key(visible@[j].id))
                && render_nodes@[node_key(visible@[j].id)] == start[node_key(visible@[j].id)]))
        } by {
            law_extracted_nodes_follow_octree(pset, *octree, start, visible@, outs, j);
        }
    }
    (added, modified)
}

} // verus!
