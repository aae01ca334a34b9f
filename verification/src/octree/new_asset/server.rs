//! What the octree server does with the loads that complete.
use crate::octree::new_asset::asset::{parents_precede, sub_node_error, NewOctree};
use crate::octree::new_asset::hierarchy::{HierarchyNode, HierarchyNodeData};
use crate::octree::new_asset::loader::resources::{LoadRequestType, OctreeLoadTasks};
use crate::octree::new_asset::node::NodeData;
use crate::octree::storage::NodeId;
use vstd::prelude::*;

verus! {

/// A completed load of the octree `id`.
pub enum InternalOctreeEvent<H, T> {
    /// The hierarchy below node `node_id`, as a flat list whose first node is `node_id`.
    SubHierarchyLoaded { id: u128, node_id: NodeId, hierarchy_nodes: Vec<HierarchyNode<H>> },
    /// The data of node `node_id`.
    NodeDataLoaded { id: u128, node_id: NodeId, node_data: T },
}

/// The flat list of a completed hierarchy load can be appended to `octree`.
pub open spec fn appendable<H: HierarchyNodeData, T: NodeData>(
    octree: NewOctree<H, T>,
    node_id: NodeId,
    nodes: Seq<HierarchyNode<H>>,
) -> bool {
    &&& parents_precede(nodes)
    &&& nodes.len() <= u32::MAX
    &&& octree.contains(node_id) ==> octree.node_at(node_id).hierarchy.depth + nodes.len() <= u32::MAX
}

/// Whether node `i` of a loaded list names a parent that does not come before it.
pub open spec fn parent_not_before<H>(nodes: Seq<HierarchyNode<H>>, i: int) -> bool {
    match nodes[i].parent_id {
        Some(p) => p >= i,
        None => false,
    }
}

/// How many nodes the depth counter can still go below node `node_id` of `octree`.
pub open spec fn depth_room<H: HierarchyNodeData, T: NodeData>(octree: NewOctree<H, T>, node_id: NodeId) -> int {
    if octree.contains(node_id) {
        u32::MAX - octree.node_at(node_id).hierarchy.depth
    } else {
        u32::MAX as int
    }
}

/// Whether node `i` of `nodes` names a parent that does not come before it.
fn parent_not_before_at<H>(nodes: &Vec<HierarchyNode<H>>, i: usize) -> (b: bool)
    requires
        i < nodes@.len(),
    ensures
        b == parent_not_before(nodes@, i as int),
{
    match nodes[i].parent_id {
        Some(p) => p >= i,
        None => false,
    }
}

/// Cuts the flat list of a completed hierarchy load to what can be appended below node
/// `node_id` of `octree`: the nodes before the first one whose parent does not come
/// before it (returned as `bad`, when there is one), and no more than the depth counter
/// can go below the node.
pub fn cut_to_appendable<H: HierarchyNodeData, T: NodeData>(
    octree: &NewOctree<H, T>,
    node_id: NodeId,
    nodes: &mut Vec<HierarchyNode<H>>,
) -> (bad: Option<usize>)
    requires
        octree.wf(),
    ensures
        match bad {
            Some(b) => {
                &&& b < old(nodes)@.len()
                &&& parent_not_before(old(nodes)@, b as int)
                &&& forall|i: int| 0 <= i < b ==> !#[trigger] parent_not_before(old(nodes)@, i)
            },
            None => forall|i: int| 0 <= i < old(nodes)@.len() ==> !#[trigger] parent_not_before(old(nodes)@, i),
        },
        ({
            let cut: int = match bad {
                Some(b) => b as int,
                None => old(nodes)@.len() as int,
            };
            final(nodes)@ == old(nodes)@.take(if cut <= depth_room(*octree, node_id) {
                cut
            } else {
                depth_room(*octree, node_id)
            })
        }),
        appendable(*octree, node_id, final(nodes)@),
{
    let n = nodes.len();
    let mut i: usize = 0;
    while i < n && !parent_not_before_at(nodes, i)
        invariant
            n == nodes@.len(),
            i <= n,
            forall|j: int| 0 <= j < i ==> !#[trigger] parent_not_before(nodes@, j),
        decreases n - i,
    {
        i = i + 1;
    }
    let bad = if i < n {
        Some(i)
    } else {
        None
    };
    let depth: u64 = match octree.hierarchy_node(node_id) {
        Some(h) => h.depth as u64,
        None => 0,
    };
    let room: u64 = 0xFFFF_FFFFu64 - depth;
    let keep: usize = if (i as u64) <= room {
        i
    } else {
        room as usize
    };
    let ghost before = nodes@;
    nodes.truncate(keep);
    proof {
        assert(nodes@ =~= before.take(keep as int));
        assert forall|j: int| 0 <= j < nodes@.len() implies match #[trigger] nodes@[j].parent_id {
            Some(p) => p < j,
            None => true,
        } by {
            assert(!parent_not_before(before, j));
            assert(nodes@[j] == before[j]);
        }
    }
    bad
}

/// Takes a completed load into account: the load is no longer in flight, and, when the
/// octree is there (`octree`), the loaded hierarchy is appended below its node (up to the
/// first node that cannot be inserted) or the loaded data is stored in its node. Returns
/// the number of hierarchy nodes appended or updated, or whether the data was stored (1
/// or 0).
pub fn handle_internal_octree_event<H: HierarchyNodeData, T: NodeData>(
    event: InternalOctreeEvent<H, T>,
    load_tasks: &mut OctreeLoadTasks,
    octree: Option<&mut NewOctree<H, T>>,
) -> (r: usize)
    requires
        match octree {
            Some(o) => o.wf() && match event {
                InternalOctreeEvent::SubHierarchyLoaded { node_id, hierarchy_nodes, .. } => appendable(
                    *o,
                    node_id,
                    hierarchy_nodes@,
                ),
                _ => true,
            },
            None => true,
        },
    ensures
        match event {
            InternalOctreeEvent::SubHierarchyLoaded { id, node_id, hierarchy_nodes } => {
                &&& !final(load_tasks).in_flight(LoadRequestType::Hierarchy).contains((id, node_id))
                &&& old(load_tasks).others_kept(*final(load_tasks), LoadRequestType::Hierarchy)
                &&& r <= hierarchy_nodes@.len()
                &&& octree is None ==> r == 0
            },
            InternalOctreeEvent::NodeDataLoaded { id, node_id, node_data } => {
                &&& !final(load_tasks).in_flight(LoadRequestType::NodeData).contains((id, node_id))
                &&& old(load_tasks).others_kept(*final(load_tasks), LoadRequestType::NodeData)
                &&& match octree {
                    Some(o) => (r == 1) == o.contains(node_id) && r <= 1,
                    None => r == 0,
                }
            },
        },
        match octree {
            Some(o) => {
                &&& final(o).wf()
                &&& match event {
                    InternalOctreeEvent::SubHierarchyLoaded { node_id, hierarchy_nodes, .. } => exists|ids: Seq<NodeId>|
                        #[trigger] final(o).holds_sub_prefix(*o, node_id, hierarchy_nodes@, ids, r as int) && ids.len() == r
                        && (forall|j: int| 0 <= j < r ==> #[trigger] sub_node_error(
                            o.contains(node_id),
                            o.node_at(node_id).hierarchy.children_mask,
                            hierarchy_nodes@,
                            j,
                        ) is None) && (r == hierarchy_nodes@.len() || sub_node_error(
                            o.contains(node_id),
                            o.node_at(node_id).hierarchy.children_mask,
                            hierarchy_nodes@,
                            r as int,
                        ) is Some),
                    InternalOctreeEvent::NodeDataLoaded { node_id, node_data, .. } => if o.contains(node_id) {
                        o.replaced(
                            *final(o),
                            node_id,
                            crate::octree::new_asset::node::OctreeNode {
                                status: crate::octree::new_asset::node::NodeStatus::Loaded,
                                data: Some(node_data),
                                ..o.node_at(node_id)
                            },
                        )
                    } else {
                        o.unchanged(*final(o))
                    },
                }
            },
            None => true,
        },
{
    match event {
        InternalOctreeEvent::SubHierarchyLoaded { id, node_id, hierarchy_nodes } => {
            load_tasks.finish_load(LoadRequestType::Hierarchy, id, node_id);
            match octree {
                Some(o) => {
                    let (ids, _error) = o.append_sub_hierarchy(node_id, hierarchy_nodes);
                    ids.len()
                },
                None => 0,
            }
        },
        InternalOctreeEvent::NodeDataLoaded { id, node_id, node_data } => {
            load_tasks.finish_load(LoadRequestType::NodeData, id, node_id);
            match octree {
                Some(o) => if o.store_node_data(node_id, node_data) {
                    1
                } else {
                    0
                },
                None => 0,
            }
        },
    }
}

} // verus!
