use bevy_pointcloud::geometry::Aabb;
use bevy_pointcloud::octree::asset::Octree;
use bevy_pointcloud::octree::new_asset::asset::NewOctree;
use bevy_pointcloud::octree::new_asset::extract::iter_one_bits as extract_iter_one_bits;
use bevy_pointcloud::octree::new_asset::hierarchy::{HierarchyNode, HierarchyNodeData, HierarchyNodeStatus};
use bevy_pointcloud::octree::new_asset::node::NodeData;
use bevy_pointcloud::octree::new_asset::visibility::components::{OctreesVisibility, VisibleOctreeNode as NewVisibleNode};
use bevy_pointcloud::octree::new_asset::visibility::HierarchyVisibilityTraversal;
use bevy_pointcloud::octree::storage::NodeId;
use bevy_pointcloud::octree::visibility::{iter_one_bits, RenderOctreeIndex, VisibleNodesTraversal, VisibleOctreeNodes};
use bevy_pointcloud::pointcloud_octree::visibility::{DepthFirstVisibilityWalk, VisibleOctreeNodes as PointCloudNodes};

#[derive(Clone, Debug, PartialEq)]
struct Hier(u32);
impl HierarchyNodeData for Hier {}

#[derive(Clone, Debug, PartialEq)]
struct Data(u32);
impl NodeData for Data {}

fn aabb() -> Aabb {
    Aabb { center: [0, 0, 0], half_extents: [1, 1, 1] }
}

fn flat(status: HierarchyNodeStatus, child_index: usize, parent_id: Option<usize>, tag: u32) -> HierarchyNode<Hier> {
    HierarchyNode { status, child_index, parent_id, bounding_box: aabb(), data: Hier(tag) }
}

#[test]
fn test_iter_one_bits() {
    let mask: u8 = 0b01010101;
    let indexes = iter_one_bits(mask);
    assert_eq!(indexes, vec![0, 2, 4, 6]);
}

#[test]
fn mod_test_iter_one_bits() {
    let mask: u8 = 0b01010101;
    let indexes = extract_iter_one_bits(mask);
    assert_eq!(indexes, vec![0, 2, 4, 6]);
}

#[test]
fn iter_one_bits_edges() {
    assert_eq!(iter_one_bits(0), Vec::<usize>::new());
    assert_eq!(iter_one_bits(0xff), vec![0, 1, 2, 3, 4, 5, 6, 7]);
    assert_eq!(iter_one_bits(0b1000_0000), vec![7]);
}

#[test]
fn visible_nodes_form_a_tree() {
    let mut octree: Octree<u32> = Octree::from_root(aabb(), 0);
    let root = octree.root().unwrap().id;
    let a = octree.insert(Some((root, 1)), aabb(), 1).unwrap();
    let b = octree.insert(Some((root, 5)), aabb(), 2).unwrap();
    let c = octree.insert(Some((a, 0)), aabb(), 3).unwrap();
    let mut t = VisibleNodesTraversal::new(&octree);
    let mut order = Vec::new();
    while let Some(item) = t.pop() {
        // every node but `b` is found visible
        if item.id != b {
            order.push(item.id);
            t.accept(item, false);
        }
    }
    assert!(t.is_finished());
    let visible = t.into_visible_nodes();
    assert_eq!(order, vec![root, a, c]);
    assert_eq!(visible.len(), 3);
    assert_eq!(visible[0].id, root);
    assert_eq!(visible[0].children_mask, 0b0000_0010);
    assert_eq!(visible[0].first_child_index, 1);
    assert_eq!(visible[1].id, a);
    assert_eq!(visible[1].children_mask, 0b0000_0001);
    assert_eq!(visible[1].first_child_index, 2);
    assert_eq!(visible[2].children_mask, 0);
}

#[test]
fn visible_children_stand_side_by_side() {
    // root with children at 6, 1, 3 (inserted out of order), `a` (at 1) with a child at 2
    let mut octree: Octree<u32> = Octree::from_root(aabb(), 0);
    let root = octree.root().unwrap().id;
    let c6 = octree.insert(Some((root, 6)), aabb(), 1).unwrap();
    let a = octree.insert(Some((root, 1)), aabb(), 2).unwrap();
    let c3 = octree.insert(Some((root, 3)), aabb(), 3).unwrap();
    let g = octree.insert(Some((a, 2)), aabb(), 4).unwrap();
    let mut t = VisibleNodesTraversal::new(&octree);
    while let Some(item) = t.pop() {
        t.accept(item, true);
    }
    let visible = t.into_visible_nodes();
    let ids: Vec<NodeId> = visible.iter().map(|v| v.id).collect();
    // the root's children by child index, then the grandchild
    assert_eq!(ids, vec![root, a, c3, c6, g]);
    assert_eq!(visible[0].children_mask, 0b0100_1010);
    assert_eq!(visible[0].first_child_index, 1);
    assert_eq!(visible[1].children_mask, 0b0000_0100);
    assert_eq!(visible[1].first_child_index, 4);
    assert_eq!(visible[2].first_child_index, 0);
    assert_eq!(visible[3].first_child_index, 0);
}

#[test]
fn hierarchy_visibility_lists_proxies_to_load() {
    let nodes = vec![
        flat(HierarchyNodeStatus::Loaded, 0, None, 0),
        flat(HierarchyNodeStatus::Loaded, 2, Some(0), 1),
        flat(HierarchyNodeStatus::Proxy, 3, Some(0), 2),
        flat(HierarchyNodeStatus::Loading, 4, Some(1), 3),
    ];
    let (octree, ids) = NewOctree::<Hier, Data>::from_flat_hierarchy(nodes).unwrap();
    let mut t = HierarchyVisibilityTraversal::new(&octree);
    while let Some(item) = t.pop() {
        t.accept(item, true);
    }
    let (visible, to_load) = t.into_results();
    assert_eq!(visible.len(), 2);
    assert_eq!(visible[0].index, 0);
    assert_eq!(visible[0].node.id, ids[0]);
    assert_eq!(visible[0].children_mask, 0b0000_0100);
    assert_eq!(visible[0].children[2], 1);
    assert_eq!(visible[1].node.id, ids[1]);
    assert_eq!(visible[1].node.data, Hier(1));
    assert_eq!(to_load, vec![ids[2]]);
}

#[test]
fn render_octree_index_reuses_freed_indices() {
    let mut index: RenderOctreeIndex<()> = RenderOctreeIndex::new();
    let a = index.add_octree(10);
    let b = index.add_octree(20);
    assert_ne!(a, b);
    assert_eq!(index.add_octree(10), a);
    assert_eq!(index.len(), 2);
    assert_eq!(index.get_octree_index(20), Some(b));
    assert_eq!(index.remove_octree(10), Some(a));
    assert_eq!(index.remove_octree(10), None);
    assert_eq!(index.get_octree_index(10), None);
    let c = index.add_octree(30);
    assert_eq!(c, a);
    assert_eq!(index.len(), 2);
}

#[test]
fn octrees_visibility_entries_are_cleared_not_dropped() {
    let mut vis: OctreesVisibility<Hier, Data, ()> = OctreesVisibility::default();
    let id = NodeId { index: 3, generation: 1 };
    {
        let entry = vis.get_mut(42);
        assert_eq!(entry.0, None);
        assert!(entry.1.is_empty());
        entry.0 = Some(7);
        entry.1.push(NewVisibleNode { id, children: [0; 8], children_mask: 0, first_child_index: 0 });
    }
    assert_eq!(vis.get_mut(42).0, Some(7));
    assert_eq!(vis.get_mut(42).1.len(), 1);
    vis.get_mut(43).0 = Some(8);
    vis.clear_all();
    assert_eq!(vis.octrees.len(), 2);
    assert_eq!(vis.get_mut(42).0, None);
    assert!(vis.get_mut(42).1.is_empty());
    assert_eq!(vis.get_mut(43).0, None);
}

#[test]
fn visible_octree_nodes_entries_are_cleared_not_dropped() {
    let mut vis: VisibleOctreeNodes<Data, ()> = VisibleOctreeNodes::default();
    vis.get_mut(1).0 = Some(5);
    assert_eq!(vis.get_mut(1).0, Some(5));
    vis.clear_all();
    assert_eq!(vis.octrees.len(), 1);
    assert_eq!(vis.get_mut(1).0, None);
}

#[test]
fn point_cloud_visible_nodes_per_entity() {
    let mut v = PointCloudNodes::default();
    assert!(v.get(3).is_empty());
    assert!(v.is_empty(3));
    v.push(NodeId { index: 1, generation: 0 }, 3);
    v.push(NodeId { index: 2, generation: 0 }, 3);
    v.push(NodeId { index: 5, generation: 1 }, 4);
    assert_eq!(v.len(3), 2);
    assert_eq!(v.get(3), &[NodeId { index: 1, generation: 0 }, NodeId { index: 2, generation: 0 }]);
    v.clear(4);
    assert_eq!(v.len(4), 0);
    v.clear_all();
    assert_eq!(v.len(3), 0);
    assert!(v.nodes.contains_key(&3));
    v.get_mut(9).push(NodeId { index: 7, generation: 0 });
    assert_eq!(v.len(9), 1);
}

#[test]
fn depth_first_walk_lists_last_child_first() {
    let mut octree: Octree<u32> = Octree::from_root(aabb(), 0);
    let root = octree.root().unwrap().id;
    let a = octree.insert(Some((root, 1)), aabb(), 1).unwrap();
    let b = octree.insert(Some((root, 5)), aabb(), 2).unwrap();
    let c = octree.insert(Some((a, 0)), aabb(), 3).unwrap();
    let mut walk = DepthFirstVisibilityWalk::new(&octree);
    let mut flags = Vec::new();
    while let Some((id, flag)) = walk.pop() {
        flags.push(flag);
        // `a` lies completely inside: its subtree is not tested again
        walk.accept(id, id == a || flag);
    }
    assert!(walk.is_finished());
    assert_eq!(walk.into_visible_nodes(), vec![root, b, a, c]);
    assert_eq!(flags, vec![false, false, false, true]);
}
