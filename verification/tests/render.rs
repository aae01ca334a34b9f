use bevy_pointcloud::octree::asset::OctreeNode as CompleteOctreeNode;
use bevy_pointcloud::octree::visibility::prepare::{
    prepare_assets as prepare_complete_assets, PrepareNextFrameOctreeNodes as CompleteNextFrame,
    PrepareOctreeNodeError as CompletePrepareError, RenderOctrees as CompleteRenderOctrees,
};
use bevy_pointcloud::geometry::Aabb;
use bevy_pointcloud::octree::extract::{classify_asset_events, AssetEvent};
use bevy_pointcloud::octree::new_asset::asset::NewOctree;
use bevy_pointcloud::octree::new_asset::extract::limiter::{
    RenderOctreeNodesBytesPerFrame, RenderOctreeNodesBytesPerFrameLimiter,
};
use bevy_pointcloud::octree::new_asset::extract::prepare::{
    apply_preparation, prepare_assets, PrepareNextFrameOctreeNodes, PrepareOctreeNodeError, RenderOctreeNode, RenderOctrees,
};
use bevy_pointcloud::octree::new_asset::extract::render_asset::{InsertNodeError, RenderOctree, RenderOctreeNodeData};
use bevy_pointcloud::octree::new_asset::extract::resources::{extract_octree_nodes, ExtractedOctreeNodes};
use bevy_pointcloud::octree::new_asset::extract::{apply_extraction, extract_visible_nodes, ExtractOctreeNode};
use bevy_pointcloud::octree::new_asset::hierarchy::{HierarchyNode, HierarchyNodeData, HierarchyNodeStatus};
use bevy_pointcloud::octree::new_asset::node::{NodeData, OctreeNode};
use bevy_pointcloud::octree::new_asset::visibility::components::VisibleOctreeNode;
use bevy_pointcloud::octree::storage::NodeId;
use bevy_pointcloud::pointcloud_octree::potree::mapping::{PotreePointCloudOctreeMapping, PotreePointCloudOctreeNodes};
use std::collections::HashMap;

#[derive(Clone, Debug)]
struct Hier;
impl HierarchyNodeData for Hier {}

#[derive(Clone, Debug)]
struct Points(u32);
impl NodeData for Points {}

impl ExtractOctreeNode for Points {
    type Hierarchy = Hier;
    type Item = u32;
    type Out = u32;

    fn extract_octree_node(node: &OctreeNode<Hier, Points>, item: &u32) -> Option<u32> {
        node.data.as_ref().map(|p| p.0 + *item)
    }
}

/// A GPU node: sized by its extracted value, retried when the value is 0, failing on 1.
#[derive(Debug)]
struct Gpu(u32);

impl RenderOctreeNode for Gpu {
    type Extracted = u32;
    type Param = u32;

    fn byte_len(node: &RenderOctreeNodeData<u32>) -> Option<usize> {
        Some(node.data as usize)
    }

    fn prepare_octree_node(
        node: RenderOctreeNodeData<u32>,
        _asset_id: u128,
        param: &mut u32,
    ) -> Result<Self, PrepareOctreeNodeError<u32>> {
        *param += 1;
        match node.data {
            0 => Err(PrepareOctreeNodeError::RetryNextUpdate(node)),
            1 => Err(PrepareOctreeNodeError::AsBindGroupError(String::from("bad"))),
            n => Ok(Gpu(n)),
        }
    }
}

fn aabb() -> Aabb {
    Aabb { center: [0, 0, 0], half_extents: [2, 2, 2] }
}

fn id(index: usize) -> NodeId {
    NodeId { index, generation: 0 }
}

fn render_node(index: usize, data: u32) -> RenderOctreeNodeData<u32> {
    RenderOctreeNodeData {
        id: id(index),
        child_index: 0,
        parent_id: None,
        children: [NodeId::zero(); 8],
        children_mask: 0,
        bounding_box: aabb(),
        depth: 0,
        data,
    }
}

#[test]
fn limiter_budget() {
    let mut limiter = RenderOctreeNodesBytesPerFrameLimiter { max_bytes: None, bytes_written: 0 };
    limiter.set_max_bytes(&RenderOctreeNodesBytesPerFrame::new(100));
    assert_eq!(limiter.max_bytes, Some(100));
    assert!(!limiter.exhausted());
    assert_eq!(limiter.available_bytes(60), 60);
    // 40 of the 100 bytes are left
    assert_eq!(limiter.available_bytes(60), 40);
    // the limit is passed: nothing is left
    assert_eq!(limiter.available_bytes(30), 0);
    assert_eq!(limiter.bytes_written, 150);
    assert!(limiter.exhausted());
    limiter.reset();
    assert!(!limiter.exhausted());
    limiter.write_bytes(100);
    assert!(limiter.exhausted());
    let mut unlimited = RenderOctreeNodesBytesPerFrameLimiter { max_bytes: None, bytes_written: 5 };
    unlimited.write_bytes(1000);
    assert_eq!(unlimited.bytes_written, 5);
    assert!(!unlimited.exhausted());
    assert_eq!(unlimited.available_bytes(7), 7);
    let mut nearly = RenderOctreeNodesBytesPerFrameLimiter { max_bytes: Some(100), bytes_written: 90 };
    assert_eq!(nearly.available_bytes(20), 10);
    assert_eq!(nearly.bytes_written, 110);
    let mut past = RenderOctreeNodesBytesPerFrameLimiter { max_bytes: Some(100), bytes_written: 110 };
    assert_eq!(past.available_bytes(30), 0);
}

#[test]
fn render_octree_insert_error_messages() {
    assert_eq!(InsertNodeError::ParentNotExists.message(), "parent does not exists");
    assert_eq!(InsertNodeError::ParentChildrenFull.message(), "parent has already 8 children");
    let mut octree: RenderOctree<u8> = RenderOctree::new();
    let mut n = render_node(3, 0).with_data(9u8);
    n.depth = 2;
    octree.insert(id(3), n);
    assert!(octree.contains(id(3)));
    assert_eq!(octree.remove(id(3)).map(|n| (n.data, n.depth)), Some((9, 2)));
    assert!(!octree.contains(id(3)));
}

#[test]
fn prepare_assets_within_budget() {
    let mut render: RenderOctrees<Gpu> = RenderOctrees::new();
    let mut next = PrepareNextFrameOctreeNodes { assets: vec![(7u128, render_node(1, 5)), (7u128, render_node(2, 5))] };
    let mut added: HashMap<u128, Vec<NodeId>> = HashMap::new();
    added.insert(7, vec![id(2)]);
    let removed: HashMap<u128, Vec<NodeId>> = HashMap::new();
    let extracted = vec![(7u128, vec![render_node(3, 0), render_node(4, 1), render_node(5, 50), render_node(6, 8)])];
    let mut param = 0u32;
    let mut bpf = RenderOctreeNodesBytesPerFrameLimiter { max_bytes: Some(50), bytes_written: 0 };
    prepare_assets(extracted, &removed, &added, &mut render, &mut next, &mut param, &mut bpf);
    // node 2 was added again this frame: dropped; node 1 prepared (5 bytes);
    // node 3 retried; node 4 failed; node 5 prepared (50 bytes, budget now used up);
    // node 6 waits for next frame
    assert_eq!(param, 4);
    assert_eq!(bpf.bytes_written, 55);
    let octree = render.get(7).unwrap();
    assert_eq!(octree.nodes.len(), 2);
    assert_eq!(octree.nodes.get(&id(1).key()).unwrap().data.0, 5);
    assert_eq!(octree.nodes.get(&id(5).key()).unwrap().data.0, 50);
    let waiting: Vec<(u128, usize, u32)> = next.assets.iter().map(|(a, n)| (*a, n.id.index, n.data)).collect();
    assert_eq!(waiting, vec![(7, 3, 0), (7, 6, 8)]);
}

#[test]
fn extract_visible_nodes_adds_then_updates() {
    let nodes = vec![
        HierarchyNode { status: HierarchyNodeStatus::Loaded, child_index: 0, parent_id: None, bounding_box: aabb(), data: Hier },
        HierarchyNode { status: HierarchyNodeStatus::Loaded, child_index: 1, parent_id: Some(0), bounding_box: aabb(), data: Hier },
    ];
    let (mut octree, ids) = NewOctree::<Hier, Points>::from_flat_hierarchy(nodes).unwrap();
    assert!(octree.store_node_data(ids[0], Points(10)));
    let prepared: RenderOctree<Gpu> = RenderOctree::new();
    let mut extracted: HashMap<u128, RenderOctreeNodeData<u32>> = HashMap::new();
    let visible = vec![
        VisibleOctreeNode { id: ids[0], children: [0; 8], children_mask: 0, first_child_index: 0 },
        VisibleOctreeNode { id: ids[1], children: [0; 8], children_mask: 0, first_child_index: 0 },
    ];
    let (added, modified) = extract_visible_nodes::<Points, Gpu>(&octree, &prepared, &mut extracted, &visible, &1);
    // node 1 has no data yet: the extraction leaves it out
    assert_eq!(added, vec![ids[0]]);
    assert!(modified.is_empty());
    assert_eq!(extracted.get(&ids[0].key()).unwrap().data, 11);
    assert_eq!(extracted.get(&ids[0].key()).unwrap().children_mask, 0b0000_0010);
    let (added, modified) = extract_visible_nodes::<Points, Gpu>(&octree, &prepared, &mut extracted, &visible, &1);
    assert!(added.is_empty());
    assert!(modified.is_empty());
    // a changed child list is taken over and reported
    extracted.get_mut(&ids[0].key()).unwrap().children = [NodeId::zero(); 8];
    let (_, modified) = extract_visible_nodes::<Points, Gpu>(&octree, &prepared, &mut extracted, &visible, &1);
    assert_eq!(modified, vec![ids[0]]);
    assert_eq!(extracted.get(&ids[0].key()).unwrap().children[1], ids[1]);
}

#[test]
fn asset_events_sorted() {
    let events = vec![
        AssetEvent::Added { id: 1 },
        AssetEvent::Modified { id: 2 },
        AssetEvent::Added { id: 3 },
        AssetEvent::Unused { id: 3 },
        AssetEvent::Removed { id: 1 },
        AssetEvent::LoadedWithDependencies { id: 4 },
    ];
    let sets = classify_asset_events(&events);
    let mut needs: Vec<u128> = sets.needs_extracting.iter().copied().collect();
    needs.sort();
    assert_eq!(needs, vec![1, 2]);
    assert!(sets.modified.contains(&2));
    assert_eq!(sets.modified.len(), 1);
    assert!(sets.removed.contains(&3));
    assert_eq!(sets.removed.len(), 1);
}

#[test]
fn potree_mapping_both_ways() {
    let mut m = PotreePointCloudOctreeMapping::new();
    m.insert(42, id(3));
    assert_eq!(m.get_octree_node_id(42), Some(id(3)));
    assert_eq!(m.get_potree_node_id(id(3)), Some(42));
    m.remove_node_id(id(3));
    assert_eq!(m.get_octree_node_id(42), None);
    m.insert(43, id(4));
    m.remove_potree_node_id(43);
    assert_eq!(m.get_potree_node_id(id(4)), None);

    let mut all = PotreePointCloudOctreeNodes::new();
    all.insert(9, 1, id(1));
    all.insert(9, 2, id(2));
    assert_eq!(all.get_octree_node_id(9, 2), Some(id(2)));
    assert_eq!(all.get_octree_node_id(8, 2), None);
    all.insert(7, 2, id(5));
    all.remove(9, 2);
    assert_eq!(all.get_octree_node_id(9, 2), None);
    assert_eq!(all.get(9).unwrap().get_potree_node_id(id(2)), None);
    assert_eq!(all.get_octree_node_id(7, 2), Some(id(5)));
    assert_eq!(all.get(9).unwrap().get_potree_node_id(id(1)), Some(1));
}

#[test]
fn extracted_octree_nodes_per_asset() {
    let nodes = vec![HierarchyNode {
        status: HierarchyNodeStatus::Loaded,
        child_index: 0,
        parent_id: None,
        bounding_box: aabb(),
        data: Hier,
    }];
    let (mut octree, ids) = NewOctree::<Hier, Points>::from_flat_hierarchy(nodes).unwrap();
    assert!(octree.store_node_data(ids[0], Points(4)));
    let visible = vec![VisibleOctreeNode { id: ids[0], children: [0; 8], children_mask: 0, first_child_index: 0 }];
    let mut render_octrees: RenderOctrees<Gpu> = RenderOctrees::new();
    let mut extracted: ExtractedOctreeNodes<Points> = ExtractedOctreeNodes::default();
    extract_octree_nodes(&mut render_octrees, &mut extracted, 9, &octree, &visible, &2);
    assert!(render_octrees.get(9).is_some());
    assert_eq!(extracted.added_nodes.get(&9).unwrap(), &vec![ids[0]]);
    assert!(extracted.modified_nodes.get(&9).unwrap().is_empty());
    assert!(extracted.removed_nodes.get(&9).unwrap().is_empty());
    assert_eq!(extracted.get_or_create_mut(9).get(&ids[0].key()).unwrap().data, 6);
    assert!(extracted.get_or_create_mut(10).is_empty());
    extracted.clear_all();
    assert!(extracted.added_nodes.is_empty());
    assert!(extracted.modified_nodes.is_empty());
    assert_eq!(extracted.octrees.len(), 2);
    // a node extracted before is not added again
    extract_octree_nodes(&mut render_octrees, &mut extracted, 9, &octree, &visible, &2);
    assert!(extracted.added_nodes.get(&9).unwrap().is_empty());
}

#[test]
fn render_octrees_get_or_insert_and_remove() {
    let mut render_octrees: RenderOctrees<Gpu> = RenderOctrees::new();
    assert!(render_octrees.get_or_insert_mut(3).nodes.is_empty());
    render_octrees.get_or_insert_mut(3).insert(id(1), render_node(1, 5).with_data(Gpu(5)));
    assert_eq!(render_octrees.get_or_insert_mut(3).nodes.len(), 1);
    assert_eq!(render_octrees.remove(3).unwrap().nodes.len(), 1);
    assert!(render_octrees.remove(3).is_none());
    assert!(render_octrees.get(3).is_none());
}

#[test]
fn potree_mapping_get_or_insert_mut() {
    let mut nodes = PotreePointCloudOctreeNodes::new();
    let handle = id(4);
    nodes.get_or_insert_mut(2).insert(40, handle);
    assert_eq!(nodes.get_octree_node_id(2, 40), Some(handle));
    assert_eq!(nodes.get_or_insert_mut(2).get_potree_node_id(handle), Some(40));
    assert_eq!(nodes.get_or_insert_mut(3).get_octree_node_id(40), None);
    assert!(nodes.get(3).is_some());
}

#[test]
fn apply_preparation_per_outcome() {
    let mut render: RenderOctrees<Gpu> = RenderOctrees::new();
    let mut next: Vec<(u128, RenderOctreeNodeData<u32>)> = Vec::new();
    let mut bpf = RenderOctreeNodesBytesPerFrameLimiter { max_bytes: Some(100), bytes_written: 0 };
    let shape = render_node(1, 0).with_data(());
    apply_preparation(4, shape, 30, Ok(Gpu(7)), &mut render, &mut next, &mut bpf);
    assert_eq!(render.get(4).unwrap().nodes.get(&id(1).key()).unwrap().data.0, 7);
    assert_eq!(bpf.bytes_written, 30);
    let shape = render_node(2, 0).with_data(());
    apply_preparation::<Gpu>(4, shape, 30, Err(PrepareOctreeNodeError::RetryNextUpdate(render_node(2, 9))), &mut render, &mut next, &mut bpf);
    assert_eq!(next.len(), 1);
    assert_eq!(next[0].1.data, 9);
    let shape = render_node(3, 0).with_data(());
    apply_preparation::<Gpu>(5, shape, 30, Err(PrepareOctreeNodeError::AsBindGroupError(String::from("x"))), &mut render, &mut next, &mut bpf);
    assert!(render.get(5).unwrap().nodes.is_empty());
    assert_eq!(bpf.bytes_written, 30);
}

#[test]
fn apply_extraction_adds_extracted_data_only() {
    let nodes = vec![HierarchyNode { status: HierarchyNodeStatus::Loaded, child_index: 0, parent_id: None, bounding_box: aabb(), data: Hier }];
    let (octree, ids) = NewOctree::<Hier, Points>::from_flat_hierarchy(nodes).unwrap();
    let h = octree.hierarchy_node(ids[0]).unwrap();
    let mut render: HashMap<u128, RenderOctreeNodeData<u32>> = HashMap::new();
    let mut added = Vec::new();
    apply_extraction(&mut render, &mut added, ids[0], h, None::<u32>);
    assert!(render.is_empty() && added.is_empty());
    apply_extraction(&mut render, &mut added, ids[0], h, Some(5u32));
    assert_eq!(added, vec![ids[0]]);
    assert_eq!(render.get(&ids[0].key()).unwrap().data, 5);
}

/// A GPU node of a complete octree: retried with the data 9 when the data is 0.
#[derive(Debug)]
struct CompleteGpu(u32);

impl bevy_pointcloud::octree::visibility::prepare::RenderOctreeNode for CompleteGpu {
    type Extracted = u32;
    type Param = Vec<u128>;

    fn unload_asset(asset_id: u128, param: &mut Vec<u128>) {
        param.push(asset_id);
    }

    fn prepare_octree_node(
        data: u32,
        _asset_id: u128,
        _node_id: NodeId,
        _param: &mut Vec<u128>,
    ) -> Result<Self, CompletePrepareError<u32>> {
        if data == 0 {
            Err(CompletePrepareError::RetryNextUpdate(9))
        } else {
            Ok(CompleteGpu(data))
        }
    }
}

fn complete_node(index: usize, data: u32) -> CompleteOctreeNode<u32> {
    CompleteOctreeNode {
        id: id(index),
        child_index: 3,
        parent_id: Some(id(0)),
        children: [NodeId::zero(); 8],
        children_mask: 0,
        bounding_box: aabb(),
        data,
    }
}

#[test]
fn prepare_complete_assets_removes_before_preparing() {
    let mut render: CompleteRenderOctrees<CompleteGpu> = CompleteRenderOctrees::new();
    render.get_or_insert_mut(1);
    render.get_or_insert_mut(2);
    render.get_or_insert_mut(3);
    let mut next = CompleteNextFrame { assets: Vec::new() };
    let mut unloaded = Vec::new();
    let mut bpf = RenderOctreeNodesBytesPerFrameLimiter { max_bytes: None, bytes_written: 0 };
    // asset 2 is removed and extracted again in the same frame; asset 3 is only removed
    let extracted = vec![(2u128, vec![complete_node(4, 5)]), (1u128, vec![complete_node(6, 0)])];
    prepare_complete_assets::<CompleteGpu>(
        extracted,
        &HashMap::new(),
        &HashMap::new(),
        vec![2, 3],
        &mut render,
        &mut next,
        &mut unloaded,
        &mut bpf,
    );
    assert_eq!(unloaded, vec![2, 3]);
    assert!(render.get(1).is_some());
    assert!(render.get(3).is_none());
    let two = render.get(2).unwrap();
    assert_eq!(two.nodes.get(&id(4).key()).unwrap().data.0, 5);
    assert_eq!(two.nodes.get(&id(4).key()).unwrap().child_index, 3);
    // the retried node keeps its handle and links, with the data handed back
    assert_eq!(next.assets.len(), 1);
    assert_eq!(next.assets[0].0, 1);
    assert_eq!(next.assets[0].1.id, id(6));
    assert_eq!(next.assets[0].1.parent_id, Some(id(0)));
    assert_eq!(next.assets[0].1.child_index, 3);
    assert_eq!(next.assets[0].1.data, 9);
}
