use bevy_pointcloud::geometry::Aabb;
use bevy_pointcloud::loader::potree::asset::{
    base_url, layout_from_metadata, NodeFetch, NodeRead, OctreeLayout, PotreeAssetSource,
};
use bevy_pointcloud::loader::potree::chunk::{assemble_chunk, count_kept_points, ChunkLayout, ChunkPoint, ALPHA_ONE};
use bevy_pointcloud::loader::potree::{
    build_hierarchy, build_hierarchy_children, load_initial_hierarchy, FilterClassification, PotreeHierarchy,
    PotreeHierarchyNode, PotreeLoaderError, PotreeNodeType,
};
use bevy_pointcloud::octree::new_asset::asset::InsertNodeError;
use bevy_pointcloud::octree::new_asset::hierarchy::HierarchyNodeStatus;
use bevy_pointcloud::octree::new_asset::node::NodeData;
use bevy_platform::collections::HashSet;

#[derive(Clone, Debug, PartialEq)]
struct Data;
impl NodeData for Data {}

fn aabb(x: u32) -> Aabb {
    Aabb { center: [x, x, x], half_extents: [1, 1, 1] }
}

fn raw(parent: Option<usize>, child_index: u8, node_type: PotreeNodeType, tag: u32) -> PotreeHierarchyNode<PotreeHierarchy<u32>> {
    PotreeHierarchyNode { parent, child_index, node_type, bounding_box: aabb(tag), data: PotreeHierarchy(tag) }
}

#[test]
fn from_url_strips_dataset_file() {
    let s = PotreeAssetSource::from_url("http://host/data/metadata.json");
    assert_eq!(s.metadata.url, "http://host/data/metadata.json");
    assert_eq!(s.hierarchy.url, "http://host/data/hierarchy.bin");
    assert_eq!(s.octree.url, "http://host/data/octree.bin");
    match &s.node_fetch {
        NodeFetch::Http { base_url } => assert_eq!(base_url, "http://host/data/octree"),
        NodeFetch::Fs { .. } => panic!("expected an HTTP node fetch"),
    }
    assert!(s.layout.is_none());
}

#[test]
fn from_url_trims_trailing_slashes() {
    let s = PotreeAssetSource::from_url("http://host/data//");
    assert_eq!(s.metadata.url, "http://host/data/metadata.json");
}

#[test]
fn from_url_keeps_other_segments() {
    let s = PotreeAssetSource::from_url("http://host/data");
    assert_eq!(s.octree.url, "http://host/data/octree.bin");
    let t = PotreeAssetSource::from_url("http://host/data/other.json");
    assert_eq!(t.octree.url, "http://host/data/other.json/octree.bin");
    let u = PotreeAssetSource::from_url("data");
    assert_eq!(u.hierarchy.url, "data/hierarchy.bin");
}

#[test]
fn base_url_of_root_files() {
    assert_eq!(base_url("http://h/p/hierarchy.bin"), "http://h/p");
    assert_eq!(base_url("http://h/p/octree.bin"), "http://h/p");
    assert_eq!(base_url("http://h/p/"), "http://h/p");
    assert_eq!(base_url("/octree.bin"), "");
}

#[test]
fn from_path_joins_file_names() {
    let s = PotreeAssetSource::from_path("/data/cloud");
    let sep = std::path::MAIN_SEPARATOR;
    assert_eq!(s.metadata.path, format!("/data/cloud{}metadata.json", sep));
    assert_eq!(s.hierarchy.path, format!("/data/cloud{}hierarchy.bin", sep));
    assert_eq!(s.octree.path, format!("/data/cloud{}octree.bin", sep));
    match &s.node_fetch {
        NodeFetch::Fs { base_path } => assert_eq!(base_path, &format!("/data/cloud{}octree", sep)),
        NodeFetch::Http { .. } => panic!("expected a file node fetch"),
    }
}

#[test]
fn layout_read_from_metadata() {
    assert_eq!(layout_from_metadata(Some("multi-file")), OctreeLayout::MultiFile);
    assert_eq!(layout_from_metadata(Some("single-file")), OctreeLayout::SingleFile);
    assert_eq!(layout_from_metadata(None), OctreeLayout::SingleFile);
}

#[test]
fn node_read_follows_layout() {
    let mut s = PotreeAssetSource::from_url("http://h/p/");
    match s.node_read("r01", 10, 20) {
        NodeRead::OctreeRange { offset, length } => assert_eq!((offset, length), (10, 20)),
        other => panic!("unexpected {:?}", other),
    }
    assert!(s.set_layout(OctreeLayout::MultiFile));
    assert!(!s.set_layout(OctreeLayout::SingleFile));
    assert_eq!(s.layout, Some(OctreeLayout::MultiFile));
    match s.node_read("r01", 10, 20) {
        NodeRead::HttpWhole { url } => assert_eq!(url, "http://h/p/octree/r01.bin"),
        other => panic!("unexpected {:?}", other),
    }
    let mut f = PotreeAssetSource::from_path("/d");
    f.set_layout(OctreeLayout::MultiFile);
    match f.node_read("r2", 0, 0) {
        NodeRead::FileWhole { path } => assert!(path.ends_with("r2.bin") && path.starts_with("/d")),
        other => panic!("unexpected {:?}", other),
    }
}

#[test]
fn classification_filters() {
    let mut set = HashSet::new();
    set.insert(2u8);
    set.insert(6u8);
    let included = FilterClassification::Include(set.clone());
    let exclude = FilterClassification::Exclude(set);
    assert!(FilterClassification::KeepAll.filter(9));
    assert!(included.filter(2));
    assert!(!included.filter(3));
    assert!(!exclude.filter(6));
    assert!(exclude.filter(3));
    assert!(FilterClassification::KeepAll.keeps_all());
    assert!(!included.keeps_all());
}

#[test]
fn children_and_roots_of_a_flat_list() {
    let parents = vec![None, Some(0), Some(0), Some(1), Some(9), None];
    let (children, roots) = build_hierarchy_children(&parents);
    assert_eq!(children, vec![vec![1, 2], vec![3], vec![], vec![], vec![], vec![]]);
    assert_eq!(roots, vec![0, 5]);
}

#[test]
fn build_hierarchy_depth_first() {
    let nodes = vec![
        raw(Some(2), 1, PotreeNodeType::Normal, 10),
        raw(None, 0, PotreeNodeType::Normal, 11),
        raw(Some(1), 4, PotreeNodeType::Proxy, 12),
        raw(Some(1), 0, PotreeNodeType::Leaf, 13),
    ];
    let (list, ord) = build_hierarchy(nodes).unwrap();
    assert_eq!(ord, vec![1, 2, 0, 3]);
    assert_eq!(list[0].parent_id, None);
    assert_eq!(list[1].parent_id, Some(0));
    assert_eq!(list[1].status, HierarchyNodeStatus::Proxy);
    assert_eq!(list[1].child_index, 4);
    assert_eq!(list[2].parent_id, Some(1));
    assert_eq!(list[2].data.0, 10);
    assert_eq!(list[3].parent_id, Some(0));
    assert_eq!(list[3].status, HierarchyNodeStatus::Loaded);
}

#[test]
fn build_hierarchy_errors() {
    let no_root = vec![raw(Some(0), 0, PotreeNodeType::Normal, 1)];
    assert!(matches!(build_hierarchy(no_root), Err(PotreeLoaderError::InvalidHierarchy(_))));
    let empty: Vec<PotreeHierarchyNode<PotreeHierarchy<u32>>> = Vec::new();
    assert!(matches!(build_hierarchy(empty), Err(PotreeLoaderError::InvalidHierarchy(_))));
    let bad_index = vec![raw(None, 0, PotreeNodeType::Normal, 1), raw(Some(0), 8, PotreeNodeType::Normal, 2)];
    assert!(matches!(build_hierarchy(bad_index), Err(PotreeLoaderError::InvalidHierarchy(_))));
}

#[test]
fn load_initial_hierarchy_builds_octree() {
    let nodes = vec![raw(None, 0, PotreeNodeType::Normal, 1), raw(Some(0), 3, PotreeNodeType::Proxy, 2)];
    let (octree, ids) = load_initial_hierarchy::<PotreeHierarchy<u32>, Data>(nodes).unwrap();
    let root = octree.hierarchy_root().unwrap();
    assert_eq!(root.id, ids[0]);
    assert_eq!(root.children_mask, 0b0000_1000);
    assert_eq!(root.children[3], ids[1]);
    assert_eq!(octree.hierarchy_node(ids[1]).unwrap().status, HierarchyNodeStatus::Proxy);
    let clash = vec![
        raw(None, 0, PotreeNodeType::Normal, 1),
        raw(Some(0), 3, PotreeNodeType::Normal, 2),
        raw(Some(0), 3, PotreeNodeType::Normal, 3),
    ];
    assert!(matches!(
        load_initial_hierarchy::<PotreeHierarchy<u32>, Data>(clash),
        Err(PotreeLoaderError::Octree(InsertNodeError::ChildIndexOccupied))
    ));
}

fn point(pos: u32, class: Option<u8>) -> ChunkPoint {
    ChunkPoint {
        position: Some([pos, pos + 1, pos + 2]),
        color: Some([7, 8, 9]),
        normal: None,
        normal_x: Some(1),
        normal_y: Some(2),
        normal_z: Some(3),
        classification: class,
    }
}

fn layout() -> ChunkLayout {
    ChunkLayout {
        position: true,
        color: true,
        normal: false,
        normal_x: true,
        normal_y: true,
        normal_z: true,
        classification: true,
    }
}

#[test]
fn chunk_keeps_filtered_points() {
    let mut set = HashSet::new();
    set.insert(2u8);
    let filter = FilterClassification::Include(set);
    let points = vec![point(10, Some(2)), point(20, Some(3)), point(30, None), point(40, Some(2))];
    assert_eq!(count_kept_points(&filter, &layout(), &points), 2);
    let v = assemble_chunk(&filter, &layout(), &points).unwrap();
    assert_eq!(v.positions, vec![[10, 11, 12], [40, 41, 42]]);
    assert_eq!(v.colors.unwrap(), vec![[7, 8, 9, ALPHA_ONE], [7, 8, 9, ALPHA_ONE]]);
    assert_eq!(v.normals.unwrap(), vec![[1, 2, 3], [1, 2, 3]]);
}

#[test]
fn chunk_defaults_for_missing_attributes() {
    let mut l = layout();
    l.classification = false;
    l.normal_z = false;
    let mut p = point(5, None);
    p.position = None;
    p.color = None;
    let v = assemble_chunk(&FilterClassification::KeepAll, &l, &vec![p]).unwrap();
    assert_eq!(v.positions, vec![[0, 0, 0]]);
    assert_eq!(v.colors.unwrap(), vec![[0, 0, 0, 0x3f80_0000]]);
    assert!(v.normals.is_none());
}

#[test]
fn chunk_without_points_or_kept_points_is_empty() {
    assert!(assemble_chunk(&FilterClassification::KeepAll, &layout(), &Vec::new()).is_none());
    let mut set = HashSet::new();
    set.insert(1u8);
    let exclude = FilterClassification::Exclude(set);
    assert!(assemble_chunk(&exclude, &layout(), &vec![point(1, Some(1))]).is_none());
    // without a filter, a point lacking its class is dropped but the chunk still has buffers
    let v = assemble_chunk(&FilterClassification::KeepAll, &layout(), &vec![point(1, None)]).unwrap();
    assert!(v.positions.is_empty());
}

#[test]
fn build_hierarchy_ignores_unreachable_bad_index() {
    // the node with child index 9 names a parent out of range: it is not below the root
    let nodes = vec![raw(None, 0, PotreeNodeType::Normal, 0), raw(Some(7), 9, PotreeNodeType::Leaf, 1)];
    let (list, ord) = build_hierarchy(nodes).unwrap();
    assert_eq!(list.len(), 1);
    assert_eq!(ord, vec![0]);
}

#[test]
fn every_spelling_of_a_dataset_url_gives_the_same_files() {
    let spellings = [
        "http://host/data",
        "http://host/data/",
        "http://host/data///",
        "http://host/data/metadata.json",
        "http://host/data/hierarchy.bin",
        "http://host/data/octree.bin",
    ];
    for url in spellings {
        let s = PotreeAssetSource::from_url(url);
        assert_eq!(s.metadata.url, "http://host/data/metadata.json");
        assert_eq!(s.hierarchy.url, "http://host/data/hierarchy.bin");
        assert_eq!(s.octree.url, "http://host/data/octree.bin");
        match s.node_fetch {
            NodeFetch::Http { base_url } => assert_eq!(base_url, "http://host/data/octree"),
            NodeFetch::Fs { .. } => panic!("expected an HTTP node base"),
        }
    }
}
