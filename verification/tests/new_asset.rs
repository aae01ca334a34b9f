use bevy_pointcloud::geometry::Aabb;
use bevy_pointcloud::octree::new_asset::asset::{InsertNodeError, NewOctree};
use bevy_pointcloud::octree::new_asset::hierarchy::{HierarchyNode, HierarchyNodeData, HierarchyNodeStatus};
use bevy_pointcloud::octree::new_asset::loader::resources::{LoadRequestType, OctreeLoadTasks};
use bevy_pointcloud::octree::new_asset::node::{NodeData, NodeStatus};
use bevy_pointcloud::octree::new_asset::server::{cut_to_appendable, handle_internal_octree_event, InternalOctreeEvent};
use bevy_pointcloud::octree::storage::NodeId;

#[derive(Clone, Debug, PartialEq)]
struct Hier(u32);
impl HierarchyNodeData for Hier {}

#[derive(Clone, Debug, PartialEq)]
struct Data(u32);
impl NodeData for Data {}

fn flat(status: HierarchyNodeStatus, child_index: usize, parent_id: Option<usize>, tag: u32) -> HierarchyNode<Hier> {
    HierarchyNode { status, child_index, parent_id, bounding_box: Aabb { center: [tag; 3], half_extents: [1; 3] }, data: Hier(tag) }
}

#[test]
fn hierarchy_insert_errors() {
    let mut octree: NewOctree<Hier, Data> = NewOctree::new();
    let missing = NodeId { index: 5, generation: 0 };
    assert_eq!(
        octree.insert_hierarchy_node(Some(missing), flat(HierarchyNodeStatus::Loaded, 0, None, 0)).unwrap_err(),
        InsertNodeError::ParentNotExists
    );
    let root = octree.insert_hierarchy_node(None, flat(HierarchyNodeStatus::Loaded, 0, None, 0)).unwrap();
    assert_eq!(
        octree.insert_hierarchy_node(None, flat(HierarchyNodeStatus::Loaded, 0, None, 1)).unwrap_err(),
        InsertNodeError::RootAlreadyExists
    );
    assert_eq!(
        octree.insert_hierarchy_node(Some(root), flat(HierarchyNodeStatus::Loaded, 9, None, 2)).unwrap_err(),
        InsertNodeError::ChildIndexOutOfBounds
    );
    let child = octree.insert_hierarchy_node(Some(root), flat(HierarchyNodeStatus::Proxy, 6, None, 3)).unwrap();
    assert_eq!(
        octree.insert_hierarchy_node(Some(root), flat(HierarchyNodeStatus::Loaded, 6, None, 4)).unwrap_err(),
        InsertNodeError::ChildIndexOccupied
    );
    let c = octree.hierarchy_node(child).unwrap();
    assert_eq!(c.depth, 1);
    assert_eq!(c.parent_id, Some(root));
    assert_eq!(octree.node(child).unwrap().status, NodeStatus::HierarchyOnly);
    assert_eq!(
        octree.update_hierarchy_node(missing, flat(HierarchyNodeStatus::Loaded, 0, None, 0)).unwrap_err(),
        InsertNodeError::NodeNotFound
    );
    assert_eq!(InsertNodeError::NodeNotFound.message(), "node not found");
}

#[test]
fn flat_hierarchy_and_sub_hierarchy() {
    let nodes = vec![flat(HierarchyNodeStatus::Loaded, 0, None, 0), flat(HierarchyNodeStatus::Proxy, 2, Some(0), 1)];
    let (mut octree, ids) = NewOctree::<Hier, Data>::from_flat_hierarchy(nodes).unwrap();
    assert_eq!(octree.hierarchy_root().unwrap().children[2], ids[1]);
    assert!(octree.start_hierarchy_load(ids[1]));
    assert_eq!(octree.hierarchy_node(ids[1]).unwrap().status, HierarchyNodeStatus::Loading);
    assert!(!octree.start_hierarchy_load(ids[1]));
    let sub = vec![
        flat(HierarchyNodeStatus::Loaded, 2, None, 1),
        flat(HierarchyNodeStatus::Proxy, 0, Some(0), 5),
        flat(HierarchyNodeStatus::Proxy, 0, Some(0), 6),
    ];
    let (appended, error) = octree.append_sub_hierarchy(ids[1], sub);
    assert_eq!(appended.len(), 2);
    assert_eq!(appended[0], ids[1]);
    assert_eq!(error, Some(InsertNodeError::ChildIndexOccupied));
    let updated = octree.hierarchy_node(ids[1]).unwrap();
    assert_eq!(updated.status, HierarchyNodeStatus::Loaded);
    assert_eq!(updated.children[0], appended[1]);
    assert_eq!(octree.hierarchy_node(appended[1]).unwrap().depth, 2);
}

#[test]
fn node_data_load_cycle() {
    let nodes = vec![flat(HierarchyNodeStatus::Loaded, 0, None, 0)];
    let (mut octree, ids) = NewOctree::<Hier, Data>::from_flat_hierarchy(nodes).unwrap();
    assert!(octree.start_node_data_load(ids[0]));
    assert!(!octree.start_node_data_load(ids[0]));
    assert!(octree.store_node_data(ids[0], Data(3)));
    let n = octree.node_root().unwrap();
    assert_eq!(n.status, NodeStatus::Loaded);
    assert_eq!(n.data, Some(Data(3)));
    assert!(!octree.store_node_data(NodeId { index: 7, generation: 0 }, Data(4)));
}

#[test]
fn load_tasks_by_weight() {
    let mut tasks = OctreeLoadTasks::new();
    let a = NodeId { index: 1, generation: 0 };
    let b = NodeId { index: 2, generation: 0 };
    let c = NodeId { index: 3, generation: 0 };
    tasks.queue_load_request(1, a, 10, LoadRequestType::Hierarchy);
    tasks.queue_load_request(1, b, 30, LoadRequestType::Hierarchy);
    tasks.queue_load_request(1, c, 20, LoadRequestType::Hierarchy);
    tasks.queue_load_request(1, c, 99, LoadRequestType::NodeData);
    assert_eq!(tasks.pop_task(LoadRequestType::Hierarchy).unwrap().node_id, b);
    tasks.mark_in_flight(LoadRequestType::Hierarchy, 1, b);
    tasks.mark_in_flight(LoadRequestType::Hierarchy, 1, b);
    assert_eq!(tasks.in_flight_len(LoadRequestType::Hierarchy), 1);
    assert!(tasks.is_in_flight(LoadRequestType::Hierarchy, 1, b));
    assert!(!tasks.is_in_flight(LoadRequestType::NodeData, 1, b));
    // a request for a load in flight is not queued
    tasks.queue_load_request(1, b, 50, LoadRequestType::Hierarchy);
    assert_eq!(tasks.pop_task(LoadRequestType::Hierarchy).unwrap().node_id, c);
    assert_eq!(tasks.pop_task(LoadRequestType::Hierarchy).unwrap().node_id, a);
    assert!(tasks.pop_task(LoadRequestType::Hierarchy).is_none());
    tasks.finish_load(LoadRequestType::Hierarchy, 1, b);
    assert_eq!(tasks.in_flight_len(LoadRequestType::Hierarchy), 0);
    assert_eq!(tasks.pop_task(LoadRequestType::NodeData).unwrap().weight, 99);
}

#[test]
fn server_handles_completed_loads() {
    let nodes = vec![flat(HierarchyNodeStatus::Loaded, 0, None, 0), flat(HierarchyNodeStatus::Proxy, 3, Some(0), 1)];
    let (mut octree, ids) = NewOctree::<Hier, Data>::from_flat_hierarchy(nodes).unwrap();
    let mut tasks = OctreeLoadTasks::new();
    tasks.mark_in_flight(LoadRequestType::Hierarchy, 7, ids[1]);
    tasks.mark_in_flight(LoadRequestType::NodeData, 7, ids[0]);
    let sub = vec![flat(HierarchyNodeStatus::Loaded, 3, None, 1), flat(HierarchyNodeStatus::Proxy, 4, Some(0), 2)];
    let event = InternalOctreeEvent::SubHierarchyLoaded { id: 7, node_id: ids[1], hierarchy_nodes: sub };
    assert_eq!(handle_internal_octree_event(event, &mut tasks, Some(&mut octree)), 2);
    assert!(!tasks.is_in_flight(LoadRequestType::Hierarchy, 7, ids[1]));
    assert!(tasks.is_in_flight(LoadRequestType::NodeData, 7, ids[0]));
    let loaded = octree.hierarchy_node(ids[1]).unwrap();
    assert_eq!(loaded.status, HierarchyNodeStatus::Loaded);
    assert_eq!(octree.hierarchy_node(loaded.children[4]).unwrap().depth, 2);

    let event = InternalOctreeEvent::NodeDataLoaded { id: 7, node_id: ids[0], node_data: Data(9) };
    assert_eq!(handle_internal_octree_event(event, &mut tasks, Some(&mut octree)), 1);
    assert_eq!(tasks.in_flight_len(LoadRequestType::NodeData), 0);
    assert_eq!(octree.node_root().unwrap().data, Some(Data(9)));

    // the octree was unloaded meanwhile: the load is only marked finished
    tasks.mark_in_flight(LoadRequestType::NodeData, 8, ids[0]);
    let event = InternalOctreeEvent::NodeDataLoaded { id: 8, node_id: ids[0], node_data: Data(1) };
    assert_eq!(handle_internal_octree_event::<Hier, Data>(event, &mut tasks, None), 0);
    assert_eq!(tasks.in_flight_len(LoadRequestType::NodeData), 0);
}

#[test]
fn ready_tasks_skip_loads_in_flight() {
    let mut tasks = OctreeLoadTasks::new();
    let a = NodeId { index: 1, generation: 0 };
    let b = NodeId { index: 2, generation: 0 };
    tasks.queue_load_request(1, a, 10, LoadRequestType::NodeData);
    tasks.queue_load_request(1, b, 30, LoadRequestType::NodeData);
    tasks.mark_in_flight(LoadRequestType::NodeData, 1, b);
    // the limit is reached: nothing is taken
    assert!(tasks.pop_ready_task(LoadRequestType::NodeData, 1).is_none());
    // b is heavier but in flight: it is dropped and a is returned
    assert_eq!(tasks.pop_ready_task(LoadRequestType::NodeData, 2).unwrap().node_id, a);
    assert!(tasks.pop_ready_task(LoadRequestType::NodeData, 2).is_none());
    assert!(tasks.pop_task(LoadRequestType::NodeData).is_none());
}

#[test]
fn loaded_list_cut_before_a_forward_parent() {
    let nodes = vec![flat(HierarchyNodeStatus::Loaded, 0, None, 0), flat(HierarchyNodeStatus::Proxy, 3, Some(0), 1)];
    let (octree, ids) = NewOctree::<Hier, Data>::from_flat_hierarchy(nodes).unwrap();
    let mut sub = vec![
        flat(HierarchyNodeStatus::Loaded, 3, None, 1),
        flat(HierarchyNodeStatus::Proxy, 4, Some(0), 2),
        flat(HierarchyNodeStatus::Proxy, 5, Some(2), 3),
        flat(HierarchyNodeStatus::Proxy, 6, Some(0), 4),
    ];
    assert_eq!(cut_to_appendable(&octree, ids[1], &mut sub), Some(2));
    assert_eq!(sub.len(), 2);
    let mut fine = vec![flat(HierarchyNodeStatus::Loaded, 3, None, 1), flat(HierarchyNodeStatus::Proxy, 4, Some(0), 2)];
    assert_eq!(cut_to_appendable(&octree, ids[1], &mut fine), None);
    assert_eq!(fine.len(), 2);
}
