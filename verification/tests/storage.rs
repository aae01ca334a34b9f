use bevy_pointcloud::geometry::Aabb;
use bevy_pointcloud::octree::asset::{first_one, InsertNodeError, Octree};
use bevy_pointcloud::octree::storage::{GenerationalSlab, NodeId};

fn aabb() -> Aabb {
    Aabb { center: [1, 2, 3], half_extents: [4, 5, 6] }
}

#[test]
fn slab_get_after_insert() {
    let mut slab: GenerationalSlab<&str> = GenerationalSlab::new();
    let a = slab.insert("a");
    let b = slab.insert("b");
    assert_eq!(slab.get(a), Some(&"a"));
    assert_eq!(slab.get(b), Some(&"b"));
    assert_eq!(slab.len(), 2);
    assert!(!slab.is_empty());
}

#[test]
fn slab_stale_handle_after_reuse() {
    let mut slab: GenerationalSlab<u32> = GenerationalSlab::new();
    let a = slab.insert(1);
    assert_eq!(slab.remove(a), Some(1));
    assert_eq!(slab.remove(a), None);
    let b = slab.insert(2);
    assert_eq!(b.index, a.index);
    assert_ne!(b.generation, a.generation);
    assert_eq!(slab.get(a), None);
    assert_eq!(slab.get(b), Some(&2));
}

#[test]
fn slab_get_mut_and_iter() {
    let mut slab: GenerationalSlab<u32> = GenerationalSlab::new();
    let a = slab.insert(1);
    let b = slab.insert(2);
    *slab.get_mut(b).unwrap() = 20;
    let all: Vec<(NodeId, u32)> = slab.iter().into_iter().map(|(id, v)| (id, *v)).collect();
    assert_eq!(all, vec![(a, 1), (b, 20)]);
}

#[test]
fn slab_vacant_entry_key_is_next_handle() {
    let mut slab: GenerationalSlab<u32> = GenerationalSlab::new();
    let entry = slab.vacant_entry();
    let key = entry.key();
    *entry.insert(7) += 1;
    assert_eq!(slab.get(key), Some(&8));
}

#[test]
fn node_key_separates_index_and_generation() {
    let a = NodeId { index: 1, generation: 0 };
    let b = NodeId { index: 0, generation: 1 };
    assert_ne!(a.key(), b.key());
    assert_eq!(a.key(), 1u128 << 64);
    assert_eq!(b.key(), 1);
    assert_eq!(NodeId::zero().key(), 0);
}

#[test]
fn first_one_finds_lowest_set_bit() {
    assert_eq!(first_one(0), None);
    assert_eq!(first_one(0b0000_0100), Some(2));
    assert_eq!(first_one(0b1000_0000), Some(7));
    assert_eq!(first_one(0b1010_0000), Some(5));
}

#[test]
fn octree_insert_links_and_errors() {
    let mut octree: Octree<u8> = Octree::new();
    assert!(octree.root().is_none());
    let root = octree.insert(None, aabb(), 0).unwrap();
    assert_eq!(octree.insert(None, aabb(), 1).unwrap_err(), InsertNodeError::RootAlreadyExists);
    let child = octree.insert(Some((root, 3)), aabb(), 2).unwrap();
    assert_eq!(octree.insert(Some((root, 3)), aabb(), 3).unwrap_err(), InsertNodeError::ChildIndexOccupied);
    assert_eq!(octree.insert(Some((root, 8)), aabb(), 4).unwrap_err(), InsertNodeError::ChildIndexOutOfBounds);
    let missing = NodeId { index: 99, generation: 0 };
    assert_eq!(octree.insert(Some((missing, 0)), aabb(), 5).unwrap_err(), InsertNodeError::ParentNotExists);
    let r = octree.get(root).unwrap();
    assert_eq!(r.children_mask, 0b0000_1000);
    assert_eq!(r.children[3], child);
    let c = octree.get(child).unwrap();
    assert_eq!(c.parent_id, Some(root));
    assert_eq!(c.child_index, 3);
    assert_eq!(c.data, 2);
}

#[test]
fn octree_take_changes_empties_logs() {
    let mut octree: Octree<u8> = Octree::from_root(aabb(), 1);
    let root = octree.root().unwrap().id;
    let child = octree.insert(Some((root, 0)), aabb(), 2).unwrap();
    let changes = octree.take_changes();
    assert_eq!(changes.added, vec![root, child]);
    assert!(changes.modified.is_empty());
    assert!(changes.removed.is_empty());
    assert_eq!(changes.ids, vec![root, child]);
    assert_eq!(changes.nodes[1].data, 2);
    let again = octree.take_changes();
    assert!(again.added.is_empty());
    assert!(again.ids.is_empty());
}

#[test]
fn octree_handles_follow_slots() {
    let mut o: Octree<u32> = Octree::new();
    let r = o.insert(None, aabb(), 0).unwrap();
    let c = o.insert(Some((r, 2)), aabb(), 1).unwrap();
    assert_eq!(r, NodeId { index: 0, generation: 0 });
    assert_eq!(c, NodeId { index: 1, generation: 0 });
    assert!(matches!(o.insert(Some((r, 2)), aabb(), 2), Err(InsertNodeError::ChildIndexOccupied)));
    assert!(o.get(NodeId { index: 2, generation: 0 }).is_none());
    let single = Octree::from_root(aabb(), 5u32);
    assert_eq!(single.root().unwrap().id, NodeId { index: 0, generation: 0 });
}

#[test]
fn slab_reuses_freed_slot_with_next_generation() {
    let mut s = GenerationalSlab::new();
    let a = s.insert(10);
    assert_eq!(s.remove(a), Some(10));
    let b = s.insert(20);
    assert_eq!(b, NodeId { index: 0, generation: 1 });
    assert!(s.get(a).is_none());
    assert_eq!(s.get(b), Some(&20));
}
