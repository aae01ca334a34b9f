use bevy_pointcloud::octree::storage::NodeId;
use bevy_pointcloud::octree::visibility::{RenderOctreeIndex, VisibleOctreeNode};
use bevy_pointcloud::pointcloud_octree::visible_nodes_texture::{
    ensure_buffer_size, fill_visible_nodes, mapping_buffer_data, NodesMappingLayout, VisibleOctreeNodeUniform,
    MAX_NODES, MAX_NODES_PER_OCTREE, REQUIRED_BUFFER_SIZE,
};

fn visible(index: usize, mask: u8, first: usize) -> VisibleOctreeNode {
    VisibleOctreeNode {
        id: NodeId { index, generation: 1 },
        children: [NodeId::zero(); 8],
        children_mask: mask,
        first_child_index: first,
    }
}

#[test]
fn buffer_grows_to_texture_size() {
    let mut buffer = Vec::new();
    ensure_buffer_size(&mut buffer);
    assert_eq!(buffer.len(), REQUIRED_BUFFER_SIZE);
    assert_eq!(REQUIRED_BUFFER_SIZE, 2048 * 64);
    buffer[3].children_mask = 9;
    ensure_buffer_size(&mut buffer);
    assert_eq!(buffer.len(), REQUIRED_BUFFER_SIZE);
    assert_eq!(buffer[3].children_mask, 9);
}

#[test]
fn visible_nodes_written_to_rows() {
    let mut index: RenderOctreeIndex<()> = RenderOctreeIndex::new();
    let row_a = index.add_octree(100);
    let row_b = index.add_octree(200);
    let mut buffer = Vec::new();
    ensure_buffer_size(&mut buffer);
    let octrees = vec![
        (200u64, vec![visible(0, 0b11, 1), visible(4, 0, 0)]),
        (100u64, vec![visible(7, 0b100, 70_000)]),
    ];
    let mapping = fill_visible_nodes(&mut buffer, &index, &octrees);
    assert_eq!(mapping.len(), 2);
    let b = buffer[row_b * MAX_NODES_PER_OCTREE];
    assert_eq!((b.children_mask, b.first_child_index), (0b11, 1));
    assert_eq!(buffer[row_b * MAX_NODES_PER_OCTREE + 1].children_mask, 0);
    let a = buffer[row_a * MAX_NODES_PER_OCTREE];
    // the first child index is truncated to 16 bits
    assert_eq!((a.children_mask, a.first_child_index), (0b100, (70_000 % 65_536) as u16));
    assert_eq!(mapping[row_b].get(&NodeId { index: 4, generation: 1 }.key()), Some(&1));
    assert_eq!(mapping[row_a].get(&NodeId { index: 7, generation: 1 }.key()), Some(&0));
    assert_eq!(mapping[row_a].len(), 1);
}

#[test]
fn uniform_of_visible_node() {
    let u = VisibleOctreeNodeUniform::from_visible_node(&visible(1, 0b1010, 3));
    assert_eq!((u.children_mask, u._padding, u.first_child_index), (0b1010, 0, 3));
    let z = VisibleOctreeNodeUniform::zero();
    assert_eq!((z.children_mask, z.first_child_index), (0, 0));
}

#[test]
fn mapping_buffer_layout() {
    let data = mapping_buffer_data(3, 256);
    assert_eq!(data.len(), MAX_NODES * 256);
    let entry = 5 * 256;
    let expected: Vec<u8> = [3u32, 5u32].iter().flat_map(|v| v.to_ne_bytes()).collect();
    assert_eq!(&data[entry..entry + 8], &expected[..]);
    assert!(data[entry + 8..entry + 256].iter().all(|b| *b == 0));
}

#[test]
fn mapping_offsets() {
    let layout = NodesMappingLayout::from_alignment(256);
    assert_eq!(layout.max_nodes_per_buffer, 256);
    assert_eq!(layout.nb_buffers, 8);
    assert_eq!(layout.node_mapping_offset(0), (0, 0));
    assert_eq!(layout.node_mapping_offset(300), (1, 44 * 256));
    let odd = NodesMappingLayout::from_alignment(48);
    assert_eq!(odd.max_nodes_per_buffer, 1365);
    assert_eq!(odd.nb_buffers, 1);
    assert_eq!(odd.node_mapping_offset(1366), (1, 48));
}
