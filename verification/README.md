# bevy_pointcloud

The octree logic of a point cloud renderer for Bevy, written in Verus: octrees of point
cloud nodes (complete, or loaded lazily node by node from Potree data sets), the walk
that finds the nodes a camera sees, the extraction and preparation of visible nodes for
the render world under a per-frame byte budget, and the queue of loads in flight.

Layout:

- `src/` is the verified library. Its main modules:
  - `octree::storage`: a slab of generational handles;
  - `octree::asset`, `octree::new_asset::asset`: the two kinds of octree;
  - `octree::visibility`, `octree::new_asset::visibility`: the breadth-first walks that
    list visible nodes as a tree;
  - `octree::new_asset::extract`: extraction, the byte budget, preparation;
  - `octree::new_asset::loader`, `octree::new_asset::server`: load requests and
    completed loads;
  - `loader::potree`: the Potree hierarchy, data set paths and point chunks;
  - `pointcloud_octree`: the visible-node texture, the Potree node mapping, and the
    visible nodes of point cloud octrees with their depth-first walk;
  - `slab_specs`, `platform_specs`: the contracts taken on trust for the `slab` and
    `bevy_platform` collections.
- `tests/` runs the library on concrete values.
- `app/` holds what the library leaves out: error types with their messages, settings
  and metadata (de)serialization, the floating-point culling and chunk offsets, load
  priorities, and the per-frame passes that hand the library its inputs (extraction,
  preparation, the visible nodes texture buffer).
