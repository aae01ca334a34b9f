//! Octree storage, hierarchy, visibility and point-cloud loading logic.
use vstd::prelude::*;

pub mod bits;
pub mod geometry;
pub mod loader;
pub mod octree;
pub mod platform_specs;
pub mod pointcloud_octree;
pub mod slab_specs;

verus! {

} // verus!
