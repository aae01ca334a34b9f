//! Axis-aligned bounding boxes carried by octree nodes.
use vstd::prelude::*;

verus! {

/// An axis-aligned box given by its center and half extents.
///
/// Each coordinate is held as the IEEE-754 bit pattern of an `f32`
/// (`f32::to_bits`); the octree logic carries boxes without reading them.
#[derive(Clone, Copy, Debug)]
pub struct Aabb {
    pub center: [u32; 3],
    pub half_extents: [u32; 3],
}

} // verus!
