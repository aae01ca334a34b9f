//! What the render phases of point cloud octrees know of the items they draw.
use crate::octree::storage::NodeId;
use vstd::prelude::*;

verus! {

/// A phase item that draws one octree node.
pub trait PointCloudOctree3dPhase {
    /// The handle of the node the item draws.
    fn node_id(&self) -> NodeId;
}

/// Data that must be identical for phase items to be batched together: the octree asset
/// (by key) and the node.
#[derive(Clone, Copy, Debug, PartialEq, Eq, Structural, PartialOrd, Ord, Hash)]
pub struct PointCloudOctree3dBinKey {
    pub asset_id: u128,
    pub node_id: NodeId,
}

} // verus!
