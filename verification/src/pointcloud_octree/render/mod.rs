//! Rendering of point cloud octrees.
pub mod phase;
