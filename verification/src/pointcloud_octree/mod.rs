//! Rendering data of point cloud octrees.
pub mod potree;
pub mod render;
pub mod visibility;
pub mod visible_nodes_texture;
