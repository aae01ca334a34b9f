//! Loaders of point cloud formats.
pub mod potree;
