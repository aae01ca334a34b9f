//! Potree point clouds as octrees.
pub mod mapping;
