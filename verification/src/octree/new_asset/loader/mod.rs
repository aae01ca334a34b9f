//! The queues of hierarchy and node data loads of lazily loaded octrees.
pub mod resources;
