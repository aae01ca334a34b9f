//! Octrees whose hierarchy is loaded lazily, node by node.
use std::marker::PhantomData;
use vstd::prelude::*;

pub mod asset;
pub mod extract;
pub mod hierarchy;
pub mod loader;
pub mod node;
pub mod server;
pub mod visibility;

verus! {

/// Registers the lazily loaded octrees of hierarchy data `H` and node data `T` as assets.
pub struct NewOctreeAssetPlugin<H, T>(pub PhantomData<(H, T)>);

impl<H, T> NewOctreeAssetPlugin<H, T> {
    /// The plugin.
    pub fn new() -> (r: Self) {
        NewOctreeAssetPlugin(PhantomData)
    }
}

} // verus!
