//! Octrees of generational node handles.
use vstd::prelude::*;

pub mod asset;
pub mod extract;
pub mod new_asset;
pub mod render_asset;
pub mod storage;
pub mod visibility;

verus! {

} // verus!
