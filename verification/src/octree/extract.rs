//! Which octree assets to extract into the render world, from the asset events of a frame.
use crate::octree::new_asset::extract::limiter::{RenderOctreeNodesBytesPerFrame, RenderOctreeNodesBytesPerFrameLimiter};
use crate::platform_specs::{asset_set, asset_set_insert, asset_set_new, asset_set_remove};
use bevy_platform::collections::HashSet;
use vstd::prelude::*;

verus! {

/// The per-frame upload limit of octree assets.
pub type RenderAssetBytesPerFrame = RenderOctreeNodesBytesPerFrame;

/// The render-world side of the per-frame upload limit of octree assets.
pub type RenderAssetBytesPerFrameLimiter = RenderOctreeNodesBytesPerFrameLimiter;

/// An event on an octree asset, by asset key.
#[derive(Clone, Copy, Debug, PartialEq, Eq, Structural)]
pub enum AssetEvent {
    Added { id: u128 },
    Modified { id: u128 },
    Removed { id: u128 },
    /// The last handle to the asset was dropped.
    Unused { id: u128 },
    LoadedWithDependencies { id: u128 },
}

/// The assets a frame's events ask to extract, those modified, and those no longer used.
pub struct AssetEventSets {
    pub needs_extracting: HashSet<u128>,
    pub modified: HashSet<u128>,
    pub removed: HashSet<u128>,
}

/// The three sets after the events `events`, in order: an added or modified asset is to
/// be extracted (a modified one is also listed as modified); an unused asset is no longer
/// to be extracted nor modified, and is listed as removed; other events change nothing.
pub open spec fn event_sets(events: Seq<AssetEvent>) -> (Set<u128>, Set<u128>, Set<u128>)
    decreases events.len(),
{
    if events.len() == 0 {
        (Set::empty(), Set::empty(), Set::empty())
    } else {
        let (n, m, r) = event_sets(events.drop_last());
        match events.last() {
            AssetEvent::Added { id } => (n.insert(id), m, r),
            AssetEvent::Modified { id } => (n.insert(id), m.insert(id), r),
            AssetEvent::Removed { .. } => (n, m, r),
            AssetEvent::Unused { id } => (n.remove(id), m.remove(id), r.insert(id)),
            AssetEvent::LoadedWithDependencies { .. } => (n, m, r),
        }
    }
}

/// Sorts a frame's asset events into the assets to extract, modified and removed.
pub fn classify_asset_events(events: &Vec<AssetEvent>) -> (r: AssetEventSets)
    ensures
        (asset_set(r.needs_extracting), asset_set(r.modified), asset_set(r.removed)) == event_sets(events@),
{
    let mut needs_extracting = asset_set_new();
    let mut modified = asset_set_new();
    let mut removed = asset_set_new();
    let mut i: usize = 0;
    while i < events.len()
        invariant
            i <= events@.len(),
            (asset_set(needs_extracting), asset_set(modified), asset_set(removed)) == event_sets(events@.take(i as int)),
        decreases events@.len() - i,
    {
        proof {
            assert(events@.take(i + 1).drop_last() == events@.take(i as int));
            assert(events@.take(i + 1).last() == events@[i as int]);
        }
        match events[i] {
            AssetEvent::Added { id } => {
                asset_set_insert(&mut needs_extracting, id);
            },
            AssetEvent::Modified { id } => {
                asset_set_insert(&mut needs_extracting, id);
                asset_set_insert(&mut modified, id);
            },
            AssetEvent::Removed { .. } => {},
            AssetEvent::Unused { id } => {
                asset_set_remove(&mut needs_extracting, id);
                asset_set_remove(&mut modified, id);
                asset_set_insert(&mut removed, id);
            },
            AssetEvent::LoadedWithDependencies { .. } => {},
        }
        i = i + 1;
    }
    proof {
        assert(events@.take(events@.len() as int) == events@);
    }
    AssetEventSets { needs_extracting, modified, removed }
}

/// An asset whose last event is that it is no longer used is not extracted, is not
/// listed as modified, and is listed as removed, whatever came before.
pub proof fn law_unused_stops_extraction(events: Seq<AssetEvent>, id: u128)
    requires
        events.len() > 0,
        events.last() == (AssetEvent::Unused { id }),
    ensures
        !event_sets(events).0.contains(id),
        !event_sets(events).1.contains(id),
        event_sets(events).2.contains(id),
{
}

/// An asset added after it was no longer used is extracted again.
pub proof fn law_added_again_is_extracted(events: Seq<AssetEvent>, id: u128)
    requires
        events.len() > 0,
        events.last() == (AssetEvent::Added { id }),
    ensures
        event_sets(events).0.contains(id),
{
}

} // verus!
