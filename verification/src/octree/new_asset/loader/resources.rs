//! Load requests waiting by priority, and the loads in flight.
use crate::octree::storage::NodeId;
use vstd::prelude::*;

verus! {

/// A request to load the hierarchy or the data of a node.
///
/// `weight` orders the requests: it is the order key of the request's floating-point
/// weight (a higher key for a higher weight).
#[derive(Clone, Copy, Debug, PartialEq, Eq, Structural)]
pub struct OctreeNodeLoadTask {
    pub asset_id: u128,
    pub node_id: NodeId,
    pub weight: u32,
}

/// What a load request loads.
#[derive(Clone, Copy, Debug, PartialEq, Eq, Structural)]
pub enum LoadRequestType {
    Hierarchy,
    NodeData,
}

/// The load requests waiting, and the loads in flight (by octree and node), for
/// hierarchies and for node data.
#[derive(Debug)]
pub struct OctreeLoadTasks {
    pub hierarchy_heap: Vec<OctreeNodeLoadTask>,
    pub node_heap: Vec<OctreeNodeLoadTask>,
    pub hierarchy_in_flight: Vec<(u128, NodeId)>,
    pub node_in_flight: Vec<(u128, NodeId)>,
}

/// The position of the first request of greatest weight among the first `n`.
pub open spec fn heaviest_below(s: Seq<OctreeNodeLoadTask>, n: int) -> int
    decreases n,
{
    if n <= 1 {
        0
    } else {
        let best = heaviest_below(s, n - 1);
        if s[n - 1].weight > s[best].weight {
            n - 1
        } else {
            best
        }
    }
}

/// `heaviest_below` is a position of greatest weight.
pub proof fn lemma_heaviest_below(s: Seq<OctreeNodeLoadTask>, n: int)
    requires
        1 <= n <= s.len(),
    ensures
        0 <= heaviest_below(s, n) < n,
        forall|j: int| 0 <= j < n ==> (#[trigger] s[j]).weight <= s[heaviest_below(s, n)].weight,
    decreases n,
{
    if n > 1 {
        lemma_heaviest_below(s, n - 1);
    }
}

impl OctreeLoadTasks {
    /// The waiting requests of one type.
    pub open spec fn heap(&self, t: LoadRequestType) -> Seq<OctreeNodeLoadTask> {
        match t {
            LoadRequestType::Hierarchy => self.hierarchy_heap@,
            LoadRequestType::NodeData => self.node_heap@,
        }
    }

    /// The loads of one type in flight.
    pub open spec fn in_flight(&self, t: LoadRequestType) -> Seq<(u128, NodeId)> {
        match t {
            LoadRequestType::Hierarchy => self.hierarchy_in_flight@,
            LoadRequestType::NodeData => self.node_in_flight@,
        }
    }

    /// `after` differs from `self` at most in the queue and the loads of type `t`.
    pub open spec fn others_kept(&self, after: Self, t: LoadRequestType) -> bool {
        &&& t != LoadRequestType::Hierarchy ==> after.hierarchy_heap@ == self.hierarchy_heap@
            && after.hierarchy_in_flight@ == self.hierarchy_in_flight@
        &&& t != LoadRequestType::NodeData ==> after.node_heap@ == self.node_heap@ && after.node_in_flight@
            == self.node_in_flight@
    }

    /// No request and no load in flight.
    pub fn new() -> (r: Self)
        ensures
            r.hierarchy_heap@.len() == 0,
            r.node_heap@.len() == 0,
            r.hierarchy_in_flight@.len() == 0,
            r.node_in_flight@.len() == 0,
    {
        OctreeLoadTasks {
            hierarchy_heap: Vec::new(),
            node_heap: Vec::new(),
            hierarchy_in_flight: Vec::new(),
            node_in_flight: Vec::new(),
        }
    }

    /// Whether the load of node `node_id` of octree `asset_id`, of type `t`, is in flight.
    pub fn is_in_flight(&self, t: LoadRequestType, asset_id: u128, node_id: NodeId) -> (b: bool)
        ensures
            b == self.in_flight(t).contains((asset_id, node_id)),
    {
        let flights = match t {
            LoadRequestType::Hierarchy => &self.hierarchy_in_flight,
            LoadRequestType::NodeData => &self.node_in_flight,
        };
        let mut i: usize = 0;
        while i < flights.len()
            invariant
                i <= flights@.len(),
                *flights == match t {
                    LoadRequestType::Hierarchy => self.hierarchy_in_flight,
                    LoadRequestType::NodeData => self.node_in_flight,
                },
                forall|j: int| 0 <= j < i ==> flights@[j] != (asset_id, node_id),
            decreases flights@.len() - i,
        {
            let (a, n) = flights[i];
            if a == asset_id && n == node_id {
                return true;
            }
            i = i + 1;
        }
        false
    }

    /// The number of loads of type `t` in flight.
    pub fn in_flight_len(&self, t: LoadRequestType) -> (n: usize)
        ensures
            n == self.in_flight(t).len(),
    {
        match t {
            LoadRequestType::Hierarchy => self.hierarchy_in_flight.len(),
            LoadRequestType::NodeData => self.node_in_flight.len(),
        }
    }

    /// Queues a request to load node `node_id` of octree `asset_id`, unless such a load is
    /// in flight already.
    pub fn queue_load_request(&mut self, asset_id: u128, node_id: NodeId, weight: u32, request_type: LoadRequestType)
        ensures
            old(self).others_kept(*final(self), request_type),
            final(self).in_flight(request_type) == old(self).in_flight(request_type),
            final(self).heap(request_type) == (if old(self).in_flight(request_type).contains((asset_id, node_id)) {
                old(self).heap(request_type)
            } else {
                old(self).heap(request_type).push(OctreeNodeLoadTask { asset_id, node_id, weight })
            }),
    {
        if !self.is_in_flight(request_type, asset_id, node_id) {
            let task = OctreeNodeLoadTask { asset_id, node_id, weight };
            match request_type {
                LoadRequestType::Hierarchy => self.hierarchy_heap.push(task),
                LoadRequestType::NodeData => self.node_heap.push(task),
            }
        }
    }

    /// Takes the waiting request of type `t` of greatest weight (the first such), if any.
    pub fn pop_task(&mut self, t: LoadRequestType) -> (r: Option<OctreeNodeLoadTask>)
        ensures
            old(self).others_kept(*final(self), t),
            final(self).in_flight(t) == old(self).in_flight(t),
            old(self).heap(t).len() == 0 ==> r is None && final(self).heap(t) == old(self).heap(t),
            old(self).heap(t).len() > 0 ==> {
                let i = heaviest_below(old(self).heap(t), old(self).heap(t).len() as int);
                &&& r == Some(old(self).heap(t)[i])
                &&& final(self).heap(t) == old(self).heap(t).remove(i)
                &&& forall|j: int| 0 <= j < old(self).heap(t).len() ==> (#[trigger] old(self).heap(t)[j]).weight <= old(self).heap(
                    t,
                )[i].weight
            },
    {
        let heap = match t {
            LoadRequestType::Hierarchy => &mut self.hierarchy_heap,
            LoadRequestType::NodeData => &mut self.node_heap,
        };
        if heap.len() == 0 {
            return None;
        }
        let ghost s = heap@;
        let mut best: usize = 0;
        let mut k: usize = 1;
        while k < heap.len()
            invariant
                1 <= k <= heap@.len(),
                heap@ == s,
                best as int == heaviest_below(s, k as int),
            decreases heap@.len() - k,
        {
            proof {
                lemma_heaviest_below(s, k as int);
            }
            if heap[k].weight > heap[best].weight {
                best = k;
            }
            k = k + 1;
        }
        proof {
            lemma_heaviest_below(s, s.len() as int);
        }
        Some(heap.remove(best))
    }

    /// The next request of type `t` to start, when fewer than `max_concurrent` loads of
    /// that type are in flight: the waiting requests are taken by greatest weight, those
    /// whose load is in flight already are dropped, and the first other one is returned.
    pub fn pop_ready_task(&mut self, t: LoadRequestType, max_concurrent: usize) -> (r: Option<OctreeNodeLoadTask>)
        ensures
            old(self).others_kept(*final(self), t),
            final(self).in_flight(t) == old(self).in_flight(t),
            old(self).in_flight(t).len() >= max_concurrent ==> r is None && final(self).heap(t) == old(self).heap(t),
            old(self).in_flight(t).len() < max_concurrent ==> exists|dropped: Seq<OctreeNodeLoadTask>|
                #![trigger dropped.to_multiset()]
                {
                &&& forall|j: int| 0 <= j < dropped.len() ==> old(self).in_flight(t).contains(
                    ((#[trigger] dropped[j]).asset_id, dropped[j].node_id),
                )
                &&& match r {
                    Some(task) => {
                        &&& !old(self).in_flight(t).contains((task.asset_id, task.node_id))
                        &&& forall|j: int| 0 <= j < dropped.len() ==> task.weight <= (#[trigger] dropped[j]).weight
                        &&& old(self).heap(t).to_multiset() == final(self).heap(t).to_multiset().add(
                            dropped.to_multiset(),
                        ).insert(task)
                        &&& forall|j: int| 0 <= j < final(self).heap(t).len() ==> (#[trigger] final(self).heap(t)[j]).weight
                            <= task.weight
                    },
                    None => final(self).heap(t).len() == 0 && old(self).heap(t).to_multiset() == dropped.to_multiset(),
                }
            },
    {
        if self.in_flight_len(t) >= max_concurrent {
            return None;
        }
        let ghost mut dropped: Seq<OctreeNodeLoadTask> = Seq::empty();
        proof {
            broadcast use vstd::seq_lib::group_to_multiset_ensures, vstd::multiset::group_multiset_axioms;
            assert(dropped.to_multiset().len() == 0);
            assert(self.heap(t).to_multiset().add(dropped.to_multiset()) =~= self.heap(t).to_multiset());
        }
        loop
            invariant
                old(self).others_kept(*self, t),
                self.in_flight(t) == old(self).in_flight(t),
                old(self).in_flight(t).len() < max_concurrent,
                forall|j: int| 0 <= j < dropped.len() ==> old(self).in_flight(t).contains(
                    ((#[trigger] dropped[j]).asset_id, dropped[j].node_id),
                ),
                old(self).heap(t).to_multiset() == self.heap(t).to_multiset().add(dropped.to_multiset()),
                forall|j: int, h: int| 0 <= j < dropped.len() && 0 <= h < self.heap(t).len() ==> (#[trigger] self.heap(t)[h]).weight
                    <= (#[trigger] dropped[j]).weight,
            decreases self.heap(t).len(),
        {
            let ghost before = self.heap(t);
            match self.pop_task(t) {
                None => {
                    proof {
                        broadcast use vstd::seq_lib::group_to_multiset_ensures, vstd::multiset::group_multiset_axioms;
                        assert(before.to_multiset().len() == 0);
                        assert(before.to_multiset() =~= vstd::multiset::Multiset::empty());
                        assert(old(self).heap(t).to_multiset() =~= dropped.to_multiset());
                    }
                    return None;
                },
                Some(task) => {
                    let i = Ghost(heaviest_below(before, before.len() as int));
                    proof {
                        broadcast use vstd::seq_lib::group_to_multiset_ensures, vstd::multiset::group_multiset_axioms;
                        lemma_heaviest_below(before, before.len() as int);
                        vstd::seq_lib::to_multiset_remove(before, i@);
                        vstd::seq_lib::to_multiset_build(dropped, task);
                        assert(before.to_multiset().count(task) > 0);
                        assert(before.to_multiset() =~= self.heap(t).to_multiset().insert(task));
                    }
                    if self.is_in_flight(t, task.asset_id, task.node_id) {
                        proof {
                            broadcast use vstd::multiset::group_multiset_axioms;
                            let d2 = dropped.push(task);
                            assert forall|j: int| 0 <= j < d2.len() implies old(self).in_flight(t).contains(
                                ((#[trigger] d2[j]).asset_id, d2[j].node_id),
                            ) by {
                                if j < dropped.len() {
                                    assert(d2[j] == dropped[j]);
                                }
                            }
                            assert(old(self).heap(t).to_multiset() =~= self.heap(t).to_multiset().add(d2.to_multiset()));
                            assert forall|j: int, h: int| 0 <= j < d2.len() && 0 <= h < self.heap(t).len() implies (#[trigger] self.heap(t)[h]).weight
                                <= (#[trigger] d2[j]).weight by {
                                let hh = if h < i@ { h } else { h + 1 };
                                assert(self.heap(t)[h] == before[hh]);
                                if j < dropped.len() {
                                    assert(d2[j] == dropped[j]);
                                }
                            }
                            dropped = d2;
                        }
                    } else {
                        proof {
                            broadcast use vstd::multiset::group_multiset_axioms;
                            assert(old(self).heap(t).to_multiset() =~= self.heap(t).to_multiset().add(
                                dropped.to_multiset(),
                            ).insert(task));
                            assert forall|j: int| 0 <= j < dropped.len() implies task.weight <= (#[trigger] dropped[j]).weight by {
                                assert(before[i@] == task);
                            }
                            assert forall|j: int| 0 <= j < self.heap(t).len() implies (#[trigger] self.heap(t)[j]).weight
                                <= task.weight by {
                                if j < i@ {
                                    assert(self.heap(t)[j] == before[j]);
                                } else {
                                    assert(self.heap(t)[j] == before[j + 1]);
                                }
                            }
                        }
                        return Some(task);
                    }
                },
            }
        }
    }

    /// Records the load of node `node_id` of octree `asset_id`, of type `t`, as in flight.
    pub fn mark_in_flight(&mut self, t: LoadRequestType, asset_id: u128, node_id: NodeId)
        ensures
            old(self).others_kept(*final(self), t),
            final(self).heap(t) == old(self).heap(t),
            final(self).in_flight(t) == (if old(self).in_flight(t).contains((asset_id, node_id)) {
                old(self).in_flight(t)
            } else {
                old(self).in_flight(t).push((asset_id, node_id))
            }),
    {
        if !self.is_in_flight(t, asset_id, node_id) {
            match t {
                LoadRequestType::Hierarchy => self.hierarchy_in_flight.push((asset_id, node_id)),
                LoadRequestType::NodeData => self.node_in_flight.push((asset_id, node_id)),
            }
        }
    }

    /// Records the load of node `node_id` of octree `asset_id`, of type `t`, as finished.
    pub fn finish_load(&mut self, t: LoadRequestType, asset_id: u128, node_id: NodeId)
        ensures
            old(self).others_kept(*final(self), t),
            final(self).heap(t) == old(self).heap(t),
            !final(self).in_flight(t).contains((asset_id, node_id)),
            forall|k: (u128, NodeId)| k != (asset_id, node_id) ==> (final(self).in_flight(t).contains(k)
                <==> old(self).in_flight(t).contains(k)),
    {
        let flights = match t {
            LoadRequestType::Hierarchy => &mut self.hierarchy_in_flight,
            LoadRequestType::NodeData => &mut self.node_in_flight,
        };
        let ghost s = flights@;
        let mut kept: Vec<(u128, NodeId)> = Vec::new();
        let mut i: usize = 0;
        while i < flights.len()
            invariant
                i <= flights@.len(),
                flights@ == s,
                !kept@.contains((asset_id, node_id)),
                forall|k: (u128, NodeId)| k != (asset_id, node_id) ==> (kept@.contains(k) <==> s.take(i as int).contains(k)),
            decreases flights@.len() - i,
        {
            let (a, n) = flights[i];
            let ghost before = kept@;
            if !(a == asset_id && n == node_id) {
                kept.push((a, n));
            }
            proof {
                assert(s.take(i + 1) == s.take(i as int).push((a, n)));
                assert forall|k: (u128, NodeId)| k != (asset_id, node_id) implies (kept@.contains(k) <==> s.take(i + 1).contains(k)) by {
                    let t0 = s.take(i as int);
                    let t1 = s.take(i + 1);
                    assert(before.contains(k) <==> t0.contains(k));
                    assert(t1.contains(k) <==> t0.contains(k) || k == (a, n)) by {
                        if t1.contains(k) {
                            let a2 = choose|a2: int| 0 <= a2 < t1.len() && t1[a2] == k;
                            if a2 < i {
                                assert(t0[a2] == k);
                            }
                        }
                        if t0.contains(k) {
                            let a2 = choose|a2: int| 0 <= a2 < t0.len() && t0[a2] == k;
                            assert(t1[a2] == k);
                        }
                        if k == (a, n) {
                            assert(t1[i as int] == k);
                        }
                    }
                    assert(kept@.contains(k) <==> before.contains(k) || (k == (a, n) && kept@.len() > before.len())) by {
                        if kept@.contains(k) {
                            let a2 = choose|a2: int| 0 <= a2 < kept@.len() && kept@[a2] == k;
                            if a2 < before.len() {
                                assert(before[a2] == k);
                            }
                        }
                        if before.contains(k) {
                            let a2 = choose|a2: int| 0 <= a2 < before.len() && before[a2] == k;
                            assert(kept@[a2] == k);
                        }
                        if k == (a, n) && kept@.len() > before.len() {
                            assert(kept@[before.len() as int] == k);
                        }
                    }
                }
                assert(!kept@.contains((asset_id, node_id))) by {
                    if kept@.contains((asset_id, node_id)) {
                        let a2 = choose|a2: int| 0 <= a2 < kept@.len() && kept@[a2] == (asset_id, node_id);
                        if a2 < before.len() {
                            assert(before[a2] == (asset_id, node_id));
                        }
                    }
                }
            }
            i = i + 1;
        }
        proof {
            assert(s.take(s.len() as int) == s);
        }
        *flights = kept;
    }
}

} // verus!
