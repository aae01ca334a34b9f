//! Preparing extracted octree nodes for the GPU, within the per-frame upload budget.
use crate::octree::asset::OctreeNode;
use crate::octree::new_asset::extract::limiter::RenderOctreeNodesBytesPerFrameLimiter;
use crate::octree::render_asset::RenderOctree;
use crate::octree::storage::{node_key, NodeId};
use std::collections::HashMap;
use vstd::prelude::*;

verus! {

broadcast use vstd::std_specs::hash::group_hash_axioms;

/// Why a node could not be prepared.
pub enum PrepareOctreeNodeError<T> {
    /// Not possible yet: the extracted data is handed back, to be tried next frame.
    RetryNextUpdate(T),
    /// The bind group could not be built; the node is dropped.
    AsBindGroupError(String),
}

/// Describes how an extracted octree node is turned into its GPU representation.
pub trait RenderOctreeNode: Sized {
    /// The extracted data of a node.
    type Extracted;
    /// What the preparation reads and writes besides the node.
    type Param;

    /// The number of bytes a node with this data uploads, when it counts against the
    /// per-frame budget. Unless an implementation says otherwise, no node counts against it.
    fn byte_len(data: &Self::Extracted) -> (r: Option<usize>)
        default_ensures
            r is None,
    {
        None
    }

    /// Called when the octree `asset_id` is no longer used; does nothing unless an
    /// implementation says otherwise.
    fn unload_asset(asset_id: u128, param: &mut Self::Param) {
    }

    /// What the preparation of the data of node `node_id`, of the octree `asset_id`,
    /// gives: each implementation says which outcomes it can have.
    open spec fn prepares(
        data: Self::Extracted,
        asset_id: u128,
        node_id: NodeId,
        r: Result<Self, PrepareOctreeNodeError<Self::Extracted>>,
    ) -> bool {
        true
    }

    /// The GPU representation of the data of node `node_id`, of the octree `asset_id`.
    fn prepare_octree_node(
        data: Self::Extracted,
        asset_id: u128,
        node_id: NodeId,
        param: &mut Self::Param,
    ) -> (r: Result<Self, PrepareOctreeNodeError<Self::Extracted>>)
        ensures
            Self::prepares(data, asset_id, node_id, r),
    ;
}

/// The prepared octrees of the render world, by asset key.
pub struct RenderOctrees<A> {
    pub octrees: HashMap<u128, RenderOctree<A>>,
}

/// The prepared nodes of each octree, by asset key and node key.
pub open spec fn render_view<A>(m: Map<u128, RenderOctree<A>>) -> Map<u128, Map<u128, OctreeNode<A>>> {
    m.map_values(|o: RenderOctree<A>| o.nodes@)
}

/// Every prepared octree of `after` has the root of its counterpart in `before`, or
/// none when it is new.
pub open spec fn roots_kept<A>(before: Map<u128, RenderOctree<A>>, after: Map<u128, RenderOctree<A>>) -> bool {
    &&& forall|a: u128| #[trigger] before.contains_key(a) ==> after.contains_key(a)
    &&& forall|a: u128| #[trigger] after.contains_key(a) ==> after[a].root_id == (if before.contains_key(a) {
        before[a].root_id
    } else {
        None
    })
}

/// Keeping roots twice keeps them.
pub proof fn lemma_roots_kept_trans<A>(
    a: Map<u128, RenderOctree<A>>,
    b: Map<u128, RenderOctree<A>>,
    c: Map<u128, RenderOctree<A>>,
)
    requires
        roots_kept(a, b),
        roots_kept(b, c),
    ensures
        roots_kept(a, c),
{
    assert forall|x: u128| #[trigger] c.contains_key(x) implies c[x].root_id == (if a.contains_key(x) {
        a[x].root_id
    } else {
        None
    }) by {
        if a.contains_key(x) {
            assert(b.contains_key(x));
        }
    }
}

/// Every prepared octree of `after` has the root of its counterpart in `before`, unless
/// its asset is in `gone`; an octree of `before` whose asset is not in `gone` is kept. An
/// octree that is new, or whose asset is in `gone`, has no root.
pub open spec fn roots_kept_except<A>(
    before: Map<u128, RenderOctree<A>>,
    after: Map<u128, RenderOctree<A>>,
    gone: Set<u128>,
) -> bool {
    &&& forall|a: u128| #[trigger] before.contains_key(a) && !gone.contains(a) ==> after.contains_key(a)
    &&& forall|a: u128| #[trigger] after.contains_key(a) ==> after[a].root_id == (if before.contains_key(a) && !gone.contains(a) {
        before[a].root_id
    } else {
        None
    })
}

/// Keeping the roots, but for `gone`, then keeping them all, keeps them but for `gone`.
proof fn lemma_roots_kept_except_then<A>(
    a: Map<u128, RenderOctree<A>>,
    b: Map<u128, RenderOctree<A>>,
    c: Map<u128, RenderOctree<A>>,
    gone: Set<u128>,
)
    requires
        roots_kept_except(a, b, gone),
        roots_kept(b, c),
    ensures
        roots_kept_except(a, c, gone),
{
    assert forall|x: u128| #[trigger] c.contains_key(x) implies c[x].root_id == (if a.contains_key(x) && !gone.contains(x) {
        a[x].root_id
    } else {
        None
    }) by {
        if a.contains_key(x) && !gone.contains(x) {
            assert(b.contains_key(x));
        }
    }
}

/// Removing the octree of `x` keeps the roots but for `gone` and `x`.
proof fn lemma_roots_kept_except_remove<A>(
    a: Map<u128, RenderOctree<A>>,
    b: Map<u128, RenderOctree<A>>,
    gone: Set<u128>,
    x: u128,
)
    requires
        roots_kept_except(a, b, gone),
    ensures
        roots_kept_except(a, b.remove(x), gone.insert(x)),
{
    assert forall|y: u128| #[trigger] b.remove(x).contains_key(y) implies b.remove(x)[y].root_id == (if a.contains_key(y)
        && !gone.insert(x).contains(y) {
        a[y].root_id
    } else {
        None
    }) by {
        assert(b.contains_key(y));
    }
}

/// `m` with an octree without nodes for `asset`, when it has none.
pub open spec fn with_octree<A>(m: Map<u128, Map<u128, OctreeNode<A>>>, asset: u128) -> Map<
    u128,
    Map<u128, OctreeNode<A>>,
> {
    if m.contains_key(asset) {
        m
    } else {
        m.insert(asset, Map::empty())
    }
}

impl<A> RenderOctrees<A> {
    /// The prepared nodes of each octree.
    pub open spec fn view_octrees(&self) -> Map<u128, Map<u128, OctreeNode<A>>> {
        render_view(self.octrees@)
    }

    /// No octree.
    pub fn new() -> (r: Self)
        ensures
            r.view_octrees().dom().is_empty(),
    {
        let r = RenderOctrees { octrees: HashMap::new() };
        proof {
            assert(r.view_octrees().dom() =~= Set::<u128>::empty());
        }
        r
    }

    /// The prepared octree of `asset`, if any.
    pub fn get(&self, asset: u128) -> (r: Option<&RenderOctree<A>>)
        ensures
            r == (if self.octrees@.contains_key(asset) {
                Some(&self.octrees@[asset])
            } else {
                None
            }),
    {
        self.octrees.get(&asset)
    }

    /// The prepared octree of `asset`, made without nodes when it has none.
    pub fn get_or_insert_mut(&mut self, asset: u128) -> (r: &mut RenderOctree<A>)
        ensures
            old(self).octrees@.contains_key(asset) ==> *r == old(self).octrees@[asset],
            !old(self).octrees@.contains_key(asset) ==> r.nodes@.dom().is_empty() && r.root_id is None,
            final(self).octrees@ == old(self).octrees@.insert(asset, *final(r)),
    {
        self.octrees.entry(asset).or_insert(RenderOctree::new())
    }

    /// Removes and returns the prepared octree of `asset`, if any.
    pub fn remove(&mut self, asset: u128) -> (r: Option<RenderOctree<A>>)
        ensures
            r == (if old(self).octrees@.contains_key(asset) {
                Some(old(self).octrees@[asset])
            } else {
                None
            }),
            final(self).octrees@ == old(self).octrees@.remove(asset),
    {
        self.octrees.remove(&asset)
    }

    /// Makes sure `asset` has a prepared octree, without nodes when it is new.
    pub(crate) fn get_or_insert(&mut self, asset: u128)
        ensures
            final(self).view_octrees() == with_octree(old(self).view_octrees(), asset),
            roots_kept(old(self).octrees@, final(self).octrees@),
            final(self).octrees@.dom() == old(self).octrees@.dom().insert(asset),
    {
        if !self.octrees.contains_key(&asset) {
            let ghost before = self.octrees@;
            let fresh = RenderOctree::new();
            proof {
                assert(fresh.nodes@ =~= Map::<u128, OctreeNode<A>>::empty());
            }
            self.octrees.insert(asset, fresh);
            proof {
                let lhs = render_view(self.octrees@);
                let rhs = render_view(before).insert(asset, Map::empty());
                assert(lhs.dom() =~= rhs.dom());
                assert forall|k: u128| #[trigger] lhs.contains_key(k) implies lhs[k] == rhs[k] by {
                    if k != asset {
                        assert(self.octrees@[k] == before[k]);
                    }
                }
                assert(lhs =~= rhs);
            }
        }
    }

    /// Stores the prepared `node` under `node_id` in the octree of `asset`, creating the
    /// octree when it is new.
    pub fn insert_node(&mut self, asset: u128, node_id: NodeId, node: OctreeNode<A>)
        ensures
            final(self).view_octrees() == with_octree(old(self).view_octrees(), asset).insert(
                asset,
                with_octree(old(self).view_octrees(), asset)[asset].insert(node_key(node_id), node),
            ),
            roots_kept(old(self).octrees@, final(self).octrees@),
            final(self).octrees@.dom() == old(self).octrees@.dom().insert(asset),
    {
        let ghost before = self.octrees@;
        let mut octree = match self.octrees.remove(&asset) {
            Some(o) => o,
            None => {
                let fresh = RenderOctree::new();
                proof {
                    assert(fresh.nodes@ =~= Map::<u128, OctreeNode<A>>::empty());
                }
                fresh
            },
        };
        let ghost inner = octree.nodes@;
        octree.insert(node_id, node);
        self.octrees.insert(asset, octree);
        proof {
            let w = with_octree(render_view(before), asset);
            assert(inner == w[asset]);
            let lhs = render_view(self.octrees@);
            let rhs = w.insert(asset, w[asset].insert(node_key(node_id), node));
            assert(lhs.dom() =~= rhs.dom());
            assert forall|k: u128| #[trigger] lhs.contains_key(k) implies lhs[k] == rhs[k] by {
                if k != asset {
                    assert(self.octrees@[k] == before[k]);
                }
            }
            assert(lhs =~= rhs);
        }
    }
}

/// Node `n` with data `d`.
pub open spec fn node_with_data<T, U>(n: OctreeNode<T>, d: U) -> OctreeNode<U> {
    OctreeNode {
        id: n.id,
        child_index: n.child_index,
        parent_id: n.parent_id,
        children: n.children,
        children_mask: n.children_mask,
        bounding_box: n.bounding_box,
        data: d,
    }
}

/// The nodes to prepare next frame.
pub struct PrepareNextFrameOctreeNodes<E> {
    pub assets: Vec<(u128, OctreeNode<E>)>,
}

/// One piece of work of `prepare_assets`, in order.
pub enum PrepareWork<E> {
    /// A node left from an earlier frame.
    Queued(u128, OctreeNode<E>),
    /// An octree no longer used: its prepared octree is removed.
    Unload(u128),
    /// The start of the nodes extracted this frame for an octree.
    Octree(u128),
    /// A node extracted this frame.
    Extracted(u128, OctreeNode<E>),
}

/// What preparing a node gave.
pub enum PrepareOutcome<A, E> {
    Prepared(A),
    /// The data handed back to retry with next frame.
    Retry(E),
    Failed,
}

/// The work for the nodes extracted this frame.
pub open spec fn extracted_work<E>(extracted: Seq<(u128, Vec<OctreeNode<E>>)>) -> Seq<PrepareWork<E>>
    decreases extracted.len(),
{
    if extracted.len() == 0 {
        Seq::empty()
    } else {
        let last = extracted.last();
        extracted_work(extracted.drop_last()) + seq![PrepareWork::Octree(last.0)] + last.1@.map_values(
            |n: OctreeNode<E>| PrepareWork::Extracted(last.0, n),
        )
    }
}

/// The work for the queued nodes.
pub open spec fn queued_work<E>(queued: Seq<(u128, OctreeNode<E>)>) -> Seq<PrepareWork<E>> {
    queued.map_values(|q: (u128, OctreeNode<E>)| PrepareWork::Queued(q.0, q.1))
}

/// The work for the octrees no longer used.
pub open spec fn unload_work<E>(removed: Seq<u128>) -> Seq<PrepareWork<E>> {
    removed.map_values(|a: u128| PrepareWork::Unload(a))
}

/// All the work of `prepare_assets`: the queued nodes, then the octrees no longer used,
/// then each extracted octree.
pub open spec fn prepare_work<E>(
    queued: Seq<(u128, OctreeNode<E>)>,
    removed: Seq<u128>,
    extracted: Seq<(u128, Vec<OctreeNode<E>>)>,
) -> Seq<PrepareWork<E>> {
    queued_work(queued) + unload_work(removed) + extracted_work(extracted)
}

/// Whether `nodes` of octree `asset` lists `id`.
pub open spec fn lists_node(nodes: Map<u128, Vec<NodeId>>, asset: u128, id: NodeId) -> bool {
    nodes.contains_key(asset) && nodes[asset]@.contains(id)
}

/// The state `prepare_assets` works on: the nodes for next frame, the prepared octrees,
/// and the bytes written this frame.
#[verifier::ext_equal]
pub struct PrepareState<A, E> {
    pub next: Seq<(u128, OctreeNode<E>)>,
    pub render: Map<u128, Map<u128, OctreeNode<A>>>,
    pub written: usize,
}

/// Whether the budget is used up.
pub open spec fn budget_exhausted(max_bytes: Option<usize>, written: usize) -> bool {
    match max_bytes {
        Some(max) => written >= max,
        None => false,
    }
}

/// The bytes written after writing `bytes` more.
pub open spec fn written_after(max_bytes: Option<usize>, written: usize, bytes: usize) -> usize {
    if max_bytes is Some && bytes > 0 {
        crate::octree::new_asset::extract::limiter::wrapping_sum(written, bytes)
    } else {
        written
    }
}

/// Preparing node `node` of octree `asset`, sized `size`, whose preparation (when asked)
/// gave `outcome`.
pub open spec fn prepare_node<A, E>(
    s: PrepareState<A, E>,
    max_bytes: Option<usize>,
    asset: u128,
    node: OctreeNode<E>,
    size: Option<usize>,
    outcome: PrepareOutcome<A, E>,
) -> PrepareState<A, E> {
    if size is Some && budget_exhausted(max_bytes, s.written) {
        PrepareState { next: s.next.push((asset, node)), ..s }
    } else {
        let render = with_octree(s.render, asset);
        match outcome {
            PrepareOutcome::Prepared(a) => PrepareState {
                next: s.next,
                render: render.insert(asset, render[asset].insert(node_key(node.id), node_with_data(node, a))),
                written: written_after(
                    max_bytes,
                    s.written,
                    match size {
                        Some(n) => n,
                        None => 0,
                    },
                ),
            },
            PrepareOutcome::Retry(d) => PrepareState {
                next: s.next.push((asset, node_with_data(node, d))),
                render,
                written: s.written,
            },
            PrepareOutcome::Failed => PrepareState { render, ..s },
        }
    }
}

/// One piece of work done on `s`, with the node's size and preparation outcome.
pub open spec fn prepare_step<A, E>(
    s: PrepareState<A, E>,
    max_bytes: Option<usize>,
    removed: Map<u128, Vec<NodeId>>,
    added: Map<u128, Vec<NodeId>>,
    w: PrepareWork<E>,
    size: Option<usize>,
    outcome: PrepareOutcome<A, E>,
) -> PrepareState<A, E> {
    match w {
        PrepareWork::Queued(asset, node) => if lists_node(removed, asset, node.id) || lists_node(added, asset, node.id) {
            s
        } else {
            prepare_node(s, max_bytes, asset, node, size, outcome)
        },
        PrepareWork::Unload(asset) => PrepareState { render: s.render.remove(asset), ..s },
        PrepareWork::Octree(asset) => PrepareState { render: with_octree(s.render, asset), ..s },
        PrepareWork::Extracted(asset, node) => prepare_node(s, max_bytes, asset, node, size, outcome),
    }
}

/// The state after doing `work` in order on `s`; `sizes[i]` and `outcomes[i]` are what
/// the size and the preparation of the `i`-th node gave, when they were asked.
pub open spec fn prepared_after<A, E>(
    s: PrepareState<A, E>,
    max_bytes: Option<usize>,
    removed: Map<u128, Vec<NodeId>>,
    added: Map<u128, Vec<NodeId>>,
    work: Seq<PrepareWork<E>>,
    sizes: Seq<Option<usize>>,
    outcomes: Seq<PrepareOutcome<A, E>>,
) -> PrepareState<A, E>
    decreases work.len(),
{
    if work.len() == 0 {
        s
    } else {
        let n = work.len() - 1;
        prepare_step(
            prepared_after(s, max_bytes, removed, added, work.drop_last(), sizes.drop_last(), outcomes.drop_last()),
            max_bytes,
            removed,
            added,
            work[n],
            sizes[n],
            outcomes[n],
        )
    }
}

/// Doing one more piece of work is one more step.
pub proof fn lemma_prepared_push<A, E>(
    s: PrepareState<A, E>,
    max_bytes: Option<usize>,
    removed: Map<u128, Vec<NodeId>>,
    added: Map<u128, Vec<NodeId>>,
    work: Seq<PrepareWork<E>>,
    sizes: Seq<Option<usize>>,
    outcomes: Seq<PrepareOutcome<A, E>>,
    w: PrepareWork<E>,
    size: Option<usize>,
    outcome: PrepareOutcome<A, E>,
)
    requires
        sizes.len() == work.len(),
        outcomes.len() == work.len(),
    ensures
        prepared_after(s, max_bytes, removed, added, work.push(w), sizes.push(size), outcomes.push(outcome))
            == prepare_step(prepared_after(s, max_bytes, removed, added, work, sizes, outcomes), max_bytes, removed, added, w, size, outcome),
{
    assert(work.push(w).drop_last() == work);
    assert(sizes.push(size).drop_last() == sizes);
    assert(outcomes.push(outcome).drop_last() == outcomes);
}

/// What asking the size and the preparation of node `node` of octree `asset` gave, with
/// `written` bytes written so far: `size` is a result of `A::byte_len` on the node and,
/// unless the node waits for the budget, `outcome` is what `A::prepare_octree_node` gave
/// on the node's data, `asset` and the node's handle.
pub open spec fn node_asked<A: RenderOctreeNode>(
    max_bytes: Option<usize>,
    written: usize,
    asset: u128,
    node: OctreeNode<A::Extracted>,
    size: Option<usize>,
    outcome: PrepareOutcome<A, A::Extracted>,
) -> bool {
    &&& call_ensures(A::byte_len, (&node.data,), size)
    &&& !(size is Some && budget_exhausted(max_bytes, written)) ==> match outcome {
        PrepareOutcome::Prepared(a) => A::prepares(node.data, asset, node.id, Ok(a)),
        PrepareOutcome::Retry(d) => A::prepares(node.data, asset, node.id, Err(PrepareOctreeNodeError::RetryNextUpdate(d))),
        PrepareOutcome::Failed => exists|m: String|
            A::prepares(node.data, asset, node.id, Err(PrepareOctreeNodeError::AsBindGroupError(m))),
    }
}

/// What one piece of work asked of the node it names, done on `s`.
pub open spec fn step_asked<A: RenderOctreeNode>(
    s: PrepareState<A, A::Extracted>,
    max_bytes: Option<usize>,
    removed: Map<u128, Vec<NodeId>>,
    added: Map<u128, Vec<NodeId>>,
    w: PrepareWork<A::Extracted>,
    size: Option<usize>,
    outcome: PrepareOutcome<A, A::Extracted>,
) -> bool {
    match w {
        PrepareWork::Queued(asset, node) => lists_node(removed, asset, node.id) || lists_node(added, asset, node.id)
            || node_asked(max_bytes, s.written, asset, node, size, outcome),
        PrepareWork::Unload(_) => true,
        PrepareWork::Octree(_) => true,
        PrepareWork::Extracted(asset, node) => node_asked(max_bytes, s.written, asset, node, size, outcome),
    }
}

/// Every size and outcome that `prepared_after` uses is what the trait's calls gave on
/// the node of that piece of work.
pub open spec fn all_asked<A: RenderOctreeNode>(
    s: PrepareState<A, A::Extracted>,
    max_bytes: Option<usize>,
    removed: Map<u128, Vec<NodeId>>,
    added: Map<u128, Vec<NodeId>>,
    work: Seq<PrepareWork<A::Extracted>>,
    sizes: Seq<Option<usize>>,
    outcomes: Seq<PrepareOutcome<A, A::Extracted>>,
) -> bool
    decreases work.len(),
{
    if work.len() == 0 {
        true
    } else {
        let n = work.len() - 1;
        &&& all_asked(s, max_bytes, removed, added, work.drop_last(), sizes.drop_last(), outcomes.drop_last())
        &&& step_asked(
            prepared_after(s, max_bytes, removed, added, work.drop_last(), sizes.drop_last(), outcomes.drop_last()),
            max_bytes,
            removed,
            added,
            work[n],
            sizes[n],
            outcomes[n],
        )
    }
}

/// Asking one more piece of work adds one step to `all_asked`.
pub proof fn lemma_asked_push<A: RenderOctreeNode>(
    s: PrepareState<A, A::Extracted>,
    max_bytes: Option<usize>,
    removed: Map<u128, Vec<NodeId>>,
    added: Map<u128, Vec<NodeId>>,
    work: Seq<PrepareWork<A::Extracted>>,
    sizes: Seq<Option<usize>>,
    outcomes: Seq<PrepareOutcome<A, A::Extracted>>,
    w: PrepareWork<A::Extracted>,
    size: Option<usize>,
    outcome: PrepareOutcome<A, A::Extracted>,
)
    requires
        sizes.len() == work.len(),
        outcomes.len() == work.len(),
        all_asked(s, max_bytes, removed, added, work, sizes, outcomes),
        step_asked(prepared_after(s, max_bytes, removed, added, work, sizes, outcomes), max_bytes, removed, added, w, size, outcome),
    ensures
        all_asked(s, max_bytes, removed, added, work.push(w), sizes.push(size), outcomes.push(outcome)),
{
    assert(work.push(w).drop_last() == work);
    assert(sizes.push(size).drop_last() == sizes);
    assert(outcomes.push(outcome).drop_last() == outcomes);
}

/// Whether `ids` lists `id`.
fn lists(ids: &Vec<NodeId>, id: NodeId) -> (b: bool)
    ensures
        b == ids@.contains(id),
{
    let mut i: usize = 0;
    while i < ids.len()
        invariant
            i <= ids@.len(),
            forall|j: int| 0 <= j < i ==> ids@[j] != id,
        decreases ids@.len() - i,
    {
        if ids[i] == id {
            return true;
        }
        i = i + 1;
    }
    false
}

/// Whether `nodes` lists `id` for octree `asset`.
fn lists_in(nodes: &HashMap<u128, Vec<NodeId>>, asset: u128, id: NodeId) -> (b: bool)
    ensures
        b == lists_node(nodes@, asset, id),
{
    match nodes.get(&asset) {
        Some(ids) => lists(ids, id),
        None => false,
    }
}

/// What `apply_preparation` records of a preparation's result.
pub open spec fn outcome_of<A, E>(r: Result<A, PrepareOctreeNodeError<E>>) -> PrepareOutcome<A, E> {
    match r {
        Ok(a) => PrepareOutcome::Prepared(a),
        Err(PrepareOctreeNodeError::RetryNextUpdate(d)) => PrepareOutcome::Retry(d),
        Err(PrepareOctreeNodeError::AsBindGroupError(_)) => PrepareOutcome::Failed,
    }
}

/// Takes what the preparation of a node of octree `asset` gave (`outcome`), the node's
/// fields being those of `shape`: the octree gets a prepared octree when it has none; a
/// prepared node is stored in it and `write_bytes` counted against the budget; a node to
/// retry waits for next frame, with the fields of `shape` and the data handed back; a node
/// whose preparation failed is dropped.
pub fn apply_preparation<A: RenderOctreeNode>(
    asset: u128,
    shape: OctreeNode<()>,
    write_bytes: usize,
    outcome: Result<A, PrepareOctreeNodeError<A::Extracted>>,
    render_assets: &mut RenderOctrees<A>,
    next: &mut Vec<(u128, OctreeNode<A::Extracted>)>,
    bpf: &mut RenderOctreeNodesBytesPerFrameLimiter,
)
    ensures
        final(bpf).max_bytes == old(bpf).max_bytes,
        roots_kept(old(render_assets).octrees@, final(render_assets).octrees@),
        final(render_assets).octrees@.contains_key(asset),
        forall|a: u128|
            a != asset ==> (#[trigger] final(render_assets).octrees@.contains_key(a) == old(render_assets).octrees@.contains_key(a)),
        match outcome {
            Ok(a) => {
                &&& final(render_assets).view_octrees() == with_octree(old(render_assets).view_octrees(), asset).insert(
                    asset,
                    with_octree(old(render_assets).view_octrees(), asset)[asset].insert(
                        node_key(shape.id),
                        node_with_data(shape, a),
                    ),
                )
                &&& final(next)@ == old(next)@
                &&& final(bpf).bytes_written == written_after(old(bpf).max_bytes, old(bpf).bytes_written, write_bytes)
            },
            Err(PrepareOctreeNodeError::RetryNextUpdate(d)) => {
                &&& final(render_assets).view_octrees() == with_octree(old(render_assets).view_octrees(), asset)
                &&& final(next)@ == old(next)@.push((asset, node_with_data(shape, d)))
                &&& final(bpf).bytes_written == old(bpf).bytes_written
            },
            Err(PrepareOctreeNodeError::AsBindGroupError(_)) => {
                &&& final(render_assets).view_octrees() == with_octree(old(render_assets).view_octrees(), asset)
                &&& final(next)@ == old(next)@
                &&& final(bpf).bytes_written == old(bpf).bytes_written
            },
        },
{
    let ghost r_start = render_assets.octrees@;
    render_assets.get_or_insert(asset);
    let ghost r_mid = render_assets.octrees@;
    match outcome {
        Ok(prepared) => {
            let id = shape.id;
            render_assets.insert_node(
                asset,
                id,
                OctreeNode {
                    id: shape.id,
                    child_index: shape.child_index,
                    parent_id: shape.parent_id,
                    children: shape.children,
                    children_mask: shape.children_mask,
                    bounding_box: shape.bounding_box,
                    data: prepared,
                },
            );
            bpf.write_bytes(write_bytes);
            proof {
                lemma_roots_kept_trans(r_start, r_mid, render_assets.octrees@);
            }
        },
        Err(PrepareOctreeNodeError::RetryNextUpdate(extracted)) => {
            next.push(
                (
                    asset,
                    OctreeNode {
                        id: shape.id,
                        child_index: shape.child_index,
                        parent_id: shape.parent_id,
                        children: shape.children,
                        children_mask: shape.children_mask,
                        bounding_box: shape.bounding_box,
                        data: extracted,
                    },
                ),
            );
        },
        Err(PrepareOctreeNodeError::AsBindGroupError(_)) => {},
    }
}

/// Prepares node `node` of octree `asset` (see `prepare_node`), and says what its size
/// and its preparation gave.
fn prepare_one<A: RenderOctreeNode>(
    asset: u128,
    node: OctreeNode<A::Extracted>,
    render_assets: &mut RenderOctrees<A>,
    next: &mut Vec<(u128, OctreeNode<A::Extracted>)>,
    param: &mut A::Param,
    bpf: &mut RenderOctreeNodesBytesPerFrameLimiter,
) -> (r: Ghost<(Option<usize>, PrepareOutcome<A, A::Extracted>)>)
    ensures
        final(bpf).max_bytes == old(bpf).max_bytes,
        prepare_node(
            PrepareState { next: old(next)@, render: old(render_assets).view_octrees(), written: old(bpf).bytes_written },
            old(bpf).max_bytes,
            asset,
            node,
            r@.0,
            r@.1,
        ) == (PrepareState { next: final(next)@, render: final(render_assets).view_octrees(), written: final(bpf).bytes_written }),
        node_asked::<A>(old(bpf).max_bytes, old(bpf).bytes_written, asset, node, r@.0, r@.1),
        roots_kept(old(render_assets).octrees@, final(render_assets).octrees@),
        forall|a: u128|
            a != asset ==> (#[trigger] final(render_assets).octrees@.contains_key(a) == old(render_assets).octrees@.contains_key(a)),
{
    let ghost node0 = node;
    let size = A::byte_len(&node.data);
    assert(call_ensures(A::byte_len, (&node0.data,), size));
    let write_bytes = match size {
        Some(n) => {
            if bpf.exhausted() {
                next.push((asset, node));
                return Ghost((size, PrepareOutcome::Failed));
            }
            n
        },
        None => 0,
    };
    let shape = OctreeNode {
        id: node.id,
        child_index: node.child_index,
        parent_id: node.parent_id,
        children: node.children,
        children_mask: node.children_mask,
        bounding_box: node.bounding_box,
        data: (),
    };
    let outcome = A::prepare_octree_node(node.data, asset, node.id, param);
    let ghost g = outcome_of(outcome);
    proof {
        if outcome is Ok {
            let a = outcome->Ok_0;
            assert(node_with_data(shape, a) == node_with_data(node0, a));
        } else if outcome->Err_0 is AsBindGroupError {
            let m = outcome->Err_0->AsBindGroupError_0;
            assert(A::prepares(node0.data, asset, node0.id, Err(PrepareOctreeNodeError::AsBindGroupError(m))));
        } else {
            let d = outcome->Err_0->RetryNextUpdate_0;
            assert(node_with_data(shape, d) == node_with_data(node0, d));
        }
    }
    apply_preparation(asset, shape, write_bytes, outcome, render_assets, next, bpf);
    Ghost((size, g))
}

/// Prepares the nodes left from earlier frames, then removes the prepared octrees of the
/// assets no longer used, then prepares the nodes extracted this frame, octree by octree,
/// within the per-frame upload budget.
///
/// A left node that this frame's extraction removed or added again is dropped. A node
/// with a size waits for next frame while the budget is used up. Otherwise the node is
/// prepared: a prepared node is stored in its octree and its size counted against the
/// budget; a node whose preparation asks for a retry waits for next frame, with the data
/// handed back; a node whose preparation fails is dropped. Each removed asset's octree is
/// dropped and the node type told (`RenderOctreeNode::unload_asset`). Each octree of this
/// frame's extraction then has a prepared octree, without nodes when it is new, so an
/// asset both removed and extracted this frame ends with the nodes extracted for it.
pub fn prepare_assets<A: RenderOctreeNode>(
    extracted: Vec<(u128, Vec<OctreeNode<A::Extracted>>)>,
    removed_nodes: &HashMap<u128, Vec<NodeId>>,
    added_nodes: &HashMap<u128, Vec<NodeId>>,
    removed_assets: Vec<u128>,
    render_assets: &mut RenderOctrees<A>,
    prepare_next_frame: &mut PrepareNextFrameOctreeNodes<A::Extracted>,
    param: &mut A::Param,
    bpf: &mut RenderOctreeNodesBytesPerFrameLimiter,
)
    ensures
        final(bpf).max_bytes == old(bpf).max_bytes,
        roots_kept_except(old(render_assets).octrees@, final(render_assets).octrees@, removed_assets@.to_set()),
        forall|j: int| 0 <= j < extracted@.len() ==> final(render_assets).octrees@.contains_key(#[trigger] extracted@[j].0),
        forall|j: int|
            0 <= j < removed_assets@.len() && (forall|k: int| 0 <= k < extracted@.len() ==> extracted@[k].0 != removed_assets@[j])
                ==> !final(render_assets).octrees@.contains_key(#[trigger] removed_assets@[j]),
        exists|sizes: Seq<Option<usize>>, outcomes: Seq<PrepareOutcome<A, A::Extracted>>| #[trigger] prepared_after(
            PrepareState { next: Seq::empty(), render: old(render_assets).view_octrees(), written: old(bpf).bytes_written },
            old(bpf).max_bytes,
            removed_nodes@,
            added_nodes@,
            prepare_work(old(prepare_next_frame).assets@, removed_assets@, extracted@),
            sizes,
            outcomes,
        ) == (PrepareState {
            next: final(prepare_next_frame).assets@,
            render: final(render_assets).view_octrees(),
            written: final(bpf).bytes_written,
        }) && all_asked(
            PrepareState { next: Seq::empty(), render: old(render_assets).view_octrees(), written: old(bpf).bytes_written },
            old(bpf).max_bytes,
            removed_nodes@,
            added_nodes@,
            prepare_work(old(prepare_next_frame).assets@, removed_assets@, extracted@),
            sizes,
            outcomes,
        ),
{
    let ghost max_bytes = bpf.max_bytes;
    let ghost r0 = render_assets.octrees@;
    let ghost s0 = PrepareState::<A, A::Extracted> {
        next: Seq::empty(),
        render: render_assets.view_octrees(),
        written: bpf.bytes_written,
    };
    let ghost queued_all = prepare_next_frame.assets@;
    let ghost extracted_all = extracted@;
    let ghost removed_all = removed_assets@;
    let mut queued: Vec<(u128, OctreeNode<A::Extracted>)> = Vec::new();
    std::mem::swap(&mut queued, &mut prepare_next_frame.assets);
    let mut next: Vec<(u128, OctreeNode<A::Extracted>)> = Vec::new();
    let ghost mut work: Seq<PrepareWork<A::Extracted>> = Seq::empty();
    let ghost mut sizes: Seq<Option<usize>> = Seq::empty();
    let ghost mut outcomes: Seq<PrepareOutcome<A, A::Extracted>> = Seq::empty();
    for item in it: queued.into_iter()
        invariant
            it.seq() == queued_all,
            bpf.max_bytes == max_bytes,
            roots_kept(r0, render_assets.octrees@),
            work == queued_work(queued_all.take(it.index() as int)),
            sizes.len() == work.len(),
            outcomes.len() == work.len(),
            all_asked(s0, max_bytes, removed_nodes@, added_nodes@, work, sizes, outcomes),
            prepared_after(s0, max_bytes, removed_nodes@, added_nodes@, work, sizes, outcomes) == (PrepareState {
                next: next@,
                render: render_assets.view_octrees(),
                written: bpf.bytes_written,
            }),
    {
        let (asset, node) = item;
        let ghost w = PrepareWork::Queued(asset, node);
        let ghost mut size: Option<usize> = None;
        let ghost mut outcome: PrepareOutcome<A, A::Extracted> = PrepareOutcome::Failed;
        let ghost r_before = render_assets.octrees@;
        if !(lists_in(removed_nodes, asset, node.id) || lists_in(added_nodes, asset, node.id)) {
            let got = prepare_one(asset, node, render_assets, &mut next, param, bpf);
            proof {
                lemma_roots_kept_trans(r0, r_before, render_assets.octrees@);
                size = got@.0;
                outcome = got@.1;
            }
        }
        proof {
            lemma_asked_push(s0, max_bytes, removed_nodes@, added_nodes@, work, sizes, outcomes, w, size, outcome);
            lemma_prepared_push(s0, max_bytes, removed_nodes@, added_nodes@, work, sizes, outcomes, w, size, outcome);
            assert(queued_all.take(it.index() + 1) == queued_all.take(it.index() as int).push(item));
            assert(queued_work(queued_all.take(it.index() + 1)) == queued_work(queued_all.take(it.index() as int)).push(w));
            work = work.push(w);
            sizes = sizes.push(size);
            outcomes = outcomes.push(outcome);
        }
    }
    proof {
        assert(queued_all.take(queued_all.len() as int) == queued_all);
        assert forall|x: u128| #[trigger] r0.contains_key(x) && !removed_all.take(0).to_set().contains(x) implies render_assets.octrees@.contains_key(x) by {}
    }
    let mut i: usize = 0;
    while i < removed_assets.len()
        invariant
            i <= removed_all.len(),
            removed_assets@ == removed_all,
            bpf.max_bytes == max_bytes,
            roots_kept_except(r0, render_assets.octrees@, removed_all.take(i as int).to_set()),
            forall|j: int| 0 <= j < i ==> !render_assets.octrees@.contains_key(#[trigger] removed_all[j]),
            work == queued_work(queued_all) + unload_work(removed_all.take(i as int)),
            sizes.len() == work.len(),
            outcomes.len() == work.len(),
            all_asked(s0, max_bytes, removed_nodes@, added_nodes@, work, sizes, outcomes),
            prepared_after(s0, max_bytes, removed_nodes@, added_nodes@, work, sizes, outcomes) == (PrepareState {
                next: next@,
                render: render_assets.view_octrees(),
                written: bpf.bytes_written,
            }),
        decreases removed_all.len() - i,
    {
        let id = removed_assets[i];
        let ghost w = PrepareWork::<A::Extracted>::Unload(id);
        let ghost r_before = render_assets.octrees@;
        render_assets.remove(id);
        A::unload_asset(id, param);
        proof {
            lemma_asked_push(s0, max_bytes, removed_nodes@, added_nodes@, work, sizes, outcomes, w, None, PrepareOutcome::Failed);
            lemma_prepared_push(s0, max_bytes, removed_nodes@, added_nodes@, work, sizes, outcomes, w, None, PrepareOutcome::Failed);
            assert(render_view(r_before.remove(id)) =~= render_view(r_before).remove(id));
            lemma_roots_kept_except_remove(r0, r_before, removed_all.take(i as int).to_set(), id);
            assert(removed_all.take(i + 1) == removed_all.take(i as int).push(id));
            removed_all.take(i as int).lemma_push_to_set_commute(id);
            assert(unload_work::<A::Extracted>(removed_all.take(i + 1)) == unload_work::<A::Extracted>(removed_all.take(i as int)).push(w));
            work = work.push(w);
            sizes = sizes.push(None);
            outcomes = outcomes.push(PrepareOutcome::Failed);
        }
        i = i + 1;
    }
    proof {
        assert(removed_all.take(removed_all.len() as int) == removed_all);
        assert(work == queued_work(queued_all) + unload_work(removed_all) + extracted_work(extracted_all.take(0)));
    }
    let ghost gone = removed_all.to_set();
    for entry in et: extracted.into_iter()
        invariant
            et.seq() == extracted_all,
            bpf.max_bytes == max_bytes,
            gone == removed_all.to_set(),
            roots_kept_except(r0, render_assets.octrees@, gone),
            forall|j: int| 0 <= j < et.index() ==> render_assets.octrees@.contains_key(#[trigger] extracted_all[j].0),
            forall|j: int|
                0 <= j < removed_all.len() && (forall|k: int| 0 <= k < et.index() ==> extracted_all[k].0 != removed_all[j])
                    ==> !render_assets.octrees@.contains_key(#[trigger] removed_all[j]),
            work == queued_work(queued_all) + unload_work(removed_all) + extracted_work(extracted_all.take(et.index() as int)),
            sizes.len() == work.len(),
            outcomes.len() == work.len(),
            all_asked(s0, max_bytes, removed_nodes@, added_nodes@, work, sizes, outcomes),
            prepared_after(s0, max_bytes, removed_nodes@, added_nodes@, work, sizes, outcomes) == (PrepareState {
                next: next@,
                render: render_assets.view_octrees(),
                written: bpf.bytes_written,
            }),
    {
        let (asset, nodes) = entry;
        let ghost work_start = work;
        let ghost all_nodes = nodes@;
        let ghost r_entry = render_assets.octrees@;
        proof {
            let w = PrepareWork::Octree(asset);
            lemma_asked_push(s0, max_bytes, removed_nodes@, added_nodes@, work, sizes, outcomes, w, None, PrepareOutcome::Failed);
            lemma_prepared_push(s0, max_bytes, removed_nodes@, added_nodes@, work, sizes, outcomes, w, None, PrepareOutcome::Failed);
        }
        render_assets.get_or_insert(asset);
        proof {
            lemma_roots_kept_except_then(r0, r_entry, render_assets.octrees@, gone);
            work = work.push(PrepareWork::Octree(asset));
            sizes = sizes.push(None);
            outcomes = outcomes.push(PrepareOutcome::Failed);
            assert(render_assets.octrees@.contains_key(asset));
            assert forall|a: u128| a != asset implies (#[trigger] render_assets.octrees@.contains_key(a) == r_entry.contains_key(a)) by {
                assert(render_view(render_assets.octrees@).contains_key(a) == render_view(r_entry).contains_key(a));
            }
        }
        let ghost r_start = render_assets.octrees@;
        for node in nt: nodes.into_iter()
            invariant
                nt.seq() == all_nodes,
                bpf.max_bytes == max_bytes,
                roots_kept(r_start, render_assets.octrees@),
                render_assets.octrees@.contains_key(asset),
                forall|a: u128| a != asset ==> (#[trigger] render_assets.octrees@.contains_key(a) == r_entry.contains_key(a)),
                work == work_start.push(PrepareWork::Octree(asset)) + all_nodes.take(nt.index() as int).map_values(
                    |n: OctreeNode<A::Extracted>| PrepareWork::Extracted(asset, n),
                ),
                sizes.len() == work.len(),
                outcomes.len() == work.len(),
                all_asked(s0, max_bytes, removed_nodes@, added_nodes@, work, sizes, outcomes),
                prepared_after(s0, max_bytes, removed_nodes@, added_nodes@, work, sizes, outcomes) == (PrepareState {
                    next: next@,
                    render: render_assets.view_octrees(),
                    written: bpf.bytes_written,
                }),
        {
            let ghost w = PrepareWork::Extracted(asset, node);
            let ghost r_before = render_assets.octrees@;
            let got = prepare_one(asset, node, render_assets, &mut next, param, bpf);
            proof {
                lemma_roots_kept_trans(r_start, r_before, render_assets.octrees@);
                assert(render_assets.octrees@.contains_key(asset));
                lemma_asked_push(s0, max_bytes, removed_nodes@, added_nodes@, work, sizes, outcomes, w, got@.0, got@.1);
                lemma_prepared_push(s0, max_bytes, removed_nodes@, added_nodes@, work, sizes, outcomes, w, got@.0, got@.1);
                assert(all_nodes.take(nt.index() + 1) == all_nodes.take(nt.index() as int).push(node));
                work = work.push(w);
                sizes = sizes.push(got@.0);
                outcomes = outcomes.push(got@.1);
            }
        }
        proof {
            lemma_roots_kept_except_then(r0, r_start, render_assets.octrees@, gone);
            assert(all_nodes.take(all_nodes.len() as int) == all_nodes);
            let ex = extracted_all.take(et.index() + 1);
            assert(ex.drop_last() == extracted_all.take(et.index() as int));
            assert(ex.last() == entry);
            assert(work == queued_work(queued_all) + unload_work(removed_all) + extracted_work(ex));
            assert(extracted_all[et.index() as int] == entry);
            assert forall|j: int| 0 <= j < et.index() + 1 implies render_assets.octrees@.contains_key(#[trigger] extracted_all[j].0) by {
                if j < et.index() {
                    assert(r_entry.contains_key(extracted_all[j].0));
                }
            }
            assert forall|j: int|
                0 <= j < removed_all.len() && (forall|k: int| 0 <= k < et.index() + 1 ==> extracted_all[k].0 != removed_all[j])
                    implies !render_assets.octrees@.contains_key(#[trigger] removed_all[j]) by {
                assert(extracted_all[et.index() as int].0 != removed_all[j]);
                assert(!r_entry.contains_key(removed_all[j]));
            }
        }
    }
    proof {
        assert(extracted_all.take(extracted_all.len() as int) == extracted_all);
        assert(work == prepare_work(queued_all, removed_all, extracted_all));
    }
    prepare_next_frame.assets = next;
}

/// While the budget is not used up, a node is not held back for it: the node is
/// prepared (or retried or dropped as its preparation says), so each frame makes
/// progress even with a node larger than the whole budget.
pub proof fn law_prepare_makes_progress<A, E>(
    s: PrepareState<A, E>,
    max_bytes: Option<usize>,
    asset: u128,
    node: OctreeNode<E>,
    size: Option<usize>,
    outcome: PrepareOutcome<A, E>,
)
    requires
        !budget_exhausted(max_bytes, s.written),
    ensures
        prepare_node(s, max_bytes, asset, node, size, outcome).next == (match outcome {
            PrepareOutcome::Retry(d) => s.next.push((asset, node_with_data(node, d))),
            _ => s.next,
        }),
        outcome matches PrepareOutcome::Prepared(a) ==> prepare_node(s, max_bytes, asset, node, size, outcome).render[asset]
            == with_octree(s.render, asset)[asset].insert(node_key(node.id), node_with_data(node, a)),
{
}

/// Once the budget is used up, a node with a size waits for next frame and nothing else
/// changes.
pub proof fn law_exhausted_budget_defers<A, E>(
    s: PrepareState<A, E>,
    max_bytes: Option<usize>,
    asset: u128,
    node: OctreeNode<E>,
    size: usize,
    outcome: PrepareOutcome<A, E>,
)
    requires
        budget_exhausted(max_bytes, s.written),
    ensures
        prepare_node(s, max_bytes, asset, node, Some(size), outcome) == (PrepareState {
            next: s.next.push((asset, node)),
            ..s
        }),
{
}

/// A node queued from an earlier frame that this frame's extraction lists as removed, or
/// as added again, for its octree is dropped: whatever its size and whatever its
/// preparation would give, and whatever work came before it, no prepared octree gains
/// it, no byte is counted for it, and it is not queued again.
pub proof fn law_stale_queued_node_dropped<A, E>(
    s: PrepareState<A, E>,
    max_bytes: Option<usize>,
    removed: Map<u128, Vec<NodeId>>,
    added: Map<u128, Vec<NodeId>>,
    work: Seq<PrepareWork<E>>,
    sizes: Seq<Option<usize>>,
    outcomes: Seq<PrepareOutcome<A, E>>,
    asset: u128,
    node: OctreeNode<E>,
    size: Option<usize>,
    outcome: PrepareOutcome<A, E>,
)
    requires
        sizes.len() == work.len(),
        outcomes.len() == work.len(),
        (removed.contains_key(asset) && removed[asset]@.contains(node.id)) || (added.contains_key(asset)
            && added[asset]@.contains(node.id)),
    ensures
        prepare_step(s, max_bytes, removed, added, PrepareWork::Queued(asset, node), size, outcome) == s,
        prepared_after(
            s,
            max_bytes,
            removed,
            added,
            work.push(PrepareWork::Queued(asset, node)),
            sizes.push(size),
            outcomes.push(outcome),
        ) == prepared_after(s, max_bytes, removed, added, work, sizes, outcomes),
{
    lemma_prepared_push(s, max_bytes, removed, added, work, sizes, outcomes, PrepareWork::Queued(asset, node), size, outcome);
}

} // verus!
