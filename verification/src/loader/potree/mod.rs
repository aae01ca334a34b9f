//! Loading Potree point clouds: classification filters, the hierarchy a Potree dataset
//! lists, and the vertex buffers of a node's points.
pub mod asset;
pub mod chunk;

use crate::geometry::Aabb;
use crate::octree::new_asset::asset::InsertNodeError;
use crate::octree::new_asset::asset::{flat_node_error, flat_prefix_ok, parents_precede, NewOctree};
use crate::octree::new_asset::hierarchy::{HierarchyNode, HierarchyNodeData, HierarchyNodeStatus};
use crate::octree::new_asset::node::NodeData;
use crate::octree::storage::NodeId;
use crate::platform_specs::{class_set, class_set_contains};
use bevy_platform::collections::HashSet;
use vstd::prelude::*;
use vstd::string::StringExecFns;

verus! {

broadcast use vstd::std_specs::hash::group_hash_axioms;

/// An error that occurs when loading Potree point clouds.
#[derive(Debug)]
pub enum PotreeLoaderError {
    /// The root node is missing in the hierarchy.
    RootMissing,
    /// The hierarchy is malformed.
    InvalidHierarchy(String),
    /// The metadata could not be loaded.
    Metadata(String),
    /// The hierarchy could not be inserted into the octree.
    Octree(InsertNodeError),
}

impl PotreeLoaderError {
    /// The error message, without its details.
    pub fn message(&self) -> (s: &'static str)
        ensures
            *self matches PotreeLoaderError::RootMissing ==> s@ == "root node is missing in the potree hierarchy"@,
            *self matches PotreeLoaderError::InvalidHierarchy(..) ==> s@ == "invalid hierarchy"@,
            *self matches PotreeLoaderError::Metadata(..) ==> s@ == "metadata loading error"@,
            *self matches PotreeLoaderError::Octree(..) ==> s@ == "octree topology error"@,
    {
        match self {
            PotreeLoaderError::RootMissing => "root node is missing in the potree hierarchy",
            PotreeLoaderError::InvalidHierarchy(_) => "invalid hierarchy",
            PotreeLoaderError::Metadata(_) => "metadata loading error",
            PotreeLoaderError::Octree(_) => "octree topology error",
        }
    }
}

/// Which points of a chunk to keep, by classification.
#[derive(Debug)]
pub enum FilterClassification {
    /// Keep every point.
    KeepAll,
    /// Keep the points whose classification is in the set.
    Include(HashSet<u8>),
    /// Keep the points whose classification is not in the set.
    Exclude(HashSet<u8>),
}

/// Whether `filter` keeps a point of classification `c`.
pub open spec fn keeps_class(filter: FilterClassification, c: u8) -> bool {
    match filter {
        FilterClassification::KeepAll => true,
        FilterClassification::Include(set) => class_set(set).contains(c),
        FilterClassification::Exclude(set) => !class_set(set).contains(c),
    }
}

impl FilterClassification {
    /// Whether a point of this classification passes the filter.
    pub fn filter(&self, classification: u8) -> (b: bool)
        ensures
            b == keeps_class(*self, classification),
    {
        match self {
            FilterClassification::KeepAll => true,
            FilterClassification::Include(set) => class_set_contains(set, classification),
            FilterClassification::Exclude(set) => !class_set_contains(set, classification),
        }
    }

    /// Whether this filter keeps every point.
    pub fn keeps_all(&self) -> (b: bool)
        ensures
            b == (*self is KeepAll),
    {
        match self {
            FilterClassification::KeepAll => true,
            _ => false,
        }
    }
}

/// The loader settings of a Potree point cloud.
#[derive(Debug)]
pub struct PotreeLoaderSettings {
    pub filter_classification: FilterClassification,
}

impl PotreeLoaderSettings {
    /// Settings that keep every point.
    pub fn new() -> (s: Self)
        ensures
            s.filter_classification is KeepAll,
    {
        PotreeLoaderSettings { filter_classification: FilterClassification::KeepAll }
    }
}

/// The hierarchy data of a Potree octree node: the node as the dataset lists it.
#[derive(Clone, Debug)]
pub struct PotreeHierarchy<N>(pub N);

impl<N: Clone> HierarchyNodeData for PotreeHierarchy<N> {
}

/// The kind of a node in a Potree hierarchy.
#[derive(Clone, Copy, Debug, PartialEq, Eq, Structural)]
pub enum PotreeNodeType {
    Normal,
    Leaf,
    /// A node whose own hierarchy is still to be loaded.
    Proxy,
}

/// A node of a Potree hierarchy as the dataset lists it: its parent is named by its
/// position in the list.
#[derive(Debug)]
pub struct PotreeHierarchyNode<H> {
    pub parent: Option<usize>,
    pub child_index: u8,
    pub node_type: PotreeNodeType,
    pub bounding_box: Aabb,
    pub data: H,
}

/// The positions below `m` whose node names `p` as its parent, in increasing order.
pub open spec fn children_below(parents: Seq<Option<usize>>, p: usize, m: int) -> Seq<usize>
    decreases m,
{
    if m <= 0 {
        Seq::empty()
    } else {
        let prev = children_below(parents, p, m - 1);
        if parents[m - 1] == Some(p) {
            prev.push((m - 1) as usize)
        } else {
            prev
        }
    }
}

/// The positions below `m` whose node has no parent, in increasing order.
pub open spec fn roots_below(parents: Seq<Option<usize>>, m: int) -> Seq<usize>
    decreases m,
{
    if m <= 0 {
        Seq::empty()
    } else {
        let prev = roots_below(parents, m - 1);
        if parents[m - 1] is None {
            prev.push((m - 1) as usize)
        } else {
            prev
        }
    }
}

/// The members of `children_below` are exactly the children of `p` below `m`, and they
/// are in increasing order.
pub proof fn lemma_children_below(parents: Seq<Option<usize>>, p: usize, m: int)
    requires
        0 <= m <= parents.len(),
        parents.len() <= usize::MAX,
    ensures
        forall|i: usize| #[trigger] children_below(parents, p, m).contains(i) <==> (i < m && parents[i as int]
            == Some(p)),
        forall|a: int, b: int| 0 <= a < b < children_below(parents, p, m).len()
            ==> children_below(parents, p, m)[a] < children_below(parents, p, m)[b],
        forall|a: int| 0 <= a < children_below(parents, p, m).len() ==> children_below(parents, p, m)[a] < m,
    decreases m,
{
    if m > 0 {
        lemma_children_below(parents, p, m - 1);
        let prev = children_below(parents, p, m - 1);
        let cur = children_below(parents, p, m);
        if parents[m - 1] == Some(p) {
            assert(cur == prev.push((m - 1) as usize));
            assert(((m - 1) as usize) as int == m - 1);
            assert forall|a: int, b: int| 0 <= a < b < cur.len() implies cur[a] < cur[b] by {
                if b == prev.len() {
                    assert(prev[a] < m - 1);
                } else {
                    assert(cur[a] == prev[a] && cur[b] == prev[b]);
                }
            }
            assert forall|i: usize| #[trigger] cur.contains(i) <==> (i < m && parents[i as int] == Some(p)) by {
                if i == m - 1 {
                    assert(cur[prev.len() as int] == i);
                } else {
                    if cur.contains(i) {
                        let a = choose|a: int| 0 <= a < cur.len() && cur[a] == i;
                        if a < prev.len() {
                            assert(prev[a] == i);
                        }
                    }
                    if prev.contains(i) {
                        let a = choose|a: int| 0 <= a < prev.len() && prev[a] == i;
                        assert(cur[a] == i);
                    }
                }
            }
        }
    }
}

/// The child positions of each node, and the positions of the nodes without a parent,
/// both in increasing order. A parent position out of range is ignored.
pub fn build_hierarchy_children(parents: &Vec<Option<usize>>) -> (r: (Vec<Vec<usize>>, Vec<usize>))
    ensures
        r.0@.len() == parents@.len(),
        forall|p: int| 0 <= p < parents@.len() ==> #[trigger] r.0@[p]@ == children_below(parents@, p as usize, parents@.len() as int),
        r.1@ == roots_below(parents@, parents@.len() as int),
{
    let n = parents.len();
    let mut children: Vec<Vec<usize>> = Vec::new();
    let mut k: usize = 0;
    while k < n
        invariant
            k <= n,
            n == parents@.len(),
            children@.len() == k,
            forall|p: int| 0 <= p < k ==> #[trigger] children@[p]@ == Seq::<usize>::empty(),
        decreases n - k,
    {
        children.push(Vec::new());
        k = k + 1;
    }
    let mut roots: Vec<usize> = Vec::new();
    let mut idx: usize = 0;
    while idx < n
        invariant
            idx <= n,
            n == parents@.len(),
            children@.len() == n,
            forall|p: int| 0 <= p < n ==> #[trigger] children@[p]@ == children_below(parents@, p as usize, idx as int),
            roots@ == roots_below(parents@, idx as int),
        decreases n - idx,
    {
        match parents[idx] {
            Some(parent) => {
                if parent < n {
                    let ghost before = children@;
                    children[parent].push(idx);
                    proof {
                        assert forall|p: int| 0 <= p < n implies #[trigger] children@[p]@ == children_below(
                            parents@,
                            p as usize,
                            idx + 1,
                        ) by {
                            if p != parent as int {
                                assert(children@[p] == before[p]);
                            }
                        }
                    }
                }
            },
            None => {
                roots.push(idx);
            },
        }
        idx = idx + 1;
    }
    (children, roots)
}

/// The parent position of each node of a listed hierarchy.
pub open spec fn raw_parents<H>(raw: Seq<PotreeHierarchyNode<H>>) -> Seq<Option<usize>> {
    raw.map_values(|n: PotreeHierarchyNode<H>| n.parent)
}

/// The load status of a hierarchy node of kind `t`.
pub open spec fn status_of(t: PotreeNodeType) -> HierarchyNodeStatus {
    match t {
        PotreeNodeType::Proxy => HierarchyNodeStatus::Proxy,
        _ => HierarchyNodeStatus::Loaded,
    }
}

/// The hierarchy node made from the listed node `n`, under the node at position `parent`
/// of the output list.
pub open spec fn converted<H>(n: PotreeHierarchyNode<H>, parent: Option<usize>) -> HierarchyNode<H> {
    HierarchyNode {
        status: status_of(n.node_type),
        child_index: n.child_index as usize,
        parent_id: parent,
        bounding_box: n.bounding_box,
        data: n.data,
    }
}

/// The number of filled slots.
pub open spec fn count_filled<A>(s: Seq<Option<A>>) -> nat
    decreases s.len(),
{
    if s.len() == 0 {
        0
    } else {
        count_filled(s.drop_last()) + if s.last() is Some { 1nat } else { 0nat }
    }
}

/// Emptying a filled slot leaves one filled slot fewer.
pub proof fn lemma_count_filled_take<A>(s: Seq<Option<A>>, i: int)
    requires
        0 <= i < s.len(),
        s[i] is Some,
    ensures
        count_filled(s.update(i, None)) + 1 == count_filled(s),
    decreases s.len(),
{
    let t = s.update(i, None);
    if i == s.len() - 1 {
        assert(t.drop_last() =~= s.drop_last());
    } else {
        assert(t.drop_last() =~= s.drop_last().update(i, None));
        lemma_count_filled_take(s.drop_last(), i);
    }
}

/// The nodes without parent are listed by `roots_below` in increasing order.
pub proof fn lemma_roots_below(parents: Seq<Option<usize>>, m: int)
    requires
        0 <= m <= parents.len(),
        parents.len() <= usize::MAX,
    ensures
        forall|a: int| 0 <= a < roots_below(parents, m).len() ==> {
            &&& (#[trigger] roots_below(parents, m)[a]) < m
            &&& parents[roots_below(parents, m)[a] as int] is None
        },
    decreases m,
{
    if m > 0 {
        lemma_roots_below(parents, m - 1);
        assert(((m - 1) as usize) as int == m - 1);
    }
}

/// A sequence with every slot filled counts all its slots.
pub proof fn lemma_count_filled_full<A>(s: Seq<Option<A>>)
    requires
        forall|i: int| 0 <= i < s.len() ==> (#[trigger] s[i]) is Some,
    ensures
        count_filled(s) == s.len(),
    decreases s.len(),
{
    if s.len() > 0 {
        lemma_count_filled_full(s.drop_last());
    }
}

/// `list` holds, at each position `j`, the listed node `ord[j]` converted: the first is
/// a node without parent, each other one names an earlier position holding its parent.
/// No listed node occurs twice.
pub open spec fn lists_prefix<H>(raw: Seq<PotreeHierarchyNode<H>>, list: Seq<HierarchyNode<H>>, ord: Seq<usize>) -> bool {
    &&& list.len() == ord.len()
    &&& ord.no_duplicates()
    &&& forall|j: int| 0 <= j < ord.len() ==> #[trigger] ord[j] < raw.len()
    &&& forall|j: int| #![trigger list[j]] 0 <= j < list.len() ==> {
        let n = raw[ord[j] as int];
        &&& list[j].status == status_of(n.node_type)
        &&& list[j].child_index == n.child_index as usize
        &&& list[j].bounding_box == n.bounding_box
        &&& list[j].data == n.data
        &&& (j == 0 ==> list[j].parent_id is None)
        &&& (j > 0 ==> (list[j].parent_id matches Some(q) && q < j && n.parent == Some(ord[q as int])))
        &&& (j > 0 ==> list[j].child_index < 8)
    }
}

/// `lists_prefix`, and every child of a node in `list` is in `list` too.
pub open spec fn lists_subtree<H>(raw: Seq<PotreeHierarchyNode<H>>, list: Seq<HierarchyNode<H>>, ord: Seq<usize>) -> bool {
    &&& lists_prefix(raw, list, ord)
    &&& forall|j: int, i: int| 0 <= j < ord.len() && 0 <= i < raw.len() && #[trigger] raw[i].parent == Some(
        #[trigger] ord[j],
    ) ==> ord.contains(i as usize)
}

/// Node `i` waits on `stack` to be listed under output position `j`.
pub open spec fn waits(stack: Seq<(usize, Option<usize>)>, i: int, j: int) -> bool {
    exists|s: int| 0 <= s < stack.len() && #[trigger] stack[s] == (i as usize, Some(j as usize))
}

/// A stack entry names a listed node and either the output position of its parent, or
/// no position for the start node before anything is listed.
pub open spec fn stack_item_ok<H>(
    raw: Seq<PotreeHierarchyNode<H>>,
    ord: Seq<usize>,
    root: usize,
    len: int,
    item: (usize, Option<usize>),
) -> bool {
    &&& item.0 < raw.len()
    &&& match item.1 {
        Some(q) => q < ord.len() && raw[item.0 as int].parent == Some(ord[q as int]),
        None => item.0 == root && ord.len() == 0 && len == 1,
    }
}

/// Position `b` of `list` lies in the subtree of position `a`: following parent
/// positions from `b` reaches `a`.
pub open spec fn in_subtree<H>(list: Seq<HierarchyNode<H>>, a: int, b: int) -> bool
    decreases b,
{
    if b <= a {
        b == a
    } else {
        match list[b].parent_id {
            Some(p) => p < b && in_subtree(list, a, p as int),
            None => false,
        }
    }
}

/// Each subtree of `list` occupies consecutive positions: whatever lies between a node
/// and one of its descendants is a descendant too.
pub open spec fn subtrees_contiguous<H>(list: Seq<HierarchyNode<H>>) -> bool {
    forall|a: int, b: int, c: int|
        #![trigger in_subtree(list, a, c), in_subtree(list, a, b)]
        0 <= a < b < c < list.len() && in_subtree(list, a, c) ==> in_subtree(list, a, b)
}

/// Listed children of one parent come in increasing listed position (`ord`).
pub open spec fn siblings_in_order<H>(list: Seq<HierarchyNode<H>>, ord: Seq<usize>) -> bool {
    forall|j1: int, j2: int|
        #![trigger ord[j1], ord[j2]]
        0 < j1 < j2 < list.len() && list[j1].parent_id == list[j2].parent_id ==> ord[j1] < ord[j2]
}

/// What a depth-first walk keeps between steps: the listing so far has contiguous
/// subtrees and ordered siblings; every node listed after the parent of a waiting entry
/// is below that parent; the waiting parents deepen towards the top of the stack; among
/// waiting siblings the smaller position is on top, and after every listed sibling.
#[verifier::opaque]
pub open spec fn dfs_state_ok<H>(
    list: Seq<HierarchyNode<H>>,
    ord: Seq<usize>,
    stack: Seq<(usize, Option<usize>)>,
) -> bool {
    &&& subtrees_contiguous(list)
    &&& siblings_in_order(list, ord)
    &&& forall|s: int, b: int|
        #![trigger stack[s], in_subtree(list, stack[s].1.unwrap() as int, b)]
        0 <= s < stack.len() && stack[s].1 is Some && stack[s].1.unwrap() < b < list.len() ==> in_subtree(
            list,
            stack[s].1.unwrap() as int,
            b,
        )
    &&& forall|s1: int, s2: int|
        #![trigger stack[s1], stack[s2]]
        0 <= s1 < s2 < stack.len() && stack[s1].1 is Some && stack[s2].1 is Some ==> stack[s1].1.unwrap()
            <= stack[s2].1.unwrap()
    &&& forall|s1: int, s2: int|
        #![trigger stack[s1], stack[s2]]
        0 <= s1 < s2 < stack.len() && stack[s1].1 is Some && stack[s1].1 == stack[s2].1 ==> stack[s2].0
            < stack[s1].0
    &&& forall|s: int, j: int|
        #![trigger stack[s], list[j]]
        0 <= s < stack.len() && 0 < j < list.len() && stack[s].1 is Some && list[j].parent_id == stack[s].1
            ==> ord[j] < stack[s].0
}

/// The walk's state at its start: nothing listed, the first node waiting alone.
proof fn lemma_dfs_start<H>(list: Seq<HierarchyNode<H>>, ord: Seq<usize>, root: usize)
    requires
        list.len() == 0,
    ensures
        dfs_state_ok(list, ord, seq![(root, None::<usize>)]),
{
    reveal(dfs_state_ok);
}

/// The walk's state gives contiguous subtrees and ordered siblings.
proof fn lemma_dfs_done<H>(list: Seq<HierarchyNode<H>>, ord: Seq<usize>, stack: Seq<(usize, Option<usize>)>)
    requires
        dfs_state_ok(list, ord, stack),
    ensures
        subtrees_contiguous(list),
        siblings_in_order(list, ord),
{
    reveal(dfs_state_ok);
}

/// Being below a node is transitive.
proof fn lemma_in_subtree_trans<H>(list: Seq<HierarchyNode<H>>, a: int, b: int, c: int)
    requires
        in_subtree(list, a, b),
        in_subtree(list, b, c),
    ensures
        in_subtree(list, a, c),
    decreases c,
{
    if c > b {
        let p = list[c].parent_id.unwrap() as int;
        lemma_in_subtree_trans(list, a, b, p);
    }
}

/// Appending to a list keeps what lies below what among its positions.
proof fn lemma_in_subtree_push<H>(list: Seq<HierarchyNode<H>>, x: HierarchyNode<H>, a: int, b: int)
    requires
        0 <= b < list.len(),
    ensures
        in_subtree(list.push(x), a, b) == in_subtree(list, a, b),
    decreases b,
{
    if b > a {
        assert(list.push(x)[b] == list[b]);
        match list[b].parent_id {
            Some(p) => {
                if p < b {
                    lemma_in_subtree_push(list, x, a, p as int);
                }
            },
            None => {},
        }
    }
}

/// Dropping the top of the stack keeps the walk's state.
proof fn lemma_dfs_pop<H>(list: Seq<HierarchyNode<H>>, ord: Seq<usize>, stack: Seq<(usize, Option<usize>)>)
    requires
        dfs_state_ok(list, ord, stack),
        stack.len() > 0,
    ensures
        dfs_state_ok(list, ord, stack.drop_last()),
{
    reveal(dfs_state_ok);
    let st = stack.drop_last();
    assert forall|s: int, b: int| 0 <= s < st.len() && st[s].1 is Some && st[s].1.unwrap() < b < list.len() implies in_subtree(
        list,
        st[s].1.unwrap() as int,
        b,
    ) by {
        assert(st[s] == stack[s]);
    }
    assert forall|s1: int, s2: int| 0 <= s1 < s2 < st.len() && st[s1].1 is Some && st[s2].1 is Some implies st[s1].1.unwrap()
        <= st[s2].1.unwrap() by {
        assert(st[s1] == stack[s1] && st[s2] == stack[s2]);
    }
    assert forall|s1: int, s2: int| 0 <= s1 < s2 < st.len() && st[s1].1 is Some && st[s1].1 == st[s2].1 implies st[s2].0
        < st[s1].0 by {
        assert(st[s1] == stack[s1] && st[s2] == stack[s2]);
    }
    assert forall|s: int, j: int| 0 <= s < st.len() && 0 < j < list.len() && st[s].1 is Some && list[j].parent_id == st[s].1
        implies ord[j] < st[s].0 by {
        assert(st[s] == stack[s]);
    }
}

/// Listing the node on top of the stack, under the parent position it waited with,
/// keeps the walk's state.
proof fn lemma_dfs_list<H>(
    list: Seq<HierarchyNode<H>>,
    ord: Seq<usize>,
    stack: Seq<(usize, Option<usize>)>,
    x: HierarchyNode<H>,
    idx: usize,
)
    requires
        dfs_state_ok(list, ord, stack),
        list.len() == ord.len(),
        stack.len() > 0,
        stack.last() == (idx, x.parent_id),
        x.parent_id matches Some(q) ==> q < list.len(),
        x.parent_id is None ==> list.len() == 0 && stack.len() == 1,
    ensures
        dfs_state_ok(list.push(x), ord.push(idx), stack.drop_last()),
{
    reveal(dfs_state_ok);
    let l2 = list.push(x);
    let o2 = ord.push(idx);
    let st = stack.drop_last();
    let top = stack.len() - 1;
    let n = list.len() as int;
    assert(l2[n] == x);
    assert forall|a: int, b: int, c: int|
        #![trigger in_subtree(l2, a, c), in_subtree(l2, a, b)]
        0 <= a < b < c < l2.len() && in_subtree(l2, a, c) implies in_subtree(l2, a, b) by {
        lemma_in_subtree_push(list, x, a, b);
        if c < n {
            lemma_in_subtree_push(list, x, a, c);
            assert(in_subtree(list, a, c) ==> in_subtree(list, a, b));
        } else {
            let q = x.parent_id.unwrap() as int;
            lemma_in_subtree_push(list, x, a, q);
            assert(in_subtree(list, a, q));
            if b < q {
                assert(in_subtree(list, a, q) ==> in_subtree(list, a, b));
            } else if b > q {
                assert(stack[top].1 == Some(q as usize));
                assert(in_subtree(list, stack[top].1.unwrap() as int, b));
                lemma_in_subtree_trans(list, a, q, b);
            }
        }
    }
    assert forall|j1: int, j2: int|
        #![trigger o2[j1], o2[j2]]
        0 < j1 < j2 < l2.len() && l2[j1].parent_id == l2[j2].parent_id implies o2[j1] < o2[j2] by {
        if j2 < n {
            assert(l2[j1] == list[j1] && l2[j2] == list[j2]);
            assert(ord[j1] < ord[j2]);
        } else {
            assert(l2[j1] == list[j1]);
            assert(list[j1].parent_id == stack[top].1);
            assert(ord[j1] < stack[top].0);
        }
    }
    assert forall|s: int, b: int|
        #![trigger st[s], in_subtree(l2, st[s].1.unwrap() as int, b)]
        0 <= s < st.len() && st[s].1 is Some && st[s].1.unwrap() < b < l2.len() implies in_subtree(
            l2,
            st[s].1.unwrap() as int,
            b,
        ) by {
        assert(st[s] == stack[s]);
        let q2 = st[s].1.unwrap() as int;
        if b < n {
            lemma_in_subtree_push(list, x, q2, b);
            assert(in_subtree(list, stack[s].1.unwrap() as int, b));
        } else {
            let q = x.parent_id.unwrap() as int;
            assert(stack[top].1 == Some(q as usize));
            assert(stack[s].1.unwrap() <= stack[top].1.unwrap());
            lemma_in_subtree_push(list, x, q2, q);
            if q2 < q {
                assert(in_subtree(list, stack[s].1.unwrap() as int, q));
            }
            assert(in_subtree(l2, q2, q));
        }
    }
    assert forall|s1: int, s2: int|
        #![trigger st[s1], st[s2]]
        0 <= s1 < s2 < st.len() && st[s1].1 is Some && st[s2].1 is Some implies st[s1].1.unwrap() <= st[s2].1.unwrap() by {
        assert(st[s1] == stack[s1] && st[s2] == stack[s2]);
    }
    assert forall|s1: int, s2: int|
        #![trigger st[s1], st[s2]]
        0 <= s1 < s2 < st.len() && st[s1].1 is Some && st[s1].1 == st[s2].1 implies st[s2].0 < st[s1].0 by {
        assert(st[s1] == stack[s1] && st[s2] == stack[s2]);
    }
    assert forall|s: int, j: int|
        #![trigger st[s], l2[j]]
        0 <= s < st.len() && 0 < j < l2.len() && st[s].1 is Some && l2[j].parent_id == st[s].1 implies o2[j] < st[s].0 by {
        assert(st[s] == stack[s]);
        if j < n {
            assert(l2[j] == list[j]);
            assert(ord[j] < stack[s].0);
        } else {
            assert(stack[s].1 == stack[top].1);
            assert(stack[top].0 < stack[s].0);
        }
    }
}

/// Pushing a child of the last listed node, smaller than its siblings already waiting,
/// keeps the walk's state.
proof fn lemma_dfs_push<H>(
    list: Seq<HierarchyNode<H>>,
    ord: Seq<usize>,
    stack: Seq<(usize, Option<usize>)>,
    c: usize,
)
    requires
        dfs_state_ok(list, ord, stack),
        0 < list.len() <= usize::MAX,
        forall|j: int| 0 <= j < list.len() && (#[trigger] list[j]).parent_id is Some ==> list[j].parent_id.unwrap() < j,
        forall|s: int| 0 <= s < stack.len() && (#[trigger] stack[s]).1 is Some ==> stack[s].1.unwrap() < list.len(),
        forall|s: int| 0 <= s < stack.len() && (#[trigger] stack[s]).1 == Some((list.len() - 1) as usize) ==> c < stack[s].0,
    ensures
        dfs_state_ok(list, ord, stack.push((c, Some((list.len() - 1) as usize)))),
{
    reveal(dfs_state_ok);
    let pos = (list.len() - 1) as usize;
    let st = stack.push((c, Some(pos)));
    let top = stack.len() as int;
    assert(st[top] == (c, Some(pos)));
    assert forall|s: int, b: int|
        #![trigger st[s], in_subtree(list, st[s].1.unwrap() as int, b)]
        0 <= s < st.len() && st[s].1 is Some && st[s].1.unwrap() < b < list.len() implies in_subtree(
            list,
            st[s].1.unwrap() as int,
            b,
        ) by {
        assert(pos as int == list.len() - 1);
        assert(s < top);
        assert(st[s] == stack[s]);
    }
    assert forall|s1: int, s2: int|
        #![trigger st[s1], st[s2]]
        0 <= s1 < s2 < st.len() && st[s1].1 is Some && st[s2].1 is Some implies st[s1].1.unwrap() <= st[s2].1.unwrap() by {
        assert(pos as int == list.len() - 1);
        assert(st[s1] == stack[s1]);
        if s2 < top {
            assert(st[s2] == stack[s2]);
        }
    }
    assert forall|s1: int, s2: int|
        #![trigger st[s1], st[s2]]
        0 <= s1 < s2 < st.len() && st[s1].1 is Some && st[s1].1 == st[s2].1 implies st[s2].0 < st[s1].0 by {
        assert(st[s1] == stack[s1]);
        if s2 < top {
            assert(st[s2] == stack[s2]);
        }
    }
    assert forall|s: int, j: int|
        #![trigger st[s], list[j]]
        0 <= s < st.len() && 0 < j < list.len() && st[s].1 is Some && list[j].parent_id == st[s].1 implies ord[j] < st[s].0 by {
        if s < top {
            assert(st[s] == stack[s]);
        } else {
            assert(pos as int == list.len() - 1);
            assert(list[j].parent_id.unwrap() < j);
        }
    }
}

/// Node `i` has a child index of 8 or more and hangs below a node of `list`, a listing
/// (see `lists_prefix`) that starts at the first node without parent.
pub open spec fn bad_child_below<H>(
    raw: Seq<PotreeHierarchyNode<H>>,
    list: Seq<HierarchyNode<H>>,
    ord: Seq<usize>,
    i: int,
) -> bool {
    &&& lists_prefix(raw, list, ord)
    &&& ord.len() > 0
    &&& roots_below(raw_parents(raw), raw.len() as int).len() > 0
    &&& ord[0] == roots_below(raw_parents(raw), raw.len() as int)[0]
    &&& 0 <= i < raw.len()
    &&& raw[i].child_index >= 8
    &&& exists|q: int| 0 <= q < ord.len() && raw[i].parent == Some(#[trigger] ord[q])
}

/// A listing from the first node without parent lies within any complete listing from it.
proof fn lemma_prefix_within_subtree<H>(
    raw: Seq<PotreeHierarchyNode<H>>,
    list: Seq<HierarchyNode<H>>,
    ord: Seq<usize>,
    list2: Seq<HierarchyNode<H>>,
    ord2: Seq<usize>,
    j: int,
)
    requires
        lists_prefix(raw, list, ord),
        lists_subtree(raw, list2, ord2),
        ord.len() > 0,
        ord2.len() > 0,
        ord[0] == ord2[0],
        0 <= j < ord.len(),
    ensures
        ord2.contains(ord[j]),
    decreases j,
{
    if j == 0 {
        assert(ord2[0] == ord[0]);
    } else {
        assert(list[j] == list[j]);
        let q = list[j].parent_id.unwrap() as int;
        lemma_prefix_within_subtree(raw, list, ord, list2, ord2, q);
        let j2 = choose|j2: int| 0 <= j2 < ord2.len() && ord2[j2] == ord[q];
        assert(raw[ord[j] as int].parent == Some(ord2[j2]));
        assert(ord2.contains(ord[j] as int as usize));
    }
}

/// No node with a child index of 8 or more hangs below a complete listing from the first
/// node without parent.
proof fn lemma_no_bad_child<H>(
    raw: Seq<PotreeHierarchyNode<H>>,
    list: Seq<HierarchyNode<H>>,
    ord: Seq<usize>,
    list2: Seq<HierarchyNode<H>>,
    ord2: Seq<usize>,
    i: int,
)
    requires
        lists_subtree(raw, list2, ord2),
        ord2.len() > 0,
        roots_below(raw_parents(raw), raw.len() as int).len() > 0,
        ord2[0] == roots_below(raw_parents(raw), raw.len() as int)[0],
        raw.len() <= usize::MAX,
    ensures
        !bad_child_below(raw, list, ord, i),
{
    if bad_child_below(raw, list, ord, i) {
        let q = choose|q: int| 0 <= q < ord.len() && raw[i].parent == Some(#[trigger] ord[q]);
        lemma_prefix_within_subtree(raw, list, ord, list2, ord2, q);
        let j2 = choose|j2: int| 0 <= j2 < ord2.len() && ord2[j2] == ord[q];
        assert(raw[i].parent == Some(ord2[j2]));
        assert(ord2.contains(i as usize));
        let k = choose|k: int| 0 <= k < ord2.len() && ord2[k] == i as usize;
        assert(list2[k] == list2[k]);
        assert(ord2[k] as int == i);
        if k == 0 {
            lemma_roots_below(raw_parents(raw), raw.len() as int);
            assert(raw_parents(raw)[i] == raw[i].parent);
            assert(raw[i].parent is None);
            assert(false);
        } else {
            assert(list2[k].child_index < 8);
            assert(list2[k].child_index == raw[i].child_index as usize);
            assert(false);
        }
    }
}

/// Lists the hierarchy below the first node without parent, depth first, children in
/// increasing child position: each node converted, under the output position of its
/// parent. Returns the list and the listed position of each of its nodes.
///
/// Fails with `InvalidHierarchy` when no node lacks a parent, or when a listed node below
/// the first one has a child index of 8 or more.
#[verifier::loop_isolation(false)]
#[verifier::rlimit(100)]
#[verifier::spinoff_prover]
pub fn build_hierarchy<H>(raw_nodes: Vec<PotreeHierarchyNode<H>>) -> (r: Result<
    (Vec<HierarchyNode<H>>, Vec<usize>),
    PotreeLoaderError,
>)
    ensures
        match r {
            Ok((list, ord)) => {
                let roots = roots_below(raw_parents(raw_nodes@), raw_nodes@.len() as int);
                &&& roots.len() > 0
                &&& ord@.len() > 0
                &&& ord@.len() <= raw_nodes@.len()
                &&& ord@[0] == roots[0]
                &&& lists_subtree(raw_nodes@, list@, ord@)
                &&& subtrees_contiguous(list@)
                &&& siblings_in_order(list@, ord@)
            },
            Err(e) => e is InvalidHierarchy,
        },
        r is Err <==> (roots_below(raw_parents(raw_nodes@), raw_nodes@.len() as int).len() == 0 || exists|
            list: Seq<HierarchyNode<H>>,
            ord: Seq<usize>,
            i: int,
        | #[trigger] bad_child_below(raw_nodes@, list, ord, i)),
{
    let ghost raw = raw_nodes@;
    let n = raw_nodes.len();
    let mut parents: Vec<Option<usize>> = Vec::new();
    let mut slots: Vec<Option<PotreeHierarchyNode<H>>> = Vec::new();
    for node in it: raw_nodes.into_iter()
        invariant
            it.seq() == raw,
            n == raw.len(),
            parents@ == raw_parents(raw).take(it.index() as int),
            slots@.len() == it.index(),
            forall|i: int| 0 <= i < it.index() ==> #[trigger] slots@[i] == Some(raw[i]),
    {
        proof {
            assert(raw_parents(raw).take(it.index() + 1) == raw_parents(raw).take(it.index() as int).push(node.parent));
        }
        parents.push(node.parent);
        slots.push(Some(node));
    }
    proof {
        assert(parents@ == raw_parents(raw));
    }
    let (children, roots) = build_hierarchy_children(&parents);
    if roots.len() == 0 {
        return Err(PotreeLoaderError::InvalidHierarchy(
            String::from_str("Loaded octree hierarchy is empty or missing a root node"),
        ));
    }
    let root_idx = roots[0];
    proof {
        lemma_roots_below(raw_parents(raw), n as int);
        assert(roots@[0] == root_idx);
    }
    let mut list: Vec<HierarchyNode<H>> = Vec::new();
    let mut order: Vec<usize> = Vec::new();
    let mut stack: Vec<(usize, Option<usize>)> = Vec::new();
    stack.push((root_idx, None));
    proof {
        assert forall|i: int| 0 <= i < n implies ((#[trigger] slots@[i]) is None <==> order@.contains(i as usize)) by {
            assert(slots@[i] == Some(raw[i]));
        }
        lemma_count_filled_full(slots@);
        assert(stack@ == seq![(root_idx, None::<usize>)]);
        lemma_dfs_start(list@, order@, root_idx);
    }
    while stack.len() > 0
        invariant
            n == raw.len(),
            parents@ == raw_parents(raw),
            children@.len() == n,
            forall|p: int| 0 <= p < n ==> #[trigger] children@[p]@ == children_below(parents@, p as usize, n as int),
            root_idx < n,
            roots@.len() > 0,
            roots@[0] == root_idx,
            roots@ == roots_below(raw_parents(raw), n as int),
            raw[root_idx as int].parent is None,
            slots@.len() == n,
            forall|i: int| 0 <= i < n && (#[trigger] slots@[i]) is Some ==> slots@[i] == Some(raw[i]),
            forall|i: int| 0 <= i < n ==> ((#[trigger] slots@[i]) is None <==> order@.contains(i as usize)),
            count_filled(slots@) + order@.len() == n,
            lists_prefix(raw, list@, order@),
            forall|j: int, i: int| 0 <= j < order@.len() && 0 <= i < raw.len() && #[trigger] raw[i].parent == Some(
                #[trigger] order@[j],
            ) ==> order@.contains(i as usize) || waits(stack@, i, j),
            order@.len() > 0 ==> order@[0] == root_idx,
            order@.len() == 0 ==> stack@.len() == 1 && stack@[0] == (root_idx, None::<usize>),
            dfs_state_ok(list@, order@, stack@),
            forall|s: int| 0 <= s < stack@.len() ==> #[trigger] stack_item_ok(raw, order@, root_idx, stack@.len() as int, stack@[s]),
        decreases count_filled(slots@), stack@.len(),
    {
        let ghost stack_before = stack@;
        let ghost order_before = order@;
        let (idx, parent_pos) = stack.pop().unwrap();
        proof {
            assert(stack_before[stack_before.len() - 1] == (idx, parent_pos));
            assert(stack_item_ok(raw, order@, root_idx, stack_before.len() as int, stack_before[stack_before.len() - 1]));
        }
        if slots[idx].is_none() {
            proof {
                assert forall|s: int| 0 <= s < stack@.len() implies #[trigger] stack_item_ok(raw, order@, root_idx, stack@.len() as int, stack@[s]) by {
                    assert(stack@[s] == stack_before[s]);
                    assert(stack_item_ok(raw, order@, root_idx, stack_before.len() as int, stack_before[s]));
                }
                assert forall|j: int, i: int| 0 <= j < order@.len() && 0 <= i < raw.len() && #[trigger] raw[i].parent == Some(
                    #[trigger] order@[j],
                ) implies order@.contains(i as usize) || waits(stack@, i, j) by {
                    if !order@.contains(i as usize) {
                        let s = choose|s: int| 0 <= s < stack_before.len() && #[trigger] stack_before[s] == (i as usize, Some(j as usize));
                        if s == stack_before.len() - 1 {
                            assert(slots@[idx as int] is None);
                        } else {
                            assert(stack@[s] == stack_before[s]);
                        }
                    }
                }
                lemma_dfs_pop(list@, order@, stack_before);
            }
            continue;
        }
        let ghost slots_before = slots@;
        let mut taken: Option<PotreeHierarchyNode<H>> = None;
        std::mem::swap(&mut slots[idx], &mut taken);
        proof {
            assert(slots_before[idx as int] == Some(raw[idx as int]));
            assert(!order@.contains(idx));
            assert(!order_before.contains(idx));
            assert(slots@ == slots_before.update(idx as int, None));
        }
        let node = taken.unwrap();
        let status = if node.node_type == PotreeNodeType::Proxy {
            HierarchyNodeStatus::Proxy
        } else {
            HierarchyNodeStatus::Loaded
        };
        if parent_pos.is_some() && node.child_index >= 8 {
            proof {
                assert(node == raw[idx as int]);
                let q = parent_pos.unwrap() as int;
                assert(raw[idx as int].parent == Some(order@[q]));
                assert(bad_child_below(raw, list@, order@, idx as int));
            }
            return Err(PotreeLoaderError::InvalidHierarchy(String::from_str("child index out of range")));
        }
        let pos = list.len();
        let ghost list_before = list@;
        let x = HierarchyNode {
            status,
            child_index: node.child_index as usize,
            parent_id: parent_pos,
            bounding_box: node.bounding_box,
            data: node.data,
        };
        proof {
            assert(stack_before.last() == (idx, x.parent_id));
            lemma_dfs_list(list_before, order_before, stack_before, x, idx);
            assert forall|s: int| 0 <= s < stack@.len() && (#[trigger] stack@[s]).1 is Some implies stack@[s].1.unwrap() < pos by {
                assert(stack@[s] == stack_before[s]);
                assert(stack_item_ok(raw, order_before, root_idx, stack_before.len() as int, stack_before[s]));
            }
        }
        list.push(x);
        order.push(idx);
        proof {
            lemma_count_filled_take(slots_before, idx as int);
        }
        let ch = &children[idx];
        proof {
            lemma_children_below(parents@, idx, n as int);
        }
        let ghost stack_mid = stack@;
        let mut k = ch.len();
        while k > 0
            invariant
                k <= ch@.len(),
                ch@ == children_below(parents@, idx, n as int),
                n == raw.len(),
                parents@ == raw_parents(raw),
                idx < n,
                pos + 1 == order@.len(),
                order@[pos as int] == idx,
                stack@.len() >= stack_mid.len(),
                forall|s: int| 0 <= s < stack_mid.len() ==> #[trigger] stack@[s] == stack_mid[s],
                forall|s: int| stack_mid.len() <= s < stack@.len() ==> (#[trigger] stack@[s]).1 == Some(pos)
                    && ch@.contains(stack@[s].0),
                forall|a: int| k <= a < ch@.len() ==> waits(stack@, #[trigger] ch@[a] as int, pos as int),
                dfs_state_ok(list@, order@, stack@),
                forall|s: int| 0 <= s < stack_mid.len() && (#[trigger] stack_mid[s]).1 is Some ==> stack_mid[s].1.unwrap() < pos,
                forall|s: int| stack_mid.len() <= s < stack@.len() ==> exists|a: int| k <= a < ch@.len() && #[trigger] ch@[a] == (#[trigger] stack@[s]).0,
            decreases k,
        {
            k = k - 1;
            let ghost before_push = stack@;
            proof {
                assert forall|j: int| 0 <= j < list@.len() && (#[trigger] list@[j]).parent_id is Some implies list@[j].parent_id.unwrap() < j by {
                }
                assert forall|s: int| 0 <= s < before_push.len() && (#[trigger] before_push[s]).1 is Some implies before_push[s].1.unwrap() < list@.len() by {
                    if s < stack_mid.len() {
                        assert(before_push[s] == stack_mid[s]);
                    }
                }
                assert forall|s: int| 0 <= s < before_push.len() && (#[trigger] before_push[s]).1 == Some((list@.len() - 1) as usize) implies ch@[k as int] < before_push[s].0 by {
                    if s < stack_mid.len() {
                        assert(before_push[s] == stack_mid[s]);
                    } else {
                        let a = choose|a: int| k + 1 <= a < ch@.len() && #[trigger] ch@[a] == before_push[s].0;
                    }
                }
                lemma_dfs_push(list@, order@, before_push, ch@[k as int]);
            }
            stack.push((ch[k], Some(pos)));
            proof {
                let last = stack@.len() - 1;
                assert(stack@[last] == (ch@[k as int], Some(pos)));
                assert forall|a: int| k <= a < ch@.len() implies waits(stack@, #[trigger] ch@[a] as int, pos as int) by {
                    if a == k {
                        assert(stack@[last] == (ch@[a] as int as usize, Some(pos as int as usize)));
                    } else {
                        assert(waits(before_push, ch@[a] as int, pos as int));
                        let s = choose|s: int| 0 <= s < before_push.len() && #[trigger] before_push[s] == (ch@[a] as int as usize, Some(pos as int as usize));
                        assert(stack@[s] == before_push[s]);
                    }
                }
                assert forall|s: int| stack_mid.len() <= s < stack@.len() implies (#[trigger] stack@[s]).1 == Some(pos)
                    && ch@.contains(stack@[s].0) by {
                    if s == last {
                        assert(ch@[k as int] == stack@[s].0);
                    } else {
                        assert(stack@[s] == before_push[s]);
                    }
                }
            }
        }
        proof {
            let order_now = order@;
            assert(order_now == order_before.push(idx));
            assert forall|i: int| 0 <= i < n implies ((#[trigger] slots@[i]) is None <==> order@.contains(i as usize)) by {
                if i != idx as int {
                    assert(slots@[i] == slots_before[i]);
                    assert(order_before.contains(i as usize) ==> order@.contains(i as usize)) by {
                        if order_before.contains(i as usize) {
                            let a = choose|a: int| 0 <= a < order_before.len() && order_before[a] == i as usize;
                            assert(order@[a] == i as usize);
                        }
                    }
                    assert(order@.contains(i as usize) ==> order_before.contains(i as usize)) by {
                        if order@.contains(i as usize) {
                            let a = choose|a: int| 0 <= a < order@.len() && order@[a] == i as usize;
                            assert(a < order_before.len());
                            assert(order_before[a] == i as usize);
                        }
                    }
                } else {
                    assert(order@[pos as int] == idx);
                }
            }
            assert forall|j: int| #![trigger list@[j]] 0 <= j < list@.len() implies {
                let nd = raw[order@[j] as int];
                &&& list@[j].status == status_of(nd.node_type)
                &&& list@[j].child_index == nd.child_index as usize
                &&& list@[j].bounding_box == nd.bounding_box
                &&& list@[j].data == nd.data
                &&& (j == 0 ==> list@[j].parent_id is None)
                &&& (j > 0 ==> (list@[j].parent_id matches Some(q) && q < j && nd.parent == Some(order@[q as int])))
                &&& (j > 0 ==> list@[j].child_index < 8)
            } by {
                if j < pos {
                    assert(order@[j] == order_before[j]);
                    match list@[j].parent_id {
                        Some(q) => {
                            if j > 0 {
                                assert(order@[q as int] == order_before[q as int]);
                            }
                        },
                        None => {},
                    }
                } else {
                    assert(node == raw[idx as int]);
                    match parent_pos {
                        Some(q) => {
                            assert(order@[q as int] == order_before[q as int]);
                        },
                        None => {},
                    }
                }
            }
            assert(order@.no_duplicates()) by {
                assert forall|a: int, b: int| 0 <= a < order@.len() && 0 <= b < order@.len() && a != b implies order@[a]
                    != order@[b] by {
                    if a == pos as int {
                        assert(order_before[b] == order@[b]);
                        assert(order_before.contains(order_before[b]));
                    } else if b == pos as int {
                        assert(order_before[a] == order@[a]);
                        assert(order_before.contains(order_before[a]));
                    } else {
                        assert(order_before[a] == order@[a] && order_before[b] == order@[b]);
                    }
                }
            }
            assert(lists_prefix(raw, list@, order@));
            assert forall|j: int, i: int| 0 <= j < order@.len() && 0 <= i < raw.len() && #[trigger] raw[i].parent == Some(
                #[trigger] order@[j],
            ) implies order@.contains(i as usize) || waits(stack@, i, j) by {
                if j < pos {
                    assert(order@[j] == order_before[j]);
                    if order_before.contains(i as usize) {
                        let a = choose|a: int| 0 <= a < order_before.len() && order_before[a] == i as usize;
                        assert(order@[a] == i as usize);
                    } else {
                        assert(waits(stack_before, i, j));
                        let s = choose|s: int| 0 <= s < stack_before.len() && #[trigger] stack_before[s] == (i as usize, Some(j as usize));
                        if s == stack_before.len() - 1 {
                            assert(order@[pos as int] == i as usize);
                        } else {
                            assert(stack_mid[s] == stack_before[s]);
                            assert(stack@[s] == stack_mid[s]);
                        }
                    }
                } else {
                    assert(parents@[i] == Some(idx));
                    assert(ch@.contains(i as usize));
                    let a = choose|a: int| 0 <= a < ch@.len() && ch@[a] == i as usize;
                    assert(waits(stack@, ch@[a] as int, pos as int));
                }
            }
            assert forall|s: int| 0 <= s < stack@.len() implies #[trigger] stack_item_ok(raw, order@, root_idx, stack@.len() as int, stack@[s]) by {
                if s < stack_mid.len() {
                    assert(stack@[s] == stack_before[s]);
                    assert(stack_item_ok(raw, order_before, root_idx, stack_before.len() as int, stack_before[s]));
                    match stack_before[s].1 {
                        Some(q) => {
                            assert(order@[q as int] == order_before[q as int]);
                        },
                        None => {},
                    }
                } else {
                    let c = stack@[s].0;
                    assert(ch@.contains(c));
                    assert(parents@[c as int] == Some(idx));
                }
            }
        }
    }
    proof {
        assert forall|j: int, i: int| 0 <= j < order@.len() && 0 <= i < raw.len() && #[trigger] raw[i].parent == Some(
            #[trigger] order@[j],
        ) implies order@.contains(i as usize) by {
            assert(!waits(stack@, i, j));
        }
        assert(lists_subtree(raw, list@, order@));
        lemma_dfs_done(list@, order@, stack@);
        assert forall|l: Seq<HierarchyNode<H>>, o: Seq<usize>, i: int| !#[trigger] bad_child_below(raw, l, o, i) by {
            lemma_no_bad_child(raw, l, o, list@, order@, i);
        }
    }
    Ok((list, order))
}

/// `list` (with the listed positions `ord`) is the depth-first listing of the hierarchy
/// below the first node without parent: complete, in depth-first order.
pub open spec fn depth_first_listing<H>(
    raw: Seq<PotreeHierarchyNode<H>>,
    list: Seq<HierarchyNode<H>>,
    ord: Seq<usize>,
) -> bool {
    &&& lists_subtree(raw, list, ord)
    &&& subtrees_contiguous(list)
    &&& siblings_in_order(list, ord)
    &&& ord.len() > 0
    &&& roots_below(raw_parents(raw), raw.len() as int).len() > 0
    &&& ord[0] == roots_below(raw_parents(raw), raw.len() as int)[0]
}

/// In a listing with contiguous subtrees, a node listed between a node `q` and a child of
/// `q` hangs below `q`, so its parent is not listed before `q`.
proof fn lemma_parent_not_before<H>(l: Seq<HierarchyNode<H>>, q: int, k: int, p: int)
    requires
        subtrees_contiguous(l),
        0 <= q < k < p < l.len(),
        q <= usize::MAX,
        l[p].parent_id == Some(q as usize),
    ensures
        l[k].parent_id matches Some(q1) ==> q <= q1,
{
    assert((q as usize) as int == q);
    assert(in_subtree(l, q, q));
    assert(in_subtree(l, q, p));
    assert(in_subtree(l, q, k));
    if let Some(q1) = l[k].parent_id {
        assert(in_subtree(l, q, q1 as int));
    }
}

/// Two depth-first listings of one hierarchy that agree before position `k` agree at `k`.
#[verifier::spinoff_prover]
#[verifier::rlimit(60)]
proof fn lemma_listing_step<H>(
    raw: Seq<PotreeHierarchyNode<H>>,
    l1: Seq<HierarchyNode<H>>,
    o1: Seq<usize>,
    l2: Seq<HierarchyNode<H>>,
    o2: Seq<usize>,
    k: int,
)
    requires
        depth_first_listing(raw, l1, o1),
        depth_first_listing(raw, l2, o2),
        raw.len() <= usize::MAX,
        0 <= k < o1.len(),
        k < o2.len(),
        forall|i: int| 0 <= i < k ==> o1[i] == o2[i],
    ensures
        o1[k] == o2[k],
{
    let x = o1[k];
    let y = o2[k];
    if k > 0 && x != y {
        assert(l1[k] == l1[k] && l2[k] == l2[k]);
        let q1 = l1[k].parent_id.unwrap() as int;
        let q2 = l2[k].parent_id.unwrap() as int;
        // y is listed later in the first listing, under position q2, and x later in the
        // second one, under position q1
        lemma_prefix_within_subtree(raw, l2, o2, l1, o1, k);
        let p = choose|p: int| 0 <= p < o1.len() && o1[p] == y;
        lemma_prefix_within_subtree(raw, l1, o1, l2, o2, k);
        let p2 = choose|p2: int| 0 <= p2 < o2.len() && o2[p2] == x;
        if p < k {
            assert(o2[p] == y);
        }
        if p2 < k {
            assert(o1[p2] == x);
        }
        assert(l1[p] == l1[p] && l2[p2] == l2[p2]);
        let qp = l1[p].parent_id.unwrap() as int;
        assert(o1[qp] == o2[q2]);
        assert(o1[q2] == o2[q2]);
        assert(qp == q2);
        let qp2 = l2[p2].parent_id.unwrap() as int;
        assert(o2[qp2] == o1[q1]);
        assert(o2[q1] == o1[q1]);
        assert(qp2 == q1);
        if q1 == q2 {
            assert(o1[k] < o1[p]);
            assert(o2[k] < o2[p2]);
        } else if q1 < q2 {
            lemma_parent_not_before(l1, q2, k, p);
        } else {
            lemma_parent_not_before(l2, q1, k, p2);
        }
    }
}

/// Two depth-first listings of one hierarchy agree up to position `j`.
proof fn lemma_listing_prefix_unique<H>(
    raw: Seq<PotreeHierarchyNode<H>>,
    l1: Seq<HierarchyNode<H>>,
    o1: Seq<usize>,
    l2: Seq<HierarchyNode<H>>,
    o2: Seq<usize>,
    j: int,
)
    requires
        depth_first_listing(raw, l1, o1),
        depth_first_listing(raw, l2, o2),
        raw.len() <= usize::MAX,
        0 <= j <= o1.len(),
        j <= o2.len(),
    ensures
        forall|i: int| 0 <= i < j ==> o1[i] == o2[i],
    decreases j,
{
    if j > 0 {
        lemma_listing_prefix_unique(raw, l1, o1, l2, o2, j - 1);
        lemma_listing_step(raw, l1, o1, l2, o2, j - 1);
    }
}

/// A hierarchy has one depth-first listing: the listing and the listed positions are
/// determined by the hierarchy.
pub proof fn law_depth_first_listing_unique<H>(
    raw: Seq<PotreeHierarchyNode<H>>,
    l1: Seq<HierarchyNode<H>>,
    o1: Seq<usize>,
    l2: Seq<HierarchyNode<H>>,
    o2: Seq<usize>,
)
    requires
        depth_first_listing(raw, l1, o1),
        depth_first_listing(raw, l2, o2),
        raw.len() <= usize::MAX,
    ensures
        o1 == o2,
        l1 == l2,
{
    let m = if o1.len() <= o2.len() { o1.len() as int } else { o2.len() as int };
    lemma_listing_prefix_unique(raw, l1, o1, l2, o2, m);
    if o1.len() > o2.len() {
        lemma_prefix_within_subtree(raw, l1, o1, l2, o2, m);
        let k = choose|k: int| 0 <= k < o2.len() && o2[k] == o1[m];
        assert(o1[k] == o2[k]);
    } else if o2.len() > o1.len() {
        lemma_prefix_within_subtree(raw, l2, o2, l1, o1, m);
        let k = choose|k: int| 0 <= k < o1.len() && o1[k] == o2[m];
        assert(o1[k] == o2[k]);
    }
    assert(o1 =~= o2);
    assert forall|j: int| 0 <= j < l1.len() implies l1[j] == l2[j] by {
        assert(l1[j] == l1[j] && l2[j] == l2[j]);
        if j > 0 {
            let q1 = l1[j].parent_id.unwrap() as int;
            let q2 = l2[j].parent_id.unwrap() as int;
            assert(o1[q1] == o1[q2]);
        }
    }
    assert(l1 =~= l2);
}

/// Builds the octree of the hierarchy below the first node without parent (see
/// `build_hierarchy`), with the handle of each of its nodes, in the listed order.
///
/// Fails as `build_hierarchy` does, or with the octree's error when two listed siblings
/// share a child index.
pub fn load_initial_hierarchy<H: HierarchyNodeData, T: NodeData>(raw_nodes: Vec<PotreeHierarchyNode<H>>) -> (r: Result<
    (NewOctree<H, T>, Vec<NodeId>),
    PotreeLoaderError,
>)
    requires
        raw_nodes@.len() <= u32::MAX,
    ensures
        match r {
            Ok((octree, ids)) => {
                &&& octree.wf()
                &&& exists|list: Seq<HierarchyNode<H>>, ord: Seq<usize>| {
                    &&& #[trigger] depth_first_listing(raw_nodes@, list, ord)
                    &&& flat_prefix_ok(list, list.len() as int)
                    &&& octree.holds_flat_prefix(list, ids@, list.len() as int)
                }
            },
            Err(PotreeLoaderError::Octree(oe)) => exists|list: Seq<HierarchyNode<H>>, ord: Seq<usize>, i: int|
                #![trigger depth_first_listing(raw_nodes@, list, ord), flat_node_error(list, i)]
                {
                &&& depth_first_listing(raw_nodes@, list, ord)
                &&& 0 <= i < list.len()
                &&& flat_prefix_ok(list, i)
                &&& flat_node_error(list, i) == Some(oe)
            },
            Err(e) => e is InvalidHierarchy,
        },
        (r matches Err(PotreeLoaderError::InvalidHierarchy(_))) <==> (roots_below(
            raw_parents(raw_nodes@),
            raw_nodes@.len() as int,
        ).len() == 0 || exists|list: Seq<HierarchyNode<H>>, ord: Seq<usize>, i: int| #[trigger] bad_child_below(
            raw_nodes@,
            list,
            ord,
            i,
        )),
{
    let ghost raw = raw_nodes@;
    let (list, ord) = match build_hierarchy(raw_nodes) {
        Ok(built) => built,
        Err(e) => {
            return Err(e);
        },
    };
    proof {
        law_built_list_is_flat(raw, list@, ord@);
        assert(depth_first_listing(raw, list@, ord@));
    }
    match NewOctree::<H, T>::from_flat_hierarchy(list) {
        Ok((octree, ids)) => {
            Ok((octree, ids))
        },
        Err(e) => Err(PotreeLoaderError::Octree(e)),
    }
}

/// A built hierarchy list is a flat hierarchy: its first node has no parent, and every
/// other node names an earlier position as its parent.
pub proof fn law_built_list_is_flat<H>(raw: Seq<PotreeHierarchyNode<H>>, list: Seq<HierarchyNode<H>>, ord: Seq<usize>)
    requires
        lists_prefix(raw, list, ord),
    ensures
        parents_precede(list),
        list.len() > 0 ==> list[0].parent_id is None,
        forall|j: int| 0 < j < list.len() ==> (#[trigger] list[j]).parent_id is Some,
{
    assert forall|i: int| 0 <= i < list.len() implies match #[trigger] list[i].parent_id {
        Some(p) => p < i,
        None => true,
    } by {
        assert(list[i] == list[i]);
    }
}

} // verus!
