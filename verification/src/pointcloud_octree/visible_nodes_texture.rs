//! The texture of visible nodes read by the shaders: one row per octree, one texel per
//! visible node; and the uniform buffers that tell a draw call which node it draws.
use crate::octree::storage::{node_key, NodeId};
use crate::octree::visibility::{RenderOctreeIndex, VisibleOctreeNode};
use std::collections::HashMap;
use vstd::prelude::*;

verus! {

broadcast use vstd::std_specs::hash::group_hash_axioms;

/// The most visible nodes of one octree the texture holds.
pub const MAX_NODES_PER_OCTREE: usize = 2048;
/// The most octrees the texture holds.
pub const MAX_OCTREES: usize = 64;
/// The number of texels of the texture.
pub const REQUIRED_BUFFER_SIZE: usize = MAX_NODES_PER_OCTREE * MAX_OCTREES;
/// The size in bytes of one node mapping uniform buffer.
pub const BUFFER_SIZE: usize = 65536;
/// The number of node mappings of one octree.
pub const MAX_NODES: usize = 2048;

/// One texel of the visible nodes texture.
#[derive(Clone, Copy, Debug)]
pub struct VisibleOctreeNodeUniform {
    /// The children mask.
    pub children_mask: u8,
    pub _padding: u8,
    /// The position of the first visible child (truncated to 16 bits).
    pub first_child_index: u16,
}

/// The texel of a visible node.
pub open spec fn uniform_of(n: VisibleOctreeNode) -> VisibleOctreeNodeUniform {
    VisibleOctreeNodeUniform {
        children_mask: n.children_mask,
        _padding: 0,
        first_child_index: (n.first_child_index % 0x1_0000) as u16,
    }
}

impl VisibleOctreeNodeUniform {
    /// The empty texel.
    pub fn zero() -> (r: Self)
        ensures
            r.children_mask == 0,
            r._padding == 0,
            r.first_child_index == 0,
    {
        VisibleOctreeNodeUniform { children_mask: 0, _padding: 0, first_child_index: 0 }
    }

    /// The texel of a visible node.
    pub fn from_visible_node(n: &VisibleOctreeNode) -> (r: Self)
        ensures
            r == uniform_of(*n),
    {
        let first: u16 = (n.first_child_index % 0x1_0000) as u16;
        VisibleOctreeNodeUniform { children_mask: n.children_mask, _padding: 0, first_child_index: first }
    }
}

/// Grows `buffer` with empty texels to the size of the texture, if it is smaller.
pub fn ensure_buffer_size(buffer: &mut Vec<VisibleOctreeNodeUniform>)
    ensures
        final(buffer)@.len() == if old(buffer)@.len() < REQUIRED_BUFFER_SIZE {
            REQUIRED_BUFFER_SIZE as nat
        } else {
            old(buffer)@.len()
        },
        forall|p: int| 0 <= p < old(buffer)@.len() ==> #[trigger] final(buffer)@[p] == old(buffer)@[p],
        forall|p: int| old(buffer)@.len() <= p < final(buffer)@.len() ==> #[trigger] final(buffer)@[p]
            == VisibleOctreeNodeUniform::zero_spec(),
{
    let ghost before = buffer@;
    while buffer.len() < REQUIRED_BUFFER_SIZE
        invariant
            before.len() <= buffer@.len(),
            before.len() < REQUIRED_BUFFER_SIZE ==> buffer@.len() <= REQUIRED_BUFFER_SIZE,
            before.len() >= REQUIRED_BUFFER_SIZE ==> buffer@.len() == before.len(),
            forall|p: int| 0 <= p < before.len() ==> #[trigger] buffer@[p] == before[p],
            forall|p: int| before.len() <= p < buffer@.len() ==> #[trigger] buffer@[p] == VisibleOctreeNodeUniform::zero_spec(),
        decreases REQUIRED_BUFFER_SIZE - buffer@.len(),
    {
        buffer.push(VisibleOctreeNodeUniform::zero());
    }
}

impl VisibleOctreeNodeUniform {
    /// The empty texel.
    pub open spec fn zero_spec() -> Self {
        VisibleOctreeNodeUniform { children_mask: 0, _padding: 0, first_child_index: 0 }
    }
}

/// The number of octrees of `octrees`, in order, written to the texture: those before the
/// first whose index is out of the texture.
pub open spec fn written_octrees<C>(index: RenderOctreeIndex<C>, octrees: Seq<(u64, Vec<VisibleOctreeNode>)>, k: int) -> int
    decreases k,
{
    if k <= 0 {
        0
    } else if written_octrees(index, octrees, k - 1) < k - 1 {
        written_octrees(index, octrees, k - 1)
    } else if index.indices()[octrees[k - 1].0] >= MAX_OCTREES {
        k - 1
    } else {
        k
    }
}

/// The texture row of the `k`-th octree.
pub open spec fn row_of<C>(index: RenderOctreeIndex<C>, octrees: Seq<(u64, Vec<VisibleOctreeNode>)>, k: int) -> int {
    index.indices()[octrees[k].0] as int
}

/// The number of visible nodes of the `k`-th octree written to the texture.
pub open spec fn written_nodes(octrees: Seq<(u64, Vec<VisibleOctreeNode>)>, k: int) -> int {
    if octrees[k].1@.len() < MAX_NODES_PER_OCTREE {
        octrees[k].1@.len() as int
    } else {
        MAX_NODES_PER_OCTREE as int
    }
}

/// At most `k` octrees are written, and more octrees never mean fewer written.
pub proof fn lemma_written_monotone<C>(index: RenderOctreeIndex<C>, octrees: Seq<(u64, Vec<VisibleOctreeNode>)>, m: int, n: int)
    requires
        0 <= m <= n,
    ensures
        written_octrees(index, octrees, m) <= written_octrees(index, octrees, n) <= n,
        written_octrees(index, octrees, m) <= m,
    decreases n - m,
{
    if m < n {
        lemma_written_monotone(index, octrees, m, n - 1);
    } else {
        lemma_written_bounded(index, octrees, n);
    }
}

/// At most `k` of the first `k` octrees are written.
pub proof fn lemma_written_bounded<C>(index: RenderOctreeIndex<C>, octrees: Seq<(u64, Vec<VisibleOctreeNode>)>, k: int)
    ensures
        k >= 0 ==> 0 <= written_octrees(index, octrees, k) <= k,
    decreases k,
{
    if k > 0 {
        lemma_written_bounded(index, octrees, k - 1);
    }
}

/// Once an octree is not written, none after it is.
pub proof fn lemma_written_stops<C>(index: RenderOctreeIndex<C>, octrees: Seq<(u64, Vec<VisibleOctreeNode>)>, k: int, n: int)
    requires
        0 <= k < n,
        written_octrees(index, octrees, k) == k,
        index.indices()[octrees[k].0] >= MAX_OCTREES,
    ensures
        written_octrees(index, octrees, n) == k,
    decreases n - k,
{
    if n > k + 1 {
        lemma_written_stops(index, octrees, k, n - 1);
    }
}

/// An octree whose row is in the texture is written when all before it are.
pub proof fn lemma_written_goes_on<C>(index: RenderOctreeIndex<C>, octrees: Seq<(u64, Vec<VisibleOctreeNode>)>, k: int)
    requires
        0 <= k,
        written_octrees(index, octrees, k) == k,
        index.indices()[octrees[k].0] < MAX_OCTREES,
    ensures
        written_octrees(index, octrees, k + 1) == k + 1,
{
}

/// `s` with the texels of `nodes[..m]` written from position `base` on.
pub open spec fn write_row(s: Seq<VisibleOctreeNodeUniform>, base: int, nodes: Seq<VisibleOctreeNode>, m: int) -> Seq<
    VisibleOctreeNodeUniform,
> {
    Seq::new(s.len(), |p: int| if base <= p < base + m { uniform_of(nodes[p - base]) } else { s[p] })
}

/// The texture after writing the first `k` octrees of `octrees` over `s`.
pub open spec fn texels_after<C>(
    s: Seq<VisibleOctreeNodeUniform>,
    index: RenderOctreeIndex<C>,
    octrees: Seq<(u64, Vec<VisibleOctreeNode>)>,
    k: int,
) -> Seq<VisibleOctreeNodeUniform>
    decreases k,
{
    if k <= 0 {
        s
    } else {
        write_row(
            texels_after(s, index, octrees, k - 1),
            row_of(index, octrees, k - 1) * MAX_NODES_PER_OCTREE,
            octrees[k - 1].1@,
            written_nodes(octrees, k - 1),
        )
    }
}

/// Writing rows keeps the length of the texture.
pub proof fn lemma_texels_len<C>(
    s: Seq<VisibleOctreeNodeUniform>,
    index: RenderOctreeIndex<C>,
    octrees: Seq<(u64, Vec<VisibleOctreeNode>)>,
    k: int,
)
    ensures
        texels_after(s, index, octrees, k).len() == s.len(),
    decreases k,
{
    if k > 0 {
        lemma_texels_len(s, index, octrees, k - 1);
    }
}

/// There is one node mapping per row.
pub proof fn lemma_mappings_len<C>(rows: nat, index: RenderOctreeIndex<C>, octrees: Seq<(u64, Vec<VisibleOctreeNode>)>, k: int)
    ensures
        mappings_after(rows, index, octrees, k).len() == rows,
    decreases k,
{
    if k > 0 {
        lemma_mappings_len(rows, index, octrees, k - 1);
    }
}

/// `m` with each of the first `n` nodes mapped, in order, from its key to its position.
pub open spec fn map_nodes(m: Map<u128, u32>, nodes: Seq<VisibleOctreeNode>, n: int) -> Map<u128, u32>
    decreases n,
{
    if n <= 0 {
        m
    } else {
        map_nodes(m, nodes, n - 1).insert(node_key(nodes[n - 1].id), (n - 1) as u32)
    }
}

/// The node positions of each texture row after the first `k` octrees of `octrees`,
/// starting from `rows` empty maps.
pub open spec fn mappings_after<C>(
    rows: nat,
    index: RenderOctreeIndex<C>,
    octrees: Seq<(u64, Vec<VisibleOctreeNode>)>,
    k: int,
) -> Seq<Map<u128, u32>>
    decreases k,
{
    if k <= 0 {
        Seq::new(rows, |r: int| Map::<u128, u32>::empty())
    } else {
        let prev = mappings_after(rows, index, octrees, k - 1);
        let r = row_of(index, octrees, k - 1);
        if 0 <= r < prev.len() {
            prev.update(r, map_nodes(prev[r], octrees[k - 1].1@, written_nodes(octrees, k - 1)))
        } else {
            prev
        }
    }
}

/// Writes the visible nodes of each octree to its row of the texture buffer, the `i`-th
/// visible node at column `i`, and returns for each row the column of each written node
/// by its key. Rows past the texture stop the writing; nodes past a row are left out.
pub fn fill_visible_nodes<C>(
    buffer: &mut Vec<VisibleOctreeNodeUniform>,
    index: &RenderOctreeIndex<C>,
    octrees: &Vec<(u64, Vec<VisibleOctreeNode>)>,
) -> (r: Vec<HashMap<u128, u32>>)
    requires
        old(buffer)@.len() >= REQUIRED_BUFFER_SIZE,
        forall|k: int|
            0 <= k < octrees@.len() && #[trigger] written_octrees(*index, octrees@, k) == k ==> index.indices().contains_key(
                octrees@[k].0,
            ),
        forall|k: int| 0 <= k < written_octrees(*index, octrees@, octrees@.len() as int) ==> #[trigger] row_of(*index, octrees@, k)
            < index.entities().len(),
    ensures
        final(buffer)@ == texels_after(old(buffer)@, *index, octrees@, written_octrees(*index, octrees@, octrees@.len() as int)),
        r@.len() == index.entities().len(),
        forall|j: int| 0 <= j < r@.len() ==> (#[trigger] r@[j])@ == mappings_after(
            index.entities().len(),
            *index,
            octrees@,
            written_octrees(*index, octrees@, octrees@.len() as int),
        )[j],
{
    let rows = index.len();
    let mut node_index: Vec<HashMap<u128, u32>> = Vec::new();
    let mut j: usize = 0;
    while j < rows
        invariant
            j <= rows,
            node_index@.len() == j,
            forall|q: int| 0 <= q < j ==> (#[trigger] node_index@[q])@ == Map::<u128, u32>::empty(),
        decreases rows - j,
    {
        node_index.push(HashMap::new());
        j = j + 1;
    }
    let ghost old_buffer = buffer@;
    let ghost total = written_octrees(*index, octrees@, octrees@.len() as int);
    let mut k: usize = 0;
    while k < octrees.len()
        invariant
            k <= octrees@.len(),
            written_octrees(*index, octrees@, k as int) == k,
            total == written_octrees(*index, octrees@, octrees@.len() as int),
            buffer@ == texels_after(old_buffer, *index, octrees@, k as int),
            old_buffer.len() >= REQUIRED_BUFFER_SIZE,
            rows == index.entities().len(),
            node_index@.len() == rows,
            forall|q: int| 0 <= q < rows ==> (#[trigger] node_index@[q])@ == mappings_after(rows as nat, *index, octrees@, k as int)[q],
            forall|q: int|
                0 <= q < octrees@.len() && #[trigger] written_octrees(*index, octrees@, q) == q ==> index.indices().contains_key(
                    octrees@[q].0,
                ),
            forall|q: int| 0 <= q < total ==> #[trigger] row_of(*index, octrees@, q) < index.entities().len(),
        ensures
            k == total,
            buffer@ == texels_after(old_buffer, *index, octrees@, k as int),
            forall|q: int| 0 <= q < rows ==> (#[trigger] node_index@[q])@ == mappings_after(rows as nat, *index, octrees@, k as int)[q],
        decreases octrees@.len() - k,
    {
        let entry = &octrees[k];
        let octree_index = match index.get_octree_index(entry.0) {
            Some(i) => i,
            None => {
                proof {
                    assert(index.indices().contains_key(octrees@[k as int].0));
                }
                0
            },
        };
        if octree_index >= MAX_OCTREES {
            proof {
                lemma_written_stops(*index, octrees@, k as int, octrees@.len() as int);
            }
            break;
        }
        proof {
            lemma_written_goes_on(*index, octrees@, k as int);
            lemma_written_monotone(*index, octrees@, k + 1, octrees@.len() as int);
            assert(k < total);
            assert(row_of(*index, octrees@, k as int) < index.entities().len());
            lemma_texels_len(old_buffer, *index, octrees@, k as int);
        }
        let base = octree_index * MAX_NODES_PER_OCTREE;
        let nodes = &entry.1;
        let ghost row_before = buffer@;
        let ghost map_before = node_index@[octree_index as int]@;
        let ghost index_before = node_index@;
        let mut i: usize = 0;
        while i < nodes.len() && i < MAX_NODES_PER_OCTREE
            invariant
                i <= nodes@.len(),
                i <= MAX_NODES_PER_OCTREE,
                base == octree_index * MAX_NODES_PER_OCTREE,
                octree_index < MAX_OCTREES,
                octree_index < rows,
                node_index@.len() == rows,
                buffer@ == write_row(row_before, base as int, nodes@, i as int),
                row_before.len() >= REQUIRED_BUFFER_SIZE,
                node_index@[octree_index as int]@ == map_nodes(map_before, nodes@, i as int),
                forall|q: int| 0 <= q < rows && q != octree_index ==> #[trigger] node_index@[q] == index_before[q],
            decreases nodes@.len() - i,
        {
            let texel = VisibleOctreeNodeUniform::from_visible_node(&nodes[i]);
            buffer.set(base + i, texel);
            let key = nodes[i].id.key();
            node_index[octree_index].insert(key, i as u32);
            proof {
                assert(buffer@ =~= write_row(row_before, base as int, nodes@, i + 1));
            }
            i = i + 1;
        }
        proof {
            let cap = written_nodes(octrees@, k as int);
            assert(i == cap);
            assert(row_of(*index, octrees@, k as int) == octree_index);
            assert(buffer@ == texels_after(old_buffer, *index, octrees@, k + 1));
            let prev = mappings_after(rows as nat, *index, octrees@, k as int);
            lemma_mappings_len(rows as nat, *index, octrees@, k as int);
            assert(map_before == prev[octree_index as int]);
            assert forall|q: int| 0 <= q < rows implies (#[trigger] node_index@[q])@ == mappings_after(rows as nat, *index, octrees@, k + 1)[q] by {
                if q != octree_index {
                    assert(node_index@[q] == index_before[q]);
                } else {
                    assert(node_index@[q]@ == map_nodes(map_before, octrees@[k as int].1@, cap));
                }
            }
        }
        k = k + 1;
    }
    node_index
}

/// The four bytes of `x`, least significant first.
pub open spec fn le_bytes(x: u32) -> Seq<u8> {
    seq![(x % 0x100) as u8, ((x / 0x100) % 0x100) as u8, ((x / 0x1_0000) % 0x100) as u8, (x / 0x100_0000) as u8]
}

/// The four bytes of `x`, most significant first.
pub open spec fn be_bytes(x: u32) -> Seq<u8> {
    seq![(x / 0x100_0000) as u8, ((x / 0x1_0000) % 0x100) as u8, ((x / 0x100) % 0x100) as u8, (x % 0x100) as u8]
}

/// `bytemuck::cast_slice` from the pair `[a, b]` of `u32` to bytes: the memory
/// representation of the pair, each value in the machine's byte order. The contract says
/// that both values are laid out least significant byte first, or both most significant
/// byte first; which one is left unsaid, as it depends on the machine.
#[verifier::external_body]
fn pair_bytes(a: u32, b: u32) -> (r: Vec<u8>)
    ensures
        r@ == le_bytes(a) + le_bytes(b) || r@ == be_bytes(a) + be_bytes(b),
{
    let data: [u32; 2] = [a, b];
    bytemuck::cast_slice::<u32, u8>(&data).to_vec()
}

/// The mapping uniform of node `n` of octree `octree_index` sits at `base` of `r`: the
/// two indices as `u32` in the machine's byte order, then zeros up to `alignment` bytes.
pub open spec fn holds_mapping(r: Seq<u8>, base: int, octree_index: u32, n: u32, alignment: int) -> bool {
    &&& (r.subrange(base, base + 8) == le_bytes(octree_index) + le_bytes(n) || r.subrange(base, base + 8) == be_bytes(
        octree_index,
    ) + be_bytes(n))
    &&& forall|j: int| 8 <= j < alignment ==> #[trigger] r[base + j] == 0
}

/// The bytes of the node mapping uniforms of octree `octree_index`: one entry of
/// `alignment` bytes per node, for each of the `MAX_NODES` nodes in turn.
pub fn mapping_buffer_data(octree_index: usize, alignment: usize) -> (r: Vec<u8>)
    requires
        8 <= alignment <= BUFFER_SIZE,
    ensures
        r@.len() == MAX_NODES * alignment,
        forall|n: int| 0 <= n < MAX_NODES ==> holds_mapping(r@, #[trigger] (n * alignment), octree_index as u32, n as u32, alignment as int),
{
    let index: u32 = #[verifier::truncate] (octree_index as u32);
    let mut buffer_data: Vec<u8> = Vec::new();
    let mut node_idx: usize = 0;
    while node_idx < MAX_NODES
        invariant
            8 <= alignment <= BUFFER_SIZE,
            node_idx <= MAX_NODES,
            index == octree_index as u32,
            buffer_data@.len() == node_idx * alignment,
            forall|n: int| 0 <= n < node_idx ==> holds_mapping(buffer_data@, #[trigger] (n * alignment), index, n as u32, alignment as int),
        decreases MAX_NODES - node_idx,
    {
        let ghost before = buffer_data@;
        proof {
            assert(node_idx * alignment + alignment <= MAX_NODES * BUFFER_SIZE) by (nonlinear_arith)
                requires
                    node_idx < MAX_NODES,
                    alignment <= BUFFER_SIZE,
            ;
        }
        let bytes = pair_bytes(index, node_idx as u32);
        let mut b: usize = 0;
        while b < 8
            invariant
                b <= 8,
                bytes@.len() == 8,
                buffer_data@ == before + bytes@.take(b as int),
            decreases 8 - b,
        {
            buffer_data.push(bytes[b]);
            proof {
                assert(bytes@.take(b + 1) == bytes@.take(b as int).push(bytes@[b as int]));
            }
            b = b + 1;
        }
        let mut pad: usize = 8;
        while pad < alignment
            invariant
                8 <= pad <= alignment,
                buffer_data@.len() == before.len() + pad,
                buffer_data@.subrange(0, before.len() as int + 8) == before + bytes@,
                forall|j: int| 8 <= j < pad ==> #[trigger] buffer_data@[before.len() + j] == 0,
            decreases alignment - pad,
        {
            let ghost prev = buffer_data@;
            buffer_data.push(0u8);
            proof {
                assert(buffer_data@.subrange(0, before.len() as int + 8) =~= prev.subrange(0, before.len() as int + 8));
            }
            pad = pad + 1;
        }
        proof {
            assert(bytes@.take(8) == bytes@);
            let base = node_idx * alignment;
            assert(base == before.len());
            let pre = buffer_data@.subrange(0, before.len() as int + 8);
            assert(pre == before + bytes@);
            assert forall|x: int| 0 <= x < before.len() implies #[trigger] buffer_data@[x] == before[x] by {
                assert(pre[x] == buffer_data@[x]);
            }
            let here = buffer_data@.subrange(base as int, base + 8);
            assert forall|j: int| 0 <= j < 8 implies #[trigger] here[j] == bytes@[j] by {
                assert(here[j] == buffer_data@[base + j]);
                assert(pre[base + j] == buffer_data@[base + j]);
                assert((before + bytes@)[base + j] == bytes@[j]);
            }
            assert(here =~= bytes@);
            assert forall|n: int| 0 <= n <= node_idx implies holds_mapping(buffer_data@, #[trigger] (n * alignment), index, n as u32, alignment as int) by {
                if n < node_idx {
                    assert(n * alignment + alignment <= node_idx * alignment) by (nonlinear_arith)
                        requires
                            n < node_idx,
                            0 <= n,
                    ;
                    assert(holds_mapping(before, n * alignment, index, n as u32, alignment as int));
                    assert(buffer_data@.subrange(n * alignment, n * alignment + 8) =~= before.subrange(n * alignment, n * alignment + 8)) by {
                        let nb = n * alignment;
                        assert forall|x: int| nb <= x < nb + 8 implies #[trigger] buffer_data@[x] == before[x] by {
                            assert(buffer_data@[x] == before[x]);
                        }
                    }
                    assert forall|j: int| 8 <= j < alignment implies #[trigger] buffer_data@[n * alignment + j] == 0 by {
                        assert(buffer_data@[n * alignment + j] == before[n * alignment + j]);
                    }
                }
            }
            assert((node_idx + 1) * alignment == node_idx * alignment + alignment) by (nonlinear_arith);
        }
        node_idx = node_idx + 1;
    }
    buffer_data
}

/// How the node mapping uniforms are split over buffers, for a device's minimal uniform
/// buffer offset alignment.
#[derive(Clone, Copy, Debug)]
pub struct NodesMappingLayout {
    pub min_uniform_buffer_offset_alignment: usize,
    pub max_nodes_per_buffer: usize,
    pub nb_buffers: usize,
}

impl NodesMappingLayout {
    /// The layout for a device whose minimal uniform buffer offset alignment is
    /// `alignment`: as many node entries per buffer as fit, and as many buffers as the
    /// node count divides into.
    pub fn from_alignment(alignment: usize) -> (r: Self)
        requires
            0 < alignment <= BUFFER_SIZE,
        ensures
            r.min_uniform_buffer_offset_alignment == alignment,
            r.max_nodes_per_buffer == BUFFER_SIZE / alignment,
            r.nb_buffers == MAX_NODES / (BUFFER_SIZE / alignment),
    {
        let max_nodes_per_buffer = BUFFER_SIZE / alignment;
        proof {
            assert(max_nodes_per_buffer >= 1) by (nonlinear_arith)
                requires
                    0 < alignment <= BUFFER_SIZE,
                    max_nodes_per_buffer == BUFFER_SIZE / alignment,
            ;
        }
        let nb_buffers = MAX_NODES / max_nodes_per_buffer;
        NodesMappingLayout { min_uniform_buffer_offset_alignment: alignment, max_nodes_per_buffer, nb_buffers }
    }

    /// The layout is one `from_alignment` gives.
    pub open spec fn wf(&self) -> bool {
        &&& 0 < self.min_uniform_buffer_offset_alignment <= BUFFER_SIZE
        &&& self.max_nodes_per_buffer == BUFFER_SIZE / self.min_uniform_buffer_offset_alignment
        &&& self.nb_buffers == MAX_NODES / self.max_nodes_per_buffer
    }

    /// The buffer that holds the mapping of the node at column `node_index`, and the
    /// dynamic offset of that mapping in the buffer.
    pub fn node_mapping_offset(&self, node_index: u32) -> (r: (usize, u32))
        requires
            self.wf(),
        ensures
            r.0 == node_index as int / self.max_nodes_per_buffer as int,
            r.1 == (node_index as int % self.max_nodes_per_buffer as int) * self.min_uniform_buffer_offset_alignment,
    {
        let a = self.min_uniform_buffer_offset_alignment;
        let m = self.max_nodes_per_buffer;
        proof {
            assert(m >= 1 && m * a <= BUFFER_SIZE) by (nonlinear_arith)
                requires
                    0 < a <= BUFFER_SIZE,
                    m == BUFFER_SIZE / a,
            ;
        }
        let buffer_index = node_index as usize / m;
        let remapped_node_index = node_index % (m as u32);
        proof {
            assert(remapped_node_index * a < BUFFER_SIZE) by (nonlinear_arith)
                requires
                    remapped_node_index < m,
                    m * a <= BUFFER_SIZE,
                    0 < a,
            ;
        }
        (buffer_index, remapped_node_index * (a as u32))
    }
}

/// When the alignment divides the buffer size, the buffer and offset that
/// `node_mapping_offset` gives address the node's own entry in the mapping bytes of the
/// octree: buffer `i` holds bytes `i * BUFFER_SIZE` on.
pub proof fn lemma_mapping_offset_addresses_node(layout: NodesMappingLayout, node_index: u32)
    requires
        layout.wf(),
        BUFFER_SIZE % layout.min_uniform_buffer_offset_alignment == 0,
    ensures
        (node_index as int / layout.max_nodes_per_buffer as int) * BUFFER_SIZE + (node_index as int
            % layout.max_nodes_per_buffer as int) * layout.min_uniform_buffer_offset_alignment == node_index
            * layout.min_uniform_buffer_offset_alignment,
{
    let a = layout.min_uniform_buffer_offset_alignment as int;
    let m = layout.max_nodes_per_buffer as int;
    let x = node_index as int;
    assert(m * a == BUFFER_SIZE) by (nonlinear_arith)
        requires
            0 < a,
            m == BUFFER_SIZE as int / a,
            BUFFER_SIZE as int % a == 0,
    ;
    assert((x / m) * BUFFER_SIZE + (x % m) * a == x * a) by (nonlinear_arith)
        requires
            m * a == BUFFER_SIZE,
            m > 0,
            x >= 0,
    ;
}

} // verus!
