//! The vertex buffers of a chunk of Potree points: which points are kept, and the
//! position, color and normal each kept point contributes.
//!
//! Coordinates are `f32` values carried as their bit patterns.
use crate::loader::potree::{keeps_class, FilterClassification};
use crate::platform_specs::class_set;
use vstd::prelude::*;

verus! {

/// The bit pattern of `1.0f32`: the alpha of every color.
pub const ALPHA_ONE: u32 = 0x3f80_0000;

/// Which attributes the point buffer of a chunk declares.
#[derive(Clone, Copy, Debug)]
pub struct ChunkLayout {
    pub position: bool,
    pub color: bool,
    pub normal: bool,
    pub normal_x: bool,
    pub normal_y: bool,
    pub normal_z: bool,
    pub classification: bool,
}

/// One point of a chunk, with the attribute values it holds.
#[derive(Clone, Copy, Debug)]
pub struct ChunkPoint {
    pub position: Option<[u32; 3]>,
    pub color: Option<[u32; 3]>,
    pub normal: Option<[u32; 3]>,
    pub normal_x: Option<u32>,
    pub normal_y: Option<u32>,
    pub normal_z: Option<u32>,
    pub classification: Option<u8>,
}

/// The vertex buffers of a chunk: one entry per kept point, in the order of the points.
pub struct ChunkVertices {
    pub positions: Vec<[u32; 3]>,
    /// Present when the layout has colors.
    pub colors: Option<Vec<[u32; 4]>>,
    /// Present when the layout has normals, whole or by component.
    pub normals: Option<Vec<[u32; 3]>>,
}

/// Whether point `p` is kept: when the layout has classifications, the point must hold
/// one that the filter keeps.
pub open spec fn kept(filter: FilterClassification, layout: ChunkLayout, p: ChunkPoint) -> bool {
    !layout.classification || (p.classification matches Some(c) && keeps_class(filter, c))
}

/// The kept points of `s`, in order.
pub open spec fn kept_points(filter: FilterClassification, layout: ChunkLayout, s: Seq<ChunkPoint>) -> Seq<ChunkPoint>
    decreases s.len(),
{
    if s.len() == 0 {
        Seq::empty()
    } else {
        let prev = kept_points(filter, layout, s.drop_last());
        if kept(filter, layout, s.last()) {
            prev.push(s.last())
        } else {
            prev
        }
    }
}

/// The position of a point: its own, or the origin when it has none.
pub open spec fn position_of(layout: ChunkLayout, p: ChunkPoint) -> [u32; 3] {
    if layout.position && p.position is Some {
        p.position->Some_0
    } else {
        [0u32, 0u32, 0u32]
    }
}

/// The color of a point, opaque: its own, or black when it has none.
pub open spec fn color_of(layout: ChunkLayout, p: ChunkPoint) -> [u32; 4] {
    if layout.color && p.color is Some {
        let c = p.color->Some_0;
        [c[0], c[1], c[2], ALPHA_ONE]
    } else {
        [0u32, 0u32, 0u32, ALPHA_ONE]
    }
}

/// The normal of a point: its whole normal, else its three components, else zero.
pub open spec fn normal_of(layout: ChunkLayout, p: ChunkPoint) -> [u32; 3] {
    if layout.normal && p.normal is Some {
        p.normal->Some_0
    } else if layout.normal_x && layout.normal_y && layout.normal_z && p.normal_x is Some && p.normal_y is Some
        && p.normal_z is Some {
        [p.normal_x->Some_0, p.normal_y->Some_0, p.normal_z->Some_0]
    } else {
        [0u32, 0u32, 0u32]
    }
}

/// Whether the layout has normals, whole or by component.
pub open spec fn has_normals(layout: ChunkLayout) -> bool {
    layout.normal || (layout.normal_x && layout.normal_y && layout.normal_z)
}

/// Whether a chunk gives no vertex buffers at all: it has no point, or a filter that is
/// not `KeepAll` keeps none of its classified points.
pub open spec fn empty_chunk(filter: FilterClassification, layout: ChunkLayout, points: Seq<ChunkPoint>) -> bool {
    points.len() == 0 || (!(filter is KeepAll) && layout.classification && kept_points(filter, layout, points).len()
        == 0)
}

/// Whether `filter` keeps point `p` of a chunk with this layout.
pub fn keeps_point(filter: &FilterClassification, layout: &ChunkLayout, p: &ChunkPoint) -> (b: bool)
    ensures
        b == kept(*filter, *layout, *p),
{
    if layout.classification {
        match p.classification {
            Some(c) => filter.filter(c),
            None => false,
        }
    } else {
        true
    }
}

/// The number of points of a chunk that `filter` keeps.
pub fn count_kept_points(filter: &FilterClassification, layout: &ChunkLayout, points: &Vec<ChunkPoint>) -> (n: usize)
    ensures
        n == kept_points(*filter, *layout, points@).len(),
{
    let mut n: usize = 0;
    let mut i: usize = 0;
    while i < points.len()
        invariant
            i <= points@.len(),
            n == kept_points(*filter, *layout, points@.take(i as int)).len(),
            n <= i,
        decreases points@.len() - i,
    {
        proof {
            assert(points@.take(i + 1).drop_last() == points@.take(i as int));
        }
        if keeps_point(filter, layout, &points[i]) {
            n = n + 1;
        }
        i = i + 1;
    }
    proof {
        assert(points@.take(points@.len() as int) == points@);
    }
    n
}

/// The vertex buffers of a chunk, or `None` when it gives none (`empty_chunk`): the
/// position of each kept point, and its color and normal when the layout has them.
pub fn assemble_chunk(filter: &FilterClassification, layout: &ChunkLayout, points: &Vec<ChunkPoint>) -> (r: Option<
    ChunkVertices,
>)
    ensures
        match r {
            None => empty_chunk(*filter, *layout, points@),
            Some(v) => {
                let ks = kept_points(*filter, *layout, points@);
                &&& !empty_chunk(*filter, *layout, points@)
                &&& v.positions@ == ks.map_values(|p: ChunkPoint| position_of(*layout, p))
                &&& (v.colors is Some <==> layout.color)
                &&& (v.colors matches Some(c) ==> c@ == ks.map_values(|p: ChunkPoint| color_of(*layout, p)))
                &&& (v.normals is Some <==> has_normals(*layout))
                &&& (v.normals matches Some(nv) ==> nv@ == ks.map_values(|p: ChunkPoint| normal_of(*layout, p)))
                &&& forall|k: int|
                    0 <= k < ks.len() && layout.position && ks[k].position is Some ==> v.positions@[k]
                        == ks[k].position->Some_0
                &&& (v.colors matches Some(c) ==> forall|k: int|
                    0 <= k < ks.len() && ks[k].color is Some ==> {
                        &&& c@[k][0] == ks[k].color->Some_0[0]
                        &&& c@[k][1] == ks[k].color->Some_0[1]
                        &&& c@[k][2] == ks[k].color->Some_0[2]
                        &&& c@[k][3] == ALPHA_ONE
                    })
                &&& (v.normals matches Some(nv) ==> forall|k: int|
                    0 <= k < ks.len() && layout.normal && ks[k].normal is Some ==> nv@[k] == ks[k].normal->Some_0)
                &&& (v.normals matches Some(nv) ==> forall|k: int|
                    0 <= k < ks.len() && !(layout.normal && ks[k].normal is Some) && layout.normal_x && layout.normal_y
                        && layout.normal_z && ks[k].normal_x is Some && ks[k].normal_y is Some && ks[k].normal_z is Some
                        ==> nv@[k] == [ks[k].normal_x->Some_0, ks[k].normal_y->Some_0, ks[k].normal_z->Some_0])
            },
        },
{
    if points.len() == 0 {
        return None;
    }
    if !filter.keeps_all() && layout.classification {
        let target = count_kept_points(filter, layout, points);
        if target == 0 {
            return None;
        }
    }
    let with_normals = layout.normal || (layout.normal_x && layout.normal_y && layout.normal_z);
    let mut positions: Vec<[u32; 3]> = Vec::new();
    let mut colors: Vec<[u32; 4]> = Vec::new();
    let mut normals: Vec<[u32; 3]> = Vec::new();
    let mut i: usize = 0;
    while i < points.len()
        invariant
            i <= points@.len(),
            with_normals == has_normals(*layout),
            positions@ == kept_points(*filter, *layout, points@.take(i as int)).map_values(
                |p: ChunkPoint| position_of(*layout, p),
            ),
            layout.color ==> colors@ == kept_points(*filter, *layout, points@.take(i as int)).map_values(
                |p: ChunkPoint| color_of(*layout, p),
            ),
            with_normals ==> normals@ == kept_points(*filter, *layout, points@.take(i as int)).map_values(
                |p: ChunkPoint| normal_of(*layout, p),
            ),
        decreases points@.len() - i,
    {
        let ghost before = kept_points(*filter, *layout, points@.take(i as int));
        proof {
            assert(points@.take(i + 1).drop_last() == points@.take(i as int));
            assert(points@.take(i + 1).last() == points@[i as int]);
        }
        let p = &points[i];
        if keeps_point(filter, layout, p) {
            let position = match p.position {
                Some(pos) => if layout.position {
                    pos
                } else {
                    [0u32, 0u32, 0u32]
                },
                None => [0u32, 0u32, 0u32],
            };
            positions.push(position);
            if layout.color {
                let color = match p.color {
                    Some(c) => [c[0], c[1], c[2], ALPHA_ONE],
                    None => [0u32, 0u32, 0u32, ALPHA_ONE],
                };
                colors.push(color);
            }
            if with_normals {
                let normal = if layout.normal && p.normal.is_some() {
                    p.normal.unwrap()
                } else if layout.normal_x && layout.normal_y && layout.normal_z && p.normal_x.is_some()
                    && p.normal_y.is_some() && p.normal_z.is_some() {
                    [p.normal_x.unwrap(), p.normal_y.unwrap(), p.normal_z.unwrap()]
                } else {
                    [0u32, 0u32, 0u32]
                };
                normals.push(normal);
            }
            proof {
                let now = kept_points(*filter, *layout, points@.take(i + 1));
                assert(now == before.push(*p));
                assert(positions@ =~= now.map_values(|q: ChunkPoint| position_of(*layout, q)));
                if layout.color {
                    assert(colors@ =~= now.map_values(|q: ChunkPoint| color_of(*layout, q)));
                }
                if with_normals {
                    assert(normals@ =~= now.map_values(|q: ChunkPoint| normal_of(*layout, q)));
                }
            }
        }
        i = i + 1;
    }
    proof {
        assert(points@.take(points@.len() as int) == points@);
    }
    let colors = if layout.color {
        Some(colors)
    } else {
        None
    };
    let normals = if with_normals {
        Some(normals)
    } else {
        None
    };
    Some(ChunkVertices { positions, colors, normals })
}

/// The vertex buffers of a chunk line up: one position, one color and one normal per
/// kept point.
pub proof fn law_chunk_buffers_align(filter: FilterClassification, layout: ChunkLayout, points: Seq<ChunkPoint>)
    ensures
        ({
            let ks = kept_points(filter, layout, points);
            &&& ks.map_values(|p: ChunkPoint| position_of(layout, p)).len() == ks.len()
            &&& ks.map_values(|p: ChunkPoint| color_of(layout, p)).len() == ks.len()
            &&& ks.map_values(|p: ChunkPoint| normal_of(layout, p)).len() == ks.len()
        }),
{
}

/// A filter that keeps every class keeps every point that has a class, and a layout
/// without classes keeps every point.
pub proof fn law_keep_all_keeps_classified(layout: ChunkLayout, points: Seq<ChunkPoint>)
    requires
        forall|i: int| 0 <= i < points.len() ==> (#[trigger] points[i]).classification is Some || !layout.classification,
    ensures
        kept_points(FilterClassification::KeepAll, layout, points) == points,
    decreases points.len(),
{
    if points.len() > 0 {
        law_keep_all_keeps_classified(layout, points.drop_last());
        assert(points.drop_last().push(points.last()) == points);
    }
}

/// Each buffer entry of a kept point is that point's own value: its position as stored;
/// its color's red, green and blue as stored, made opaque; its whole normal as stored
/// when the layout declares whole normals and the point has one, else its three normal
/// components in order, x, y then z.
pub proof fn law_chunk_values_as_stored(layout: ChunkLayout, p: ChunkPoint)
    ensures
        layout.position && p.position is Some ==> position_of(layout, p) == p.position->Some_0,
        layout.color && p.color is Some ==> {
            &&& color_of(layout, p)[0] == p.color->Some_0[0]
            &&& color_of(layout, p)[1] == p.color->Some_0[1]
            &&& color_of(layout, p)[2] == p.color->Some_0[2]
            &&& color_of(layout, p)[3] == ALPHA_ONE
        },
        layout.normal && p.normal is Some ==> normal_of(layout, p) == p.normal->Some_0,
        !(layout.normal && p.normal is Some) && layout.normal_x && layout.normal_y && layout.normal_z
            && p.normal_x is Some && p.normal_y is Some && p.normal_z is Some ==> {
            &&& normal_of(layout, p)[0] == p.normal_x->Some_0
            &&& normal_of(layout, p)[1] == p.normal_y->Some_0
            &&& normal_of(layout, p)[2] == p.normal_z->Some_0
        },
{
}

/// Whether a point of a chunk passes `filter`: any point when the layout has no
/// classification; else a point with a class, any class for `KeepAll`, a class of the
/// set for `Include`, a class outside the set for `Exclude`.
pub open spec fn passes_filter(filter: FilterClassification, layout: ChunkLayout, p: ChunkPoint) -> bool {
    !layout.classification || match p.classification {
        None => false,
        Some(c) => match filter {
            FilterClassification::KeepAll => true,
            FilterClassification::Include(set) => class_set(set).contains(c),
            FilterClassification::Exclude(set) => !class_set(set).contains(c),
        },
    }
}

/// The kept points of a chunk are its points that pass the filter, in their order: each
/// kept point passes, each point that passes is kept, there are never more kept points
/// than points, and a layout without classes keeps every point.
pub proof fn law_kept_points_pass_the_filter(filter: FilterClassification, layout: ChunkLayout, s: Seq<ChunkPoint>)
    ensures
        forall|k: int|
            0 <= k < kept_points(filter, layout, s).len() ==> passes_filter(filter, layout, #[trigger] kept_points(filter, layout, s)[k]),
        forall|i: int| 0 <= i < s.len() && passes_filter(filter, layout, #[trigger] s[i]) ==> kept_points(filter, layout, s).contains(s[i]),
        kept_points(filter, layout, s).len() <= s.len(),
        !layout.classification ==> kept_points(filter, layout, s) == s,
    decreases s.len(),
{
    if s.len() > 0 {
        let prev = s.drop_last();
        law_kept_points_pass_the_filter(filter, layout, prev);
        let ks = kept_points(filter, layout, s);
        let kp = kept_points(filter, layout, prev);
        assert(kept(filter, layout, s.last()) == passes_filter(filter, layout, s.last()));
        assert forall|k: int| 0 <= k < ks.len() implies passes_filter(filter, layout, #[trigger] ks[k]) by {
            if k < kp.len() {
                assert(ks[k] == kp[k]);
            }
        }
        assert forall|i: int| 0 <= i < s.len() && passes_filter(filter, layout, #[trigger] s[i]) implies ks.contains(s[i]) by {
            if i < prev.len() {
                assert(prev[i] == s[i]);
                let j = choose|j: int| 0 <= j < kp.len() && kp[j] == prev[i];
                assert(ks[j] == kp[j]);
            } else {
                assert(ks[ks.len() - 1] == s.last());
            }
        }
        if !layout.classification {
            assert(prev.push(s.last()) == s);
        }
    }
}

} // verus!
