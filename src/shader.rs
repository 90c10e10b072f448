use vstd::prelude::*;
use crate::clip::ClipVertex;
use crate::clip::Vec4;
use crate::clip::CLIP_LIMIT;
use crate::clip::clip_homogenous_triangle;
use crate::clip::in_view_volume;
use crate::clip::spec_clip_triangle;
use crate::clip::should_cull_triangle;
use crate::fixed::lerp_floor;
use crate::fixed::lerp_floor_exec;
use crate::fixed::lemma_lerp_between;
use crate::fixed::floor_div;
use crate::raster::Varying;
use crate::raster::RasterTriangle;
use crate::raster::RasterVertex;
use crate::raster::Winding;
use crate::raster::cull_back_face;
use crate::raster::shade;
use crate::raster::lemma_screen_space_wf;
use crate::raster::lemma_nearer_triangle_wins;
use crate::raster::lemma_fragment_at_vertex;
use crate::raster::lemma_full_screen_quad;
use crate::raster::lemma_depths_never_increase;
use crate::raster::lower_half;
use crate::raster::upper_half;
use crate::raster::DEPTH_ONE;
use crate::raster::SUBPIXEL;
use crate::color::argb;
use crate::fixed::lemma_div_bounds;
use crate::surface::DEPTH_CLEAR;
use crate::surface::RESOLUTION_LIMIT;
use crate::raster::rasterize_triangle;
use crate::raster::rasterized_colours;
use crate::raster::rasterized_depths;
use crate::raster::spec_to_screen_space;
use crate::raster::to_screen_space;
use crate::sampler::Sampler;
use crate::surface::Surface;

verus! {

/// Largest magnitude of a model-space coordinate.
pub const POSITION_LIMIT: i32 = 16777216;

/// Largest magnitude of a matrix entry.
pub const MATRIX_LIMIT: i32 = 1048576;

/// The fixed-point 1.0 that positions are extended with as their `w`.
pub const POSITION_ONE: i32 = 4096;

/// A transformed position is divided by this, rounding down, to bring it into
/// the clip-space range; the same factor on all four components leaves the
/// homogeneous point where it is, up to rounding.
pub const CLIP_SCALE: i64 = 16384;

/// A model-space position in fixed point.
#[derive(Clone, Copy, Debug, PartialEq, Eq, Structural)]
pub struct Vec3 {
    pub x: i32,
    pub y: i32,
    pub z: i32,
}

impl Vec3 {
    pub open spec fn in_range(self) -> bool {
        -POSITION_LIMIT <= self.x <= POSITION_LIMIT && -POSITION_LIMIT <= self.y <= POSITION_LIMIT
            && -POSITION_LIMIT <= self.z <= POSITION_LIMIT
    }
}

/// One row of a transform matrix.
#[derive(Clone, Copy, Debug, PartialEq, Eq, Structural)]
pub struct MatRow {
    pub x: i32,
    pub y: i32,
    pub z: i32,
    pub w: i32,
}

impl MatRow {
    pub open spec fn in_range(self) -> bool {
        -MATRIX_LIMIT <= self.x <= MATRIX_LIMIT && -MATRIX_LIMIT <= self.y <= MATRIX_LIMIT
            && -MATRIX_LIMIT <= self.z <= MATRIX_LIMIT && -MATRIX_LIMIT <= self.w <= MATRIX_LIMIT
    }
}

/// A 4x4 transform in fixed point; row `x` yields the clip-space `x`, and so on.
#[derive(Clone, Copy, Debug, PartialEq, Eq, Structural)]
pub struct Mat4 {
    pub x: MatRow,
    pub y: MatRow,
    pub z: MatRow,
    pub w: MatRow,
}

impl Mat4 {
    pub open spec fn in_range(self) -> bool {
        self.x.in_range() && self.y.in_range() && self.z.in_range() && self.w.in_range()
    }
}

/// The fixed-point 1.0 of matrix entries.
pub const MATRIX_ONE: i32 = 4096;

/// Entry `c` of a row.
pub open spec fn component(r: MatRow, c: int) -> int {
    if c == 0 {
        r.x as int
    } else if c == 1 {
        r.y as int
    } else if c == 2 {
        r.z as int
    } else {
        r.w as int
    }
}

/// A row of `a` times column `c` of `b`.
pub open spec fn column_dot(r: MatRow, b: Mat4, c: int) -> int {
    r.x * component(b.x, c) + r.y * component(b.y, c) + r.z * component(b.z, c) + r.w * component(
        b.w,
        c,
    )
}

/// Entry `c` of a row of the fixed-point product, rounded down.
pub open spec fn product_entry(r: MatRow, b: Mat4, c: int) -> int {
    column_dot(r, b, c) / (MATRIX_ONE as int)
}

pub open spec fn within_matrix_limit(v: int) -> bool {
    -MATRIX_LIMIT <= v <= MATRIX_LIMIT
}

pub open spec fn row_product_fits(r: MatRow, b: Mat4) -> bool {
    forall|c: int| 0 <= c < 4 ==> #[trigger] within_matrix_limit(product_entry(r, b, c))
}

pub open spec fn spec_row_product(r: MatRow, b: Mat4) -> MatRow {
    MatRow {
        x: product_entry(r, b, 0) as i32,
        y: product_entry(r, b, 1) as i32,
        z: product_entry(r, b, 2) as i32,
        w: product_entry(r, b, 3) as i32,
    }
}

/// The fixed-point product `a * b` fits the matrix range.
pub open spec fn product_fits(a: Mat4, b: Mat4) -> bool {
    row_product_fits(a.x, b) && row_product_fits(a.y, b) && row_product_fits(a.z, b)
        && row_product_fits(a.w, b)
}

/// The fixed-point product `a * b`.
pub open spec fn spec_mul(a: Mat4, b: Mat4) -> Mat4 {
    Mat4 {
        x: spec_row_product(a.x, b),
        y: spec_row_product(a.y, b),
        z: spec_row_product(a.z, b),
        w: spec_row_product(a.w, b),
    }
}

fn product_entry_exec(r: MatRow, b: &Mat4, c: usize) -> (v: Option<i32>)
    requires
        r.in_range(),
        b.in_range(),
        c < 4,
    ensures
        v is Some <==> within_matrix_limit(product_entry(r, *b, c as int)),
        v matches Some(e) ==> e == product_entry(r, *b, c as int),
{
    let (bx, by, bz, bw) = if c == 0 {
        (b.x.x, b.y.x, b.z.x, b.w.x)
    } else if c == 1 {
        (b.x.y, b.y.y, b.z.y, b.w.y)
    } else if c == 2 {
        (b.x.z, b.y.z, b.z.z, b.w.z)
    } else {
        (b.x.w, b.y.w, b.z.w, b.w.w)
    };
    let column = MatRow { x: bx, y: by, z: bz, w: bw };
    assert(column.in_range());
    assert(forall|p: int, q: int|
        -0x10_0000 <= p <= 0x10_0000 && -0x10_0000 <= q <= 0x10_0000 ==> -0x100_0000_0000
            <= #[trigger] (p * q) <= 0x100_0000_0000) by {
        assert forall|p: int, q: int|
            -0x10_0000 <= p <= 0x10_0000 && -0x10_0000 <= q <= 0x10_0000 implies -0x100_0000_0000
            <= #[trigger] (p * q) <= 0x100_0000_0000 by {
            assert(-0x100_0000_0000 <= p * q <= 0x100_0000_0000) by (nonlinear_arith)
                requires
                    -0x10_0000 <= p <= 0x10_0000,
                    -0x10_0000 <= q <= 0x10_0000,
            ;
        }
    }
    assert(-0x100_0000_0000 <= r.x * bx <= 0x100_0000_0000);
    assert(-0x100_0000_0000 <= r.y * by <= 0x100_0000_0000);
    assert(-0x100_0000_0000 <= r.z * bz <= 0x100_0000_0000);
    assert(-0x100_0000_0000 <= r.w * bw <= 0x100_0000_0000);
    let dot = (r.x as i128) * (bx as i128) + (r.y as i128) * (by as i128) + (r.z as i128) * (
    bz as i128) + (r.w as i128) * (bw as i128);
    let q = floor_div(dot, MATRIX_ONE as i128);
    if -(MATRIX_LIMIT as i128) <= q && q <= MATRIX_LIMIT as i128 {
        Some(q as i32)
    } else {
        None
    }
}

fn row_product(r: MatRow, b: &Mat4) -> (v: Option<MatRow>)
    requires
        r.in_range(),
        b.in_range(),
    ensures
        v is Some <==> row_product_fits(r, *b),
        v matches Some(m) ==> m == spec_row_product(r, *b) && m.in_range(),
{
    let x = product_entry_exec(r, b, 0);
    let y = product_entry_exec(r, b, 1);
    let z = product_entry_exec(r, b, 2);
    let w = product_entry_exec(r, b, 3);
    match (x, y, z, w) {
        (Some(x), Some(y), Some(z), Some(w)) => {
            assert forall|c: int| 0 <= c < 4 implies #[trigger] within_matrix_limit(
                product_entry(r, *b, c),
            ) by {
                if c == 0 {
                } else if c == 1 {
                } else if c == 2 {
                } else {
                }
            }
            Some(MatRow { x, y, z, w })
        },
        _ => {
            proof {
                if x is None {
                    assert(!within_matrix_limit(product_entry(r, *b, 0)));
                } else if y is None {
                    assert(!within_matrix_limit(product_entry(r, *b, 1)));
                } else if z is None {
                    assert(!within_matrix_limit(product_entry(r, *b, 2)));
                } else {
                    assert(!within_matrix_limit(product_entry(r, *b, 3)));
                }
            }
            None
        },
    }
}

impl Mat4 {
    /// The fixed-point identity.
    pub open spec fn spec_identity() -> Mat4 {
        Mat4 {
            x: MatRow { x: MATRIX_ONE, y: 0, z: 0, w: 0 },
            y: MatRow { x: 0, y: MATRIX_ONE, z: 0, w: 0 },
            z: MatRow { x: 0, y: 0, z: MATRIX_ONE, w: 0 },
            w: MatRow { x: 0, y: 0, z: 0, w: MATRIX_ONE },
        }
    }

    pub fn identity() -> (r: Mat4)
        ensures
            r == Mat4::spec_identity(),
            r.in_range(),
    {
        Mat4 {
            x: MatRow { x: MATRIX_ONE, y: 0, z: 0, w: 0 },
            y: MatRow { x: 0, y: MATRIX_ONE, z: 0, w: 0 },
            z: MatRow { x: 0, y: 0, z: MATRIX_ONE, w: 0 },
            w: MatRow { x: 0, y: 0, z: 0, w: MATRIX_ONE },
        }
    }

    /// The fixed-point product `self * other`, or `None` when an entry falls
    /// outside the matrix range.
    pub fn mul(&self, other: &Mat4) -> (r: Option<Mat4>)
        requires
            self.in_range(),
            other.in_range(),
        ensures
            r is Some <==> product_fits(*self, *other),
            r matches Some(m) ==> m == spec_mul(*self, *other) && m.in_range(),
    {
        let x = row_product(self.x, other)?;
        let y = row_product(self.y, other)?;
        let z = row_product(self.z, other)?;
        let w = row_product(self.w, other)?;
        Some(Mat4 { x, y, z, w })
    }
}

/// A row applied to a position extended with `w = POSITION_ONE`.
pub open spec fn row_dot(r: MatRow, p: Vec3) -> int {
    r.x * p.x + r.y * p.y + r.z * p.z + r.w * POSITION_ONE
}

/// The clip-space position of a model-space position.
pub open spec fn spec_transform(m: Mat4, p: Vec3) -> Vec4 {
    Vec4 {
        x: (row_dot(m.x, p) / (CLIP_SCALE as int)) as i64,
        y: (row_dot(m.y, p) / (CLIP_SCALE as int)) as i64,
        z: (row_dot(m.z, p) / (CLIP_SCALE as int)) as i64,
        w: (row_dot(m.w, p) / (CLIP_SCALE as int)) as i64,
    }
}

fn row_dot_exec(r: MatRow, p: Vec3) -> (v: i64)
    requires
        r.in_range(),
        p.in_range(),
    ensures
        v == row_dot(r, p) / (CLIP_SCALE as int),
        -CLIP_LIMIT <= v <= CLIP_LIMIT,
{
    assert(-0x1000_0000_0000 <= r.x * p.x <= 0x1000_0000_0000) by (nonlinear_arith)
        requires
            -0x10_0000 <= r.x <= 0x10_0000,
            -0x100_0000 <= p.x <= 0x100_0000,
    ;
    assert(-0x1000_0000_0000 <= r.y * p.y <= 0x1000_0000_0000) by (nonlinear_arith)
        requires
            -0x10_0000 <= r.y <= 0x10_0000,
            -0x100_0000 <= p.y <= 0x100_0000,
    ;
    assert(-0x1000_0000_0000 <= r.z * p.z <= 0x1000_0000_0000) by (nonlinear_arith)
        requires
            -0x10_0000 <= r.z <= 0x10_0000,
            -0x100_0000 <= p.z <= 0x100_0000,
    ;
    assert(-0x1000_0000_0000 <= r.w * POSITION_ONE <= 0x1000_0000_0000) by (nonlinear_arith)
        requires
            -0x10_0000 <= r.w <= 0x10_0000,
    ;
    let dot = (r.x as i128) * (p.x as i128) + (r.y as i128) * (p.y as i128) + (r.z as i128) * (
    p.z as i128) + (r.w as i128) * (POSITION_ONE as i128);
    let q = floor_div(dot, CLIP_SCALE as i128);
    proof {
        crate::fixed::lemma_div_bounds(dot as int, CLIP_SCALE as int);
        assert(-CLIP_LIMIT <= q <= CLIP_LIMIT) by (nonlinear_arith)
            requires
                16384 * q <= dot < 16384 * q + 16384,
                -0x4000_0000_0000 <= dot <= 0x4000_0000_0000,
        ;
    }
    q as i64
}

/// Multiplies a position, extended with `w = POSITION_ONE`, by a matrix and
/// divides by `CLIP_SCALE`.
pub fn transform(m: &Mat4, p: Vec3) -> (r: Vec4)
    requires
        m.in_range(),
        p.in_range(),
    ensures
        r == spec_transform(*m, p),
        r.in_range(),
{
    Vec4 {
        x: row_dot_exec(m.x, p),
        y: row_dot_exec(m.y, p),
        z: row_dot_exec(m.z, p),
        w: row_dot_exec(m.w, p),
    }
}

/// Per-vertex input of a draw: positions, and one attribute (a colour or a
/// texture coordinate) for each position.
pub struct VertexInput {
    pub positions: Vec<Vec3>,
    pub attributes: Vec<Varying>,
}

impl VertexInput {
    /// Every index within both buffers names an in-range position and a
    /// well-formed attribute.
    pub open spec fn wf(&self) -> bool {
        &&& self.attributes.len() == self.positions.len()
        &&& forall|i: int| 0 <= i < self.positions.len() ==> #[trigger] self.positions[i].in_range()
        &&& forall|i: int| 0 <= i < self.attributes.len() ==> #[trigger] self.attributes[i].wf()
    }

    fn get_positions(&self, indices: [usize; 3]) -> (r: [Vec3; 3])
        requires
            indices[0] < self.positions.len(),
            indices[1] < self.positions.len(),
            indices[2] < self.positions.len(),
        ensures
            r[0] == self.positions[indices[0] as int],
            r[1] == self.positions[indices[1] as int],
            r[2] == self.positions[indices[2] as int],
    {
        [self.positions[indices[0]], self.positions[indices[1]], self.positions[indices[2]]]
    }
}

/// Output of the vertex stage: the clipped polygons' vertices in clip space with
/// their rebuilt attributes, indexed by the triangle list it comes with.
pub struct VertexOutput {
    pub clip_positions: Vec<Vec4>,
    pub attributes: Vec<Varying>,
}

/// The vertex stage: transforms triangles by the view-projection matrix, rejects
/// and clips them against the view volume, rebuilds attributes from provenance
/// and fan-triangulates each clipped polygon.
pub struct VertexShader {
    pub view_projection: Mat4,
}

/// The three indices of triangle `t` of an index list.
pub open spec fn triangle_at(indices: Seq<usize>, t: int) -> (usize, usize, usize) {
    (indices[3 * t], indices[3 * t + 1], indices[3 * t + 2])
}

/// The vertex index of corner `c` of a triangle.
pub open spec fn corner(tri: (usize, usize, usize), c: int) -> usize {
    if c == 0 {
        tri.0
    } else if c == 1 {
        tri.1
    } else {
        tri.2
    }
}

/// An attribute rebuilt from provenance: the source edge's start attribute, moved
/// toward the edge's end attribute by the fraction `t`, rounded down.
pub open spec fn rebuild_attribute(a: Varying, b: Varying, v: ClipVertex) -> Varying {
    if v.t.num == 0 {
        a
    } else {
        let (n, d) = (v.t.num as int, v.t.den as int);
        Varying {
            c0: lerp_floor(a.c0 as int, b.c0 as int, n, d) as u32,
            c1: lerp_floor(a.c1 as int, b.c1 as int, n, d) as u32,
            c2: lerp_floor(a.c2 as int, b.c2 as int, n, d) as u32,
        }
    }
}

/// The attribute of a clipped vertex of triangle `tri`.
pub open spec fn vertex_attribute(attributes: Seq<Varying>, tri: (usize, usize, usize), v: ClipVertex) -> Varying {
    rebuild_attribute(
        attributes[corner(tri, v.source_edge as int) as int],
        attributes[corner(tri, (v.source_edge + 1) % 3) as int],
        v,
    )
}

/// The fan triangulation `(base, base + i, base + i + 1)` of a polygon of `n`
/// vertices starting at index `base`, for `i` in `1 .. n - 1`.
pub open spec fn fan_indices(base: int, n: int) -> Seq<usize> {
    Seq::new(
        if n >= 3 { (3 * (n - 2)) as nat } else { 0 },
        |k: int|
            if k % 3 == 0 {
                base as usize
            } else if k % 3 == 1 {
                (base + k / 3 + 1) as usize
            } else {
                (base + k / 3 + 2) as usize
            },
    )
}

/// The clipped polygon of triangle `tri` of the input.
pub open spec fn clipped_triangle(vp: Mat4, positions: Seq<Vec3>, tri: (usize, usize, usize)) -> Seq<ClipVertex> {
    spec_clip_triangle(
        spec_transform(vp, positions[tri.0 as int]),
        spec_transform(vp, positions[tri.1 as int]),
        spec_transform(vp, positions[tri.2 as int]),
    )
}

/// What the vertex stage produces for the first `count` triangles: positions,
/// attributes and the triangle list over them.
pub open spec fn vertex_stage(
    vp: Mat4,
    positions: Seq<Vec3>,
    attributes: Seq<Varying>,
    indices: Seq<usize>,
    count: nat,
) -> (Seq<Vec4>, Seq<Varying>, Seq<usize>)
    decreases count,
{
    if count == 0 {
        (Seq::empty(), Seq::empty(), Seq::empty())
    } else {
        let (p, a, ix) = vertex_stage(vp, positions, attributes, indices, (count - 1) as nat);
        let tri = triangle_at(indices, count - 1);
        let poly = clipped_triangle(vp, positions, tri);
        (
            p + poly.map_values(|v: ClipVertex| v.position),
            a + poly.map_values(|v: ClipVertex| vertex_attribute(attributes, tri, v)),
            ix + fan_indices(p.len() as int, poly.len() as int),
        )
    }
}

/// Largest index list a draw takes.
pub const INDEX_LIMIT: usize = 16777216;

/// Rebuilds the attribute of a clipped vertex (see `rebuild_attribute`).
fn rebuild_attribute_exec(a: Varying, b: Varying, v: ClipVertex) -> (r: Varying)
    requires
        a.wf(),
        b.wf(),
        v.wf(),
    ensures
        r == rebuild_attribute(a, b, v),
        r.wf(),
        a.is_colour() && b.is_colour() ==> r.is_colour(),
{
    if v.t.num == 0 {
        a
    } else {
        let (n, d) = (v.t.num, v.t.den);
        proof {
            lemma_lerp_between(a.c0 as int, b.c0 as int, n as int, d as int);
            lemma_lerp_between(a.c1 as int, b.c1 as int, n as int, d as int);
            lemma_lerp_between(a.c2 as int, b.c2 as int, n as int, d as int);
        }
        Varying {
            c0: lerp_floor_exec(a.c0 as i64, b.c0 as i64, n, d) as u32,
            c1: lerp_floor_exec(a.c1 as i64, b.c1 as i64, n, d) as u32,
            c2: lerp_floor_exec(a.c2 as i64, b.c2 as i64, n, d) as u32,
        }
    }
}

/// All attributes are colours.
pub open spec fn all_colours(attributes: Seq<Varying>) -> bool {
    forall|i: int| 0 <= i < attributes.len() ==> #[trigger] attributes[i].is_colour()
}

impl VertexShader {
    /// The three vertex indices of triangle `triangle_id`.
    pub fn triangle_indices(input_indices: &[usize], triangle_id: usize) -> (r: [usize; 3])
        requires
            3 * triangle_id + 2 < input_indices@.len(),
        ensures
            r[0] == input_indices@[3 * triangle_id],
            r[1] == input_indices@[3 * triangle_id + 1],
            r[2] == input_indices@[3 * triangle_id + 2],
    {
        assert(3 * triangle_id + 2 < input_indices.len());
        let base = triangle_id * 3;
        [input_indices[base], input_indices[base + 1], input_indices[base + 2]]
    }

    /// Transforms the three positions of a triangle to clip space.
    pub fn world_to_clip_space(vp: &Mat4, positions: &[Vec3; 3]) -> (r: [Vec4; 3])
        requires
            vp.in_range(),
            positions[0].in_range(),
            positions[1].in_range(),
            positions[2].in_range(),
        ensures
            r[0] == spec_transform(*vp, positions[0]),
            r[1] == spec_transform(*vp, positions[1]),
            r[2] == spec_transform(*vp, positions[2]),
            r[0].in_range(),
            r[1].in_range(),
            r[2].in_range(),
    {
        [transform(vp, positions[0]), transform(vp, positions[1]), transform(vp, positions[2])]
    }

    /// Runs the vertex stage over the triangles of `indices`, three indices per
    /// triangle (a trailing partial triangle is ignored).
    pub fn dispatch(&self, vertex_in: &VertexInput, indices: &[usize]) -> (r: (VertexOutput, Vec<usize>))
        requires
            self.view_projection.in_range(),
            vertex_in.wf(),
            indices@.len() <= INDEX_LIMIT,
            forall|k: int| 0 <= k < indices@.len() ==> #[trigger] indices@[k] < vertex_in.positions.len(),
        ensures
            (r.0.clip_positions@, r.0.attributes@, r.1@) == vertex_stage(
                self.view_projection,
                vertex_in.positions@,
                vertex_in.attributes@,
                indices@,
                (indices@.len() / 3) as nat,
            ),
            r.0.attributes.len() == r.0.clip_positions.len(),
            forall|k: int| 0 <= k < r.1.len() ==> #[trigger] r.1[k] < r.0.clip_positions.len(),
            forall|k: int|
                0 <= k < r.0.clip_positions.len() ==> #[trigger] r.0.clip_positions[k].in_range()
                    && in_view_volume(r.0.clip_positions[k]),
            forall|k: int| 0 <= k < r.0.attributes.len() ==> #[trigger] r.0.attributes[k].wf(),
            all_colours(vertex_in.attributes@) ==> all_colours(r.0.attributes@),
    {
        let vp = &self.view_projection;
        let input_triangle_count = indices.len() / 3;
        let ghost positions = vertex_in.positions@;
        let ghost attributes = vertex_in.attributes@;
        let mut out_positions: Vec<Vec4> = Vec::new();
        let mut out_attributes: Vec<Varying> = Vec::new();
        let mut out_indices: Vec<usize> = Vec::new();
        let mut i: usize = 0;
        while i < input_triangle_count
            invariant
                input_triangle_count == indices@.len() / 3,
                indices@.len() <= INDEX_LIMIT,
                i <= input_triangle_count,
                vp.in_range(),
                vertex_in.wf(),
                positions == vertex_in.positions@,
                attributes == vertex_in.attributes@,
                forall|k: int| 0 <= k < indices@.len() ==> #[trigger] indices@[k] < positions.len(),
                (out_positions@, out_attributes@, out_indices@) == vertex_stage(
                    *vp,
                    positions,
                    attributes,
                    indices@,
                    i as nat,
                ),
                out_positions.len() <= 192 * i,
                out_attributes.len() == out_positions.len(),
                forall|k: int| 0 <= k < out_indices.len() ==> #[trigger] out_indices[k] < out_positions.len(),
                forall|k: int|
                    0 <= k < out_positions.len() ==> #[trigger] out_positions[k].in_range()
                        && in_view_volume(out_positions[k]),
                forall|k: int| 0 <= k < out_attributes.len() ==> #[trigger] out_attributes[k].wf(),
                all_colours(attributes) ==> all_colours(out_attributes@),
            decreases input_triangle_count - i,
        {
            let tri = Self::triangle_indices(indices, i);
            let ghost tri_s = triangle_at(indices@, i as int);
            assert(tri[0] == tri_s.0 && tri[1] == tri_s.1 && tri[2] == tri_s.2);
            let vertices = vertex_in.get_positions(tri);
            let clip = Self::world_to_clip_space(vp, &vertices);
            let ghost p0 = out_positions@;
            let ghost a0 = out_attributes@;
            let ghost ix0 = out_indices@;
            let ghost poly = clipped_triangle(*vp, positions, tri_s);
            if should_cull_triangle(clip[0], clip[1], clip[2]) {
                proof {
                    assert(poly.len() == 0);
                    assert(p0 =~= p0 + poly.map_values(|v: ClipVertex| v.position));
                    assert(a0 =~= a0 + poly.map_values(|v: ClipVertex| vertex_attribute(attributes, tri_s, v)));
                    assert(ix0 =~= ix0 + fan_indices(p0.len() as int, 0));
                }
                i += 1;
                continue;
            }
            let clipped = clip_homogenous_triangle(&clip);
            assert(clipped@ == poly);
            let n = clipped.len();
            let base = out_positions.len();
            let mut m: usize = 0;
            while m < n
                invariant
                    n == clipped.len(),
                    n <= 192,
                    m <= n,
                    base == p0.len(),
                    base <= 192 * i,
                    i < input_triangle_count,
                    input_triangle_count <= INDEX_LIMIT,
                    clipped@ == poly,
                    vertex_in.wf(),
                    attributes == vertex_in.attributes@,
                    tri[0] < attributes.len() && tri[1] < attributes.len() && tri[2] < attributes.len(),
                    tri[0] == tri_s.0 && tri[1] == tri_s.1 && tri[2] == tri_s.2,
                    forall|k: int| 0 <= k < n ==> #[trigger] clipped[k].wf() && in_view_volume(clipped[k].position),
                    out_positions@ == p0 + poly.subrange(0, m as int).map_values(|v: ClipVertex| v.position),
                    out_attributes@ == a0 + poly.subrange(0, m as int).map_values(
                        |v: ClipVertex| vertex_attribute(attributes, tri_s, v),
                    ),
                    forall|k: int| 0 <= k < a0.len() ==> #[trigger] a0[k].wf(),
                    all_colours(attributes) ==> all_colours(a0),
                    forall|k: int| 0 <= k < out_positions.len() ==> #[trigger] out_positions[k].in_range()
                        && in_view_volume(out_positions[k]),
                    forall|k: int| 0 <= k < out_attributes.len() ==> #[trigger] out_attributes[k].wf(),
                    all_colours(attributes) ==> all_colours(out_attributes@),
                decreases n - m,
            {
                let v = clipped[m];
                assert(clipped[m as int].wf() && in_view_volume(clipped[m as int].position));
                let e = v.source_edge;
                let a = vertex_in.attributes[tri[e]];
                let b = vertex_in.attributes[tri[(e + 1) % 3]];
                proof {
                    assert(tri[e as int] == corner(tri_s, e as int));
                    assert(tri[((e + 1) % 3) as int] == corner(tri_s, (e + 1) % 3));
                }
                let attribute = rebuild_attribute_exec(a, b, v);
                let ghost before_positions = out_positions@;
                out_positions.push(v.position);
                out_attributes.push(attribute);
                proof {
                    assert forall|k: int| 0 <= k < out_positions.len() implies #[trigger] out_positions[k].in_range()
                        && in_view_volume(out_positions[k]) by {
                        if k < before_positions.len() {
                            assert(before_positions[k] == out_positions[k]);
                        }
                    }
                    assert(poly.subrange(0, m + 1) =~= poly.subrange(0, m as int).push(v));
                    assert(out_positions@ =~= p0 + poly.subrange(0, m + 1).map_values(|v: ClipVertex| v.position));
                    assert(out_attributes@ =~= a0 + poly.subrange(0, m + 1).map_values(
                        |v: ClipVertex| vertex_attribute(attributes, tri_s, v),
                    ));
                    if all_colours(attributes) {
                        assert(all_colours(out_attributes@)) by {
                            assert forall|k: int| 0 <= k < out_attributes.len() implies #[trigger] out_attributes@[k].is_colour() by {
                                if k >= a0.len() && k < out_attributes.len() - 1 {
                                    assert(out_attributes@[k] == vertex_attribute(attributes, tri_s, poly[k - a0.len()]));
                                }
                            }
                        }
                    }
                }
                m += 1;
            }
            assert(poly.subrange(0, n as int) =~= poly);
            if n >= 3 {
                let mut f: usize = 1;
                while f + 1 < n
                    invariant
                        3 <= n <= 192,
                        1 <= f < n,
                        base + n == out_positions.len(),
                        base <= 192 * i,
                        i < input_triangle_count,
                        input_triangle_count <= INDEX_LIMIT,
                        out_indices@ == ix0 + fan_indices(base as int, n as int).subrange(0, 3 * (f - 1)),
                        forall|k: int| 0 <= k < out_indices.len() ==> #[trigger] out_indices[k] < out_positions.len(),
                    decreases n - f,
                {
                    out_indices.push(base);
                    out_indices.push(base + f);
                    out_indices.push(base + f + 1);
                    proof {
                        let fan = fan_indices(base as int, n as int);
                        assert((3 * (f - 1)) / 3 == f - 1);
                        assert((3 * (f - 1) + 1) / 3 == f - 1);
                        assert((3 * (f - 1) + 2) / 3 == f - 1);
                        assert((3 * (f - 1)) % 3 == 0);
                        assert((3 * (f - 1) + 1) % 3 == 1);
                        assert((3 * (f - 1) + 2) % 3 == 2);
                        assert(out_indices@ =~= ix0 + fan.subrange(0, 3 * f));
                    }
                    f += 1;
                }
                assert(fan_indices(base as int, n as int).subrange(0, 3 * (n - 2)) =~= fan_indices(base as int, n as int));
            } else {
                assert(out_indices@ =~= ix0 + fan_indices(base as int, n as int));
            }
            i += 1;
        }
        (VertexOutput { clip_positions: out_positions, attributes: out_attributes }, out_indices)
    }
}

/// The fragment stage: maps the vertex stage's triangles to the screen, culls
/// those that do not face the viewer by `winding`, and rasterizes the rest in
/// order, with depth testing.
pub struct FragmentShader {
    pub winding: Winding,
}

/// Triangle `tri` of the vertex stage's output, ready for rasterization on a
/// `width` by `height` surface; `None` when a vertex has `w == 0` (a
/// degenerate vertex at the eye) or the triangle does not face the viewer by
/// `winding` on the screen.
pub open spec fn raster_triangle_of(
    width: int,
    height: int,
    positions: Seq<Vec4>,
    attributes: Seq<Varying>,
    tri: (usize, usize, usize),
    winding: Winding,
) -> Option<RasterTriangle> {
    let (a, b, c) = (positions[tri.0 as int], positions[tri.1 as int], positions[tri.2 as int]);
    if a.w > 0 && b.w > 0 && c.w > 0 && crate::raster::faces(
        winding,
        spec_to_screen_space(width, height, a).position,
        spec_to_screen_space(width, height, b).position,
        spec_to_screen_space(width, height, c).position,
    ) {
        Some(
            RasterTriangle {
                v0: RasterVertex {
                    screen: spec_to_screen_space(width, height, a),
                    varying: attributes[tri.0 as int],
                },
                v1: RasterVertex {
                    screen: spec_to_screen_space(width, height, b),
                    varying: attributes[tri.1 as int],
                },
                v2: RasterVertex {
                    screen: spec_to_screen_space(width, height, c),
                    varying: attributes[tri.2 as int],
                },
                winding,
            },
        )
    } else {
        None
    }
}

/// The depth and colour buffers after rasterizing the first `count` triangles.
pub open spec fn fragment_stage(
    width: int,
    height: int,
    positions: Seq<Vec4>,
    attributes: Seq<Varying>,
    indices: Seq<usize>,
    sampler: Option<Sampler>,
    winding: Winding,
    depths: Seq<u32>,
    colours: Seq<u32>,
    count: nat,
) -> (Seq<u32>, Seq<u32>)
    decreases count,
{
    if count == 0 {
        (depths, colours)
    } else {
        let (d, c) = fragment_stage(
            width,
            height,
            positions,
            attributes,
            indices,
            sampler,
            winding,
            depths,
            colours,
            (count - 1) as nat,
        );
        match raster_triangle_of(width, height, positions, attributes, triangle_at(indices, count - 1), winding) {
            Some(t) => (
                rasterized_depths(t, width, height, d),
                rasterized_colours(t, width, height, d, c, sampler),
            ),
            None => (d, c),
        }
    }
}

impl VertexOutput {
    /// Positions are in the view volume, attributes are well formed, and the
    /// sampler (or its absence) can shade them.
    pub open spec fn shadable(&self, sampler: Option<Sampler>) -> bool {
        &&& self.attributes.len() == self.clip_positions.len()
        &&& forall|k: int|
            0 <= k < self.clip_positions.len() ==> #[trigger] self.clip_positions[k].in_range()
                && in_view_volume(self.clip_positions[k])
        &&& forall|k: int| 0 <= k < self.attributes.len() ==> #[trigger] self.attributes[k].wf()
        &&& match sampler {
            None => all_colours(self.attributes@),
            Some(s) => s.ready(),
        }
    }
}

impl FragmentShader {
    /// Rasterizes every triangle of `indices` over the vertex stage's output onto
    /// `out`, shading with `sampler` when one is given and with the
    /// interpolated vertex colour otherwise.
    pub fn dispatch(&self, out: &mut Surface, vs_output: &VertexOutput, indices: &[usize], sampler: &Option<Sampler>)
        requires
            old(out).wf(),
            vs_output.shadable(*sampler),
            forall|k: int| 0 <= k < indices@.len() ==> #[trigger] indices@[k] < vs_output.clip_positions.len(),
        ensures
            final(out).wf(),
            final(out).spec_width() == old(out).spec_width(),
            final(out).spec_height() == old(out).spec_height(),
            (final(out).depths(), final(out).colours()) == fragment_stage(
                old(out).spec_width() as int,
                old(out).spec_height() as int,
                vs_output.clip_positions@,
                vs_output.attributes@,
                indices@,
                *sampler,
                self.winding,
                old(out).depths(),
                old(out).colours(),
                (indices@.len() / 3) as nat,
            ),
            forall|k: int|
                0 <= k < old(out).depths().len() ==> #[trigger] final(out).depths()[k]
                    <= old(out).depths()[k],
    {
        let triangle_count = indices.len() / 3;
        let ghost w = out.spec_width() as int;
        let ghost h = out.spec_height() as int;
        let ghost d0 = out.depths();
        let ghost c0 = out.colours();
        let mut i: usize = 0;
        while i < triangle_count
            invariant
                triangle_count == indices@.len() / 3,
                i <= triangle_count,
                out.wf(),
                out.spec_width() == w,
                out.spec_height() == h,
                vs_output.shadable(*sampler),
                forall|k: int| 0 <= k < indices@.len() ==> #[trigger] indices@[k] < vs_output.clip_positions.len(),
                (out.depths(), out.colours()) == fragment_stage(
                    w,
                    h,
                    vs_output.clip_positions@,
                    vs_output.attributes@,
                    indices@,
                    *sampler,
                    self.winding,
                    d0,
                    c0,
                    i as nat,
                ),
                out.depths().len() == d0.len(),
                forall|k: int| 0 <= k < d0.len() ==> #[trigger] out.depths()[k] <= d0[k],
            decreases triangle_count - i,
        {
            let tri = VertexShader::triangle_indices(indices, i);
            let ghost before = out.depths();
            self.rasterize_triangle(out, vs_output, tri, sampler);
            assert forall|k: int| 0 <= k < d0.len() implies #[trigger] out.depths()[k] <= d0[k] by {
                assert(out.depths()[k] <= before[k]);
            }
            i += 1;
        }
    }

    fn rasterize_triangle(&self, out: &mut Surface, vs_output: &VertexOutput, indices: [usize; 3], sampler: &Option<Sampler>)
        requires
            old(out).wf(),
            vs_output.shadable(*sampler),
            indices[0] < vs_output.clip_positions.len(),
            indices[1] < vs_output.clip_positions.len(),
            indices[2] < vs_output.clip_positions.len(),
        ensures
            final(out).wf(),
            final(out).spec_width() == old(out).spec_width(),
            final(out).spec_height() == old(out).spec_height(),
            ({
                let (w, h) = (old(out).spec_width() as int, old(out).spec_height() as int);
                match raster_triangle_of(w, h, vs_output.clip_positions@, vs_output.attributes@, (indices[0], indices[1], indices[2]), self.winding) {
                    Some(t) => final(out).depths() == rasterized_depths(t, w, h, old(out).depths())
                        && final(out).colours() == rasterized_colours(t, w, h, old(out).depths(), old(out).colours(), *sampler),
                    None => final(out).depths() == old(out).depths() && final(out).colours() == old(out).colours(),
                }
            }),
            forall|k: int|
                0 <= k < old(out).depths().len() ==> #[trigger] final(out).depths()[k]
                    <= old(out).depths()[k],
    {
        let a = vs_output.clip_positions[indices[0]];
        let b = vs_output.clip_positions[indices[1]];
        let c = vs_output.clip_positions[indices[2]];
        if a.w <= 0 || b.w <= 0 || c.w <= 0 {
            return;
        }
        let width = out.get_width();
        let height = out.get_height();
        assert(vs_output.clip_positions[indices[0] as int].in_range() && in_view_volume(vs_output.clip_positions[indices[0] as int]));
        assert(vs_output.clip_positions[indices[1] as int].in_range() && in_view_volume(vs_output.clip_positions[indices[1] as int]));
        assert(vs_output.clip_positions[indices[2] as int].in_range() && in_view_volume(vs_output.clip_positions[indices[2] as int]));
        assert(vs_output.attributes[indices[0] as int].wf());
        assert(vs_output.attributes[indices[1] as int].wf());
        assert(vs_output.attributes[indices[2] as int].wf());
        let (sa, sb, sc) = (to_screen_space(width, height, a), to_screen_space(width, height, b), to_screen_space(width, height, c));
        if cull_back_face(sa.position, sb.position, sc.position, self.winding) {
            return;
        }
        let tri = RasterTriangle {
            v0: RasterVertex { screen: sa, varying: vs_output.attributes[indices[0]] },
            v1: RasterVertex { screen: sb, varying: vs_output.attributes[indices[1]] },
            v2: RasterVertex { screen: sc, varying: vs_output.attributes[indices[2]] },
            winding: self.winding,
        };
        proof {
            if sampler is None {
                assert(vs_output.attributes@[indices[0] as int].is_colour());
                assert(vs_output.attributes@[indices[1] as int].is_colour());
                assert(vs_output.attributes@[indices[2] as int].is_colour());
            }
        }
        rasterize_triangle(out, &tri, sampler);
    }
}

/// The vertex stage's output is in range: positions in the view volume, and
/// attributes well formed.
pub open spec fn stage_output_valid(positions: Seq<Vec4>, attributes: Seq<Varying>) -> bool {
    &&& attributes.len() == positions.len()
    &&& forall|k: int|
        0 <= k < positions.len() ==> #[trigger] positions[k].in_range() && in_view_volume(
            positions[k],
        )
    &&& forall|k: int| 0 <= k < attributes.len() ==> #[trigger] attributes[k].wf()
}

/// A triangle the fragment stage rasterizes is well formed.
pub proof fn lemma_raster_triangle_of_wf(
    width: int,
    height: int,
    positions: Seq<Vec4>,
    attributes: Seq<Varying>,
    tri: (usize, usize, usize),
    winding: Winding,
)
    requires
        0 <= width < RESOLUTION_LIMIT,
        0 <= height < RESOLUTION_LIMIT,
        stage_output_valid(positions, attributes),
        tri.0 < positions.len(),
        tri.1 < positions.len(),
        tri.2 < positions.len(),
        raster_triangle_of(width, height, positions, attributes, tri, winding) is Some,
    ensures
        raster_triangle_of(width, height, positions, attributes, tri, winding).unwrap().wf(),
{
    assert(positions[tri.0 as int].in_range() && in_view_volume(positions[tri.0 as int]));
    assert(positions[tri.1 as int].in_range() && in_view_volume(positions[tri.1 as int]));
    assert(positions[tri.2 as int].in_range() && in_view_volume(positions[tri.2 as int]));
    assert(attributes[tri.0 as int].wf() && attributes[tri.1 as int].wf() && attributes[tri.2 as int].wf());
    lemma_screen_space_wf(width, height, positions[tri.0 as int]);
    lemma_screen_space_wf(width, height, positions[tri.1 as int]);
    lemma_screen_space_wf(width, height, positions[tri.2 as int]);
}

/// Depth testing through the fragment stage: of two triangles drawn in turn
/// onto a pixel whose depth was cleared, where both cover the pixel and the
/// second is no farther there, the pixel ends with the second's colour.
pub proof fn lemma_fragment_stage_nearer_wins(
    width: int,
    height: int,
    positions: Seq<Vec4>,
    attributes: Seq<Varying>,
    indices: Seq<usize>,
    sampler: Option<Sampler>,
    winding: Winding,
    depths: Seq<u32>,
    colours: Seq<u32>,
    k: int,
)
    requires
        0 <= width < RESOLUTION_LIMIT,
        0 <= height < RESOLUTION_LIMIT,
        stage_output_valid(positions, attributes),
        indices.len() == 6,
        forall|m: int| 0 <= m < 6 ==> #[trigger] indices[m] < positions.len(),
        0 <= k < depths.len(),
        colours.len() == depths.len(),
        depths[k] == DEPTH_CLEAR,
        ({
            let first = raster_triangle_of(width, height, positions, attributes, triangle_at(indices, 0), winding);
            let second = raster_triangle_of(width, height, positions, attributes, triangle_at(indices, 1), winding);
            &&& first is Some
            &&& second is Some
            &&& first.unwrap().covers(width, height, k % width, k / width)
            &&& second.unwrap().covers(width, height, k % width, k / width)
            &&& second.unwrap().depth_at(k % width, k / width) <= first.unwrap().depth_at(k % width, k / width)
        }),
    ensures
        fragment_stage(width, height, positions, attributes, indices, sampler, winding, depths, colours, 2).1[k]
            == shade(
            sampler,
            raster_triangle_of(width, height, positions, attributes, triangle_at(indices, 1), winding).unwrap().varying_at(
                k % width,
                k / width,
            ),
        ),
{
    let t0 = triangle_at(indices, 0);
    let t1 = triangle_at(indices, 1);
    assert(indices[0] < positions.len() && indices[1] < positions.len() && indices[2] < positions.len());
    assert(indices[3] < positions.len() && indices[4] < positions.len() && indices[5] < positions.len());
    lemma_raster_triangle_of_wf(width, height, positions, attributes, t0, winding);
    lemma_raster_triangle_of_wf(width, height, positions, attributes, t1, winding);
    let first = raster_triangle_of(width, height, positions, attributes, t0, winding).unwrap();
    let second = raster_triangle_of(width, height, positions, attributes, t1, winding).unwrap();
    assert(fragment_stage(width, height, positions, attributes, indices, sampler, winding, depths, colours, 0) == (depths, colours));
    let d1 = rasterized_depths(first, width, height, depths);
    let c1 = rasterized_colours(first, width, height, depths, colours, sampler);
    assert(fragment_stage(width, height, positions, attributes, indices, sampler, winding, depths, colours, 1) == (d1, c1));
    assert(fragment_stage(width, height, positions, attributes, indices, sampler, winding, depths, colours, 2)
        == (rasterized_depths(second, width, height, d1), rasterized_colours(second, width, height, d1, c1, sampler)));
    lemma_nearer_triangle_wins(first, second, width, height, depths, colours, sampler, sampler, k);
}

/// Perspective-correct interpolation through the fragment stage: where a
/// triangle's first vertex falls on a pixel centre that the triangle covers and
/// the depth test passes, the pixel takes that vertex's attribute exactly.
pub proof fn lemma_fragment_stage_at_vertex(
    width: int,
    height: int,
    positions: Seq<Vec4>,
    attributes: Seq<Varying>,
    indices: Seq<usize>,
    sampler: Option<Sampler>,
    winding: Winding,
    depths: Seq<u32>,
    colours: Seq<u32>,
    k: int,
)
    requires
        0 <= width < RESOLUTION_LIMIT,
        0 <= height < RESOLUTION_LIMIT,
        stage_output_valid(positions, attributes),
        indices.len() == 3,
        forall|m: int| 0 <= m < 3 ==> #[trigger] indices[m] < positions.len(),
        0 <= k < depths.len(),
        colours.len() == depths.len(),
        ({
            let t = raster_triangle_of(width, height, positions, attributes, triangle_at(indices, 0), winding);
            &&& t is Some
            &&& t.unwrap().covers(width, height, k % width, k / width)
            &&& crate::raster::pixel_centre(k % width, k / width) == t.unwrap().v0.screen.position
            &&& t.unwrap().v0.screen.depth <= depths[k]
        }),
    ensures
        ({
            let a = attributes[indices[0] as int];
            fragment_stage(width, height, positions, attributes, indices, sampler, winding, depths, colours, 1).1[k]
                == shade(sampler, (a.c0 as int, a.c1 as int, a.c2 as int))
        }),
{
    let t0 = triangle_at(indices, 0);
    assert(indices[0] < positions.len() && indices[1] < positions.len() && indices[2] < positions.len());
    lemma_raster_triangle_of_wf(width, height, positions, attributes, t0, winding);
    let t = raster_triangle_of(width, height, positions, attributes, t0, winding).unwrap();
    lemma_fragment_at_vertex(t, width, height, k % width, k / width);
    assert(fragment_stage(width, height, positions, attributes, indices, sampler, winding, depths, colours, 0) == (depths, colours));
    assert(t.passes(width, height, k % width, k / width, depths[k]));
}

/// The four corners of the view volume's cross-section at depth `z`, from the
/// top-left corner counter-clockwise on the screen.
pub open spec fn quad_positions(z: i64, w: i64) -> Seq<Vec4> {
    seq![
        Vec4 { x: (-w) as i64, y: w, z, w },
        Vec4 { x: (-w) as i64, y: (-w) as i64, z, w },
        Vec4 { x: w, y: (-w) as i64, z, w },
        Vec4 { x: w, y: w, z, w },
    ]
}

proof fn lemma_div_exact(a: int, d: int)
    requires
        d > 0,
    ensures
        (a * d) / d == a,
        (0 * d) / d == 0,
{
    lemma_div_bounds(a * d, d);
    lemma_div_bounds(0 * d, d);
    assert((a * d) / d == a) by (nonlinear_arith)
        requires
            d > 0,
            d * ((a * d) / d) <= a * d < d * ((a * d) / d) + d,
    ;
    assert((0 * d) / d == 0) by (nonlinear_arith)
        requires
            d > 0,
            d * ((0 * d) / d) <= 0 * d < d * ((0 * d) / d) + d,
    ;
}

/// A quad filling the view volume's cross-section, drawn as the two triangles
/// `0, 1, 2` and `2, 3, 0` in one colour onto a cleared surface, gives every
/// pixel that colour.
pub proof fn lemma_fragment_stage_full_screen_quad(
    width: int,
    height: int,
    z: i64,
    w: i64,
    colour: Varying,
    depths: Seq<u32>,
    colours: Seq<u32>,
)
    requires
        0 < width < RESOLUTION_LIMIT,
        0 < height < RESOLUTION_LIMIT,
        0 < w <= CLIP_LIMIT,
        0 <= z <= w,
        colour.is_colour(),
        depths.len() == width * height,
        colours.len() == width * height,
        forall|k: int| 0 <= k < depths.len() ==> #[trigger] depths[k] == DEPTH_CLEAR,
    ensures
        ({
            let out = fragment_stage(
                width,
                height,
                quad_positions(z, w),
                seq![colour, colour, colour, colour],
                seq![0usize, 1, 2, 2, 3, 0],
                None,
                Winding::CounterClockwise,
                depths,
                colours,
                2,
            ).1;
            &&& out.len() == width * height
            &&& forall|k: int|
                0 <= k < out.len() ==> #[trigger] out[k] == argb(
                    255,
                    colour.c0 as u8,
                    colour.c1 as u8,
                    colour.c2 as u8,
                ) as u32
        }),
{
    let positions = quad_positions(z, w);
    let attributes = seq![colour, colour, colour, colour];
    let indices = seq![0usize, 1, 2, 2, 3, 0];
    let (sw, sh) = (width * SUBPIXEL, height * SUBPIXEL);
    let wi = w as int;
    lemma_div_exact(sw, 2 * wi);
    lemma_div_exact(sh, 2 * wi);
    assert(sw * (-wi + wi) == 0 * (2 * wi) && sw * (wi + wi) == sw * (2 * wi)) by (nonlinear_arith);
    assert(sh * (wi - wi) == 0 * (2 * wi) && sh * (wi - -wi) == sh * (2 * wi)) by (nonlinear_arith);
    crate::raster::lemma_div_within(DEPTH_ONE * z, wi, DEPTH_ONE as int);
    assert(0 <= DEPTH_ONE * z <= DEPTH_ONE * wi) by (nonlinear_arith)
        requires
            0 <= z <= wi,
    ;
    let depth = ((DEPTH_ONE * z) / wi) as i64;
    let lower = lower_half(width, height, depth, w, colour);
    let upper = upper_half(width, height, depth, w, colour);
    assert(sw * sh > 0) by (nonlinear_arith)
        requires
            sw > 0,
            sh > 0,
    ;
    assert(crate::raster::edge_value(lower.v2.screen.position, lower.v0.screen.position, lower.v1.screen.position) == -(sh * sw)) by (nonlinear_arith)
        requires
            lower.v0.screen.position.x == 0 && lower.v0.screen.position.y == 0,
            lower.v1.screen.position.x == 0 && lower.v1.screen.position.y == sh,
            lower.v2.screen.position.x == sw && lower.v2.screen.position.y == sh,
    ;
    assert(crate::raster::edge_value(upper.v2.screen.position, upper.v0.screen.position, upper.v1.screen.position) == -(sh * sw)) by (nonlinear_arith)
        requires
            upper.v0.screen.position.x == sw && upper.v0.screen.position.y == sh,
            upper.v1.screen.position.x == sw && upper.v1.screen.position.y == 0,
            upper.v2.screen.position.x == 0 && upper.v2.screen.position.y == 0,
    ;
    assert(raster_triangle_of(width, height, positions, attributes, triangle_at(indices, 0), Winding::CounterClockwise) == Some(lower));
    assert(raster_triangle_of(width, height, positions, attributes, triangle_at(indices, 1), Winding::CounterClockwise) == Some(upper));
    assert(fragment_stage(width, height, positions, attributes, indices, None, Winding::CounterClockwise, depths, colours, 0) == (depths, colours));
    let d1 = rasterized_depths(lower, width, height, depths);
    let c1 = rasterized_colours(lower, width, height, depths, colours, None);
    assert(fragment_stage(width, height, positions, attributes, indices, None, Winding::CounterClockwise, depths, colours, 1) == (d1, c1));
    assert(fragment_stage(width, height, positions, attributes, indices, None, Winding::CounterClockwise, depths, colours, 2)
        == (rasterized_depths(upper, width, height, d1), rasterized_colours(upper, width, height, d1, c1, None)));
    lemma_full_screen_quad(width, height, depth, w, colour, depths, colours);
}

} // verus!
