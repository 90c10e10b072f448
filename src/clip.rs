use vstd::prelude::*;
use crate::fixed::lerp_floor;
use crate::fixed::lerp_ceil;
use crate::fixed::lerp_floor_exec;
use crate::fixed::lerp_ceil_exec;
use crate::fixed::lemma_lerp_between;
use crate::fixed::lemma_div_bounds;

verus! {

/// Largest magnitude of a clip-space coordinate.
pub const CLIP_LIMIT: i64 = 4294967296;

/// Number of planes bounding the view volume.
pub const PLANE_COUNT: usize = 6;

/// A homogeneous clip-space position in fixed point. Scaling all four
/// components by the same positive factor names the same point.
#[derive(Clone, Copy, Debug, PartialEq, Eq, Structural)]
pub struct Vec4 {
    pub x: i64,
    pub y: i64,
    pub z: i64,
    pub w: i64,
}

pub open spec fn within_clip_limit(c: i64) -> bool {
    -CLIP_LIMIT <= c <= CLIP_LIMIT
}

impl Vec4 {
    pub fn new(x: i64, y: i64, z: i64, w: i64) -> (r: Vec4)
        ensures
            r == (Vec4 { x, y, z, w }),
    {
        Vec4 { x, y, z, w }
    }

    /// Every component is within the clip-space range.
    pub open spec fn in_range(self) -> bool {
        within_clip_limit(self.x) && within_clip_limit(self.y) && within_clip_limit(self.z)
            && within_clip_limit(self.w)
    }
}

/// A fraction `num / den` in `[0, 1)`.
#[derive(Clone, Copy, Debug, PartialEq, Eq, Structural)]
pub struct Fraction {
    pub num: u64,
    pub den: u64,
}

impl Fraction {
    pub open spec fn wf(self) -> bool {
        self.num < self.den <= 4 * CLIP_LIMIT
    }

    pub open spec fn zero() -> Fraction {
        Fraction { num: 0, den: 1 }
    }
}

/// A clipped vertex with its provenance: it lies on the edge of the input
/// triangle from vertex `source_edge` to vertex `(source_edge + 1) % 3`, at
/// parameter `t`. A zero `t` marks an unmodified input vertex.
#[derive(Clone, Copy, Debug, PartialEq, Eq, Structural)]
pub struct ClipVertex {
    pub position: Vec4,
    pub source_edge: usize,
    pub t: Fraction,
}

impl ClipVertex {
    pub open spec fn wf(self) -> bool {
        self.position.in_range() && self.source_edge < 3 && self.t.wf()
    }

    /// The unmodified input vertex `index` at `position`.
    pub open spec fn unclipped(position: Vec4, index: usize) -> ClipVertex {
        ClipVertex { position, source_edge: index, t: Fraction::zero() }
    }
}

/// The signed distance-like value of `v` against one of the six planes
/// `-w <= x`, `x <= w`, `-w <= y`, `y <= w`, `0 <= z` (near), `z <= w` (far).
pub open spec fn plane_value(plane: int, v: Vec4) -> int {
    if plane == 0 {
        v.w + v.x
    } else if plane == 1 {
        v.w - v.x
    } else if plane == 2 {
        v.w + v.y
    } else if plane == 3 {
        v.w - v.y
    } else if plane == 4 {
        v.z as int
    } else {
        v.w - v.z
    }
}

pub open spec fn inside(plane: int, v: Vec4) -> bool {
    plane_value(plane, v) >= 0
}

pub open spec fn in_view_volume(v: Vec4) -> bool {
    forall|k: int| 0 <= k < 6 ==> #[trigger] inside(k, v)
}

/// The two endpoints lie strictly on opposite sides of the plane.
pub open spec fn crosses(plane: int, a: Vec4, b: Vec4) -> bool {
    (plane_value(plane, a) > 0 && plane_value(plane, b) < 0) || (plane_value(plane, a) < 0
        && plane_value(plane, b) > 0)
}

pub open spec fn abs(v: int) -> int {
    if v < 0 { -v } else { v }
}

/// Where the segment from `a` to `b` meets the plane, as the fraction of the way
/// from `a`; `None` where it does not cross the plane strictly inside the segment.
pub open spec fn spec_homogenous_clip(a: Vec4, b: Vec4, plane: int) -> Option<Fraction> {
    if crosses(plane, a, b) {
        Some(
            Fraction {
                num: abs(plane_value(plane, a)) as u64,
                den: (abs(plane_value(plane, a)) + abs(plane_value(plane, b))) as u64,
            },
        )
    } else {
        None
    }
}

/// The point at parameter `t` on the segment from `a` to `b`, with `w` rounded
/// up and the other components rounded down, so that every plane inequality that
/// holds at the exact point holds at the rounded one.
pub open spec fn spec_lerp(a: Vec4, b: Vec4, t: Fraction) -> Vec4 {
    Vec4 {
        x: lerp_floor(a.x as int, b.x as int, t.num as int, t.den as int) as i64,
        y: lerp_floor(a.y as int, b.y as int, t.num as int, t.den as int) as i64,
        z: lerp_floor(a.z as int, b.z as int, t.num as int, t.den as int) as i64,
        w: lerp_ceil(a.w as int, b.w as int, t.num as int, t.den as int) as i64,
    }
}

/// Evaluates a plane's value at `v`.
pub fn plane_dot(plane: usize, v: Vec4) -> (r: i64)
    requires
        plane < PLANE_COUNT,
        v.in_range(),
    ensures
        r == plane_value(plane as int, v),
{
    if plane == 0 {
        v.w + v.x
    } else if plane == 1 {
        v.w - v.x
    } else if plane == 2 {
        v.w + v.y
    } else if plane == 3 {
        v.w - v.y
    } else if plane == 4 {
        v.z
    } else {
        v.w - v.z
    }
}

/// The crossing parameter of the segment `a`..`b` with a plane. With integer
/// coordinates the parameter `-(p.a) / (p.(b - a))` is exact: it lies strictly
/// between 0 and 1 exactly when the endpoints are strictly on opposite sides,
/// and a zero denominator means no crossing.
pub fn homogenous_clip(a: Vec4, b: Vec4, plane: usize) -> (r: Option<Fraction>)
    requires
        a.in_range(),
        b.in_range(),
        plane < PLANE_COUNT,
    ensures
        r == spec_homogenous_clip(a, b, plane as int),
        r matches Some(t) ==> 0 < t.num < t.den <= 4 * CLIP_LIMIT,
{
    let fa = plane_dot(plane, a);
    let fb = plane_dot(plane, b);
    if (fa > 0 && fb < 0) || (fa < 0 && fb > 0) {
        let na: u64 = if fa < 0 { (-fa) as u64 } else { fa as u64 };
        let nb: u64 = if fb < 0 { (-fb) as u64 } else { fb as u64 };
        Some(Fraction { num: na, den: na + nb })
    } else {
        None
    }
}

/// A plane value of the rounded point is non-negative where the exact point's
/// value, scaled by `d`, is: `w` is rounded up, the other coordinate down.
proof fn lemma_rounded_side(
    d: int,
    fa: int,
    fv: int,
    ew: int,
    qc: int,
    dw: int,
    dc: int,
    has_w: bool,
    positive: bool,
)
    requires
        d > 0,
        fv == fa + (if has_w { ew } else { 0 }) + (if positive { qc } else { -qc }),
        d * ew >= dw,
        d * qc <= dc < d * qc + d,
        d * fa + (if has_w { dw } else { 0 }) + (if positive { dc } else { -dc }) >= 0,
    ensures
        fv >= 0,
{
    if !has_w {
        if positive {
            assert(fv >= 0) by (nonlinear_arith)
                requires
                    d > 0,
                    fv == fa + qc,
                    dc < d * qc + d,
                    d * fa + dc >= 0,
            ;
        } else {
            assert(fv >= 0) by (nonlinear_arith)
                requires
                    d > 0,
                    fv == fa - qc,
                    d * qc <= dc,
                    d * fa - dc >= 0,
            ;
        }
    } else {
        if positive {
            assert(fv >= 0) by (nonlinear_arith)
                requires
                    d > 0,
                    fv == fa + ew + qc,
                    d * ew >= dw,
                    dc < d * qc + d,
                    d * fa + dw + dc >= 0,
            ;
        } else {
            assert(fv >= 0) by (nonlinear_arith)
                requires
                    d > 0,
                    fv == fa + ew - qc,
                    d * ew >= dw,
                    d * qc <= dc,
                    d * fa + dw - dc >= 0,
            ;
        }
    }
}

/// The rounded point at parameter `n / d` between `a` and `b` is inside every
/// plane for which the weighted combination `(d - n) * f(a) + n * f(b)` of the
/// endpoints' values is non-negative.
pub proof fn lemma_lerp_inside(plane: int, a: Vec4, b: Vec4, t: Fraction)
    requires
        0 <= plane < 6,
        0 < t.num < t.den,
        a.in_range(),
        b.in_range(),
        (t.den - t.num) * plane_value(plane, a) + t.num * plane_value(plane, b) >= 0,
    ensures
        inside(plane, spec_lerp(a, b, t)),
        spec_lerp(a, b, t).in_range(),
{
    let n = t.num as int;
    let d = t.den as int;
    let v = spec_lerp(a, b, t);
    lemma_lerp_between(a.x as int, b.x as int, n, d);
    lemma_lerp_between(a.y as int, b.y as int, n, d);
    lemma_lerp_between(a.z as int, b.z as int, n, d);
    lemma_lerp_between(a.w as int, b.w as int, n, d);
    let qw = ((a.w - b.w) * n) / d;
    lemma_div_bounds((a.w - b.w) * n, d);
    let ew = -qw;
    let dw = (b.w - a.w) * n;
    assert(d * ew >= dw) by (nonlinear_arith)
        requires
            d * qw <= (a.w - b.w) * n,
            ew == -qw,
            dw == (b.w - a.w) * n,
    ;
    let has_w = plane != 4;
    let positive = plane == 0 || plane == 2 || plane == 4;
    let (ac, bc) = if plane <= 1 {
        (a.x as int, b.x as int)
    } else if plane <= 3 {
        (a.y as int, b.y as int)
    } else {
        (a.z as int, b.z as int)
    };
    let dc = (bc - ac) * n;
    let qc = dc / d;
    lemma_div_bounds(dc, d);
    let fa = plane_value(plane, a);
    let fb = plane_value(plane, b);
    let wd = if has_w { b.w - a.w } else { 0 };
    let cd = if positive { bc - ac } else { ac - bc };
    assert(fb - fa == wd + cd);
    assert((d - n) * fa + n * fb == d * fa + n * wd + n * cd) by (nonlinear_arith)
        requires
            fb - fa == wd + cd,
    ;
    assert(n * wd == (if has_w { dw } else { 0 })) by (nonlinear_arith)
        requires
            dw == (b.w - a.w) * n,
            wd == if has_w { b.w - a.w } else { 0 },
    ;
    assert(n * cd == (if positive { dc } else { -dc })) by (nonlinear_arith)
        requires
            dc == (bc - ac) * n,
            cd == if positive { bc - ac } else { ac - bc },
    ;
    lemma_rounded_side(d, fa, plane_value(plane, v), ew, qc, dw, dc, has_w, positive);
}

/// A crossing point lies inside the plane it was cut at, and inside every plane
/// that holds both endpoints.
pub proof fn lemma_crossing_inside(plane: int, other: int, a: Vec4, b: Vec4)
    requires
        0 <= plane < 6,
        0 <= other < 6,
        a.in_range(),
        b.in_range(),
        crosses(plane, a, b),
    ensures
        ({
            let t = spec_homogenous_clip(a, b, plane).unwrap();
            &&& 0 < t.num < t.den
            &&& inside(plane, spec_lerp(a, b, t))
            &&& spec_lerp(a, b, t).in_range()
            &&& (inside(other, a) && inside(other, b)) ==> inside(other, spec_lerp(a, b, t))
        }),
{
    let t = spec_homogenous_clip(a, b, plane).unwrap();
    let fa = plane_value(plane, a);
    let fb = plane_value(plane, b);
    let n = t.num as int;
    let d = t.den as int;
    assert((d - n) * fa + n * fb == 0) by (nonlinear_arith)
        requires
            (fa > 0 && fb < 0) || (fa < 0 && fb > 0),
            n == abs(fa),
            d == abs(fa) + abs(fb),
    ;
    lemma_lerp_inside(plane, a, b, t);
    if inside(other, a) && inside(other, b) {
        let ga = plane_value(other, a);
        let gb = plane_value(other, b);
        assert((d - n) * ga + n * gb >= 0) by (nonlinear_arith)
            requires
                ga >= 0,
                gb >= 0,
                0 < n < d,
        ;
        lemma_lerp_inside(other, a, b, t);
    }
}

/// The point at parameter `t` on the segment from `a` to `b` (see `spec_lerp`).
pub fn lerp(a: Vec4, b: Vec4, t: Fraction) -> (r: Vec4)
    requires
        a.in_range(),
        b.in_range(),
        0 < t.num < t.den <= 4 * CLIP_LIMIT,
    ensures
        r == spec_lerp(a, b, t),
{
    Vec4 {
        x: lerp_floor_exec(a.x, b.x, t.num, t.den),
        y: lerp_floor_exec(a.y, b.y, t.num, t.den),
        z: lerp_floor_exec(a.z, b.z, t.num, t.den),
        w: lerp_ceil_exec(a.w, b.w, t.num, t.den),
    }
}

/// All three vertices lie strictly outside the plane.
pub open spec fn all_outside(plane: int, a: Vec4, b: Vec4, c: Vec4) -> bool {
    !inside(plane, a) && !inside(plane, b) && !inside(plane, c)
}

/// Some single plane has all three vertices strictly outside it.
pub open spec fn trivially_outside(a: Vec4, b: Vec4, c: Vec4) -> bool {
    exists|plane: int| 0 <= plane < 6 && #[trigger] all_outside(plane, a, b, c)
}

/// The cheap full-reject test: all three vertices beyond the same plane
/// (`x > w`, `x < -w`, `y > w`, `y < -w`, `z > w` or `z < 0`).
pub fn should_cull_triangle(v1: Vec4, v2: Vec4, v3: Vec4) -> (r: bool)
    requires
        v1.in_range(),
        v2.in_range(),
        v3.in_range(),
    ensures
        r == trivially_outside(v1, v2, v3),
{
    let mut plane: usize = 0;
    while plane < PLANE_COUNT
        invariant
            plane <= PLANE_COUNT,
            v1.in_range(),
            v2.in_range(),
            v3.in_range(),
            forall|k: int| 0 <= k < plane ==> !#[trigger] all_outside(k, v1, v2, v3),
        decreases PLANE_COUNT - plane,
    {
        if plane_dot(plane, v1) < 0 && plane_dot(plane, v2) < 0 && plane_dot(plane, v3) < 0 {
            assert(all_outside(plane as int, v1, v2, v3));
            return true;
        }
        plane += 1;
    }
    false
}

/// Strictly inside the view volume on every plane.
pub open spec fn strictly_inside(v: Vec4) -> bool {
    forall|k: int| 0 <= k < 6 ==> #[trigger] plane_value(k, v) > 0
}

/// At least one vertex lies strictly inside the view volume.
pub fn triangle_in_bounds(v1: Vec4, v2: Vec4, v3: Vec4) -> (r: bool)
    requires
        v1.in_range(),
        v2.in_range(),
        v3.in_range(),
    ensures
        r == (strictly_inside(v1) || strictly_inside(v2) || strictly_inside(v3)),
{
    vertex_in_bounds(v1) || vertex_in_bounds(v2) || vertex_in_bounds(v3)
}

fn vertex_in_bounds(v: Vec4) -> (r: bool)
    requires
        v.in_range(),
    ensures
        r == strictly_inside(v),
{
    let r = v.x > -v.w && v.x < v.w && v.y > -v.w && v.y < v.w && v.z > 0 && v.z < v.w;
    assert(r ==> strictly_inside(v));
    assert(strictly_inside(v) ==> r) by {
        if strictly_inside(v) {
            assert(plane_value(0, v) > 0);
            assert(plane_value(1, v) > 0);
            assert(plane_value(2, v) > 0);
            assert(plane_value(3, v) > 0);
            assert(plane_value(4, v) > 0);
            assert(plane_value(5, v) > 0);
        }
    }
    r
}

/// What the edge from `poly[i]` to its successor contributes when clipping the
/// polygon against a plane: the start vertex if it is inside, then the crossing
/// point if the edge crosses the plane.
pub open spec fn stage_step(poly: Seq<ClipVertex>, plane: int, i: int) -> Seq<ClipVertex> {
    let cur = poly[i];
    let next = poly[(i + 1) % (poly.len() as int)];
    let kept: Seq<ClipVertex> = if inside(plane, cur.position) {
        seq![cur]
    } else {
        Seq::empty()
    };
    match spec_homogenous_clip(cur.position, next.position, plane) {
        Some(t) => kept.push(
            ClipVertex {
                position: spec_lerp(cur.position, next.position, t),
                source_edge: cur.source_edge,
                t,
            },
        ),
        None => kept,
    }
}

/// The contributions of the first `i` edges.
pub open spec fn stage_prefix(poly: Seq<ClipVertex>, plane: int, i: nat) -> Seq<ClipVertex>
    decreases i,
{
    if i == 0 {
        Seq::empty()
    } else {
        stage_prefix(poly, plane, (i - 1) as nat) + stage_step(poly, plane, i - 1)
    }
}

/// One Sutherland-Hodgman pass of the polygon against one plane.
pub open spec fn clip_stage(poly: Seq<ClipVertex>, plane: int) -> Seq<ClipVertex> {
    stage_prefix(poly, plane, poly.len())
}

/// The passes against the first `count` planes, in order.
pub open spec fn clip_stages(poly: Seq<ClipVertex>, count: nat) -> Seq<ClipVertex>
    decreases count,
{
    if count == 0 {
        poly
    } else {
        clip_stage(clip_stages(poly, (count - 1) as nat), count - 1)
    }
}

/// The three input vertices with their integral provenance.
pub open spec fn input_triangle(a: Vec4, b: Vec4, c: Vec4) -> Seq<ClipVertex> {
    seq![ClipVertex::unclipped(a, 0), ClipVertex::unclipped(b, 1), ClipVertex::unclipped(c, 2)]
}

/// The clipped polygon of a triangle: empty when one plane rejects all three
/// vertices, otherwise the passes against all six planes.
pub open spec fn spec_clip_triangle(a: Vec4, b: Vec4, c: Vec4) -> Seq<ClipVertex> {
    if trivially_outside(a, b, c) {
        Seq::empty()
    } else {
        clip_stages(input_triangle(a, b, c), 6)
    }
}

pub open spec fn all_wf(poly: Seq<ClipVertex>) -> bool {
    forall|m: int| 0 <= m < poly.len() ==> #[trigger] poly[m].wf()
}

pub open spec fn all_inside(poly: Seq<ClipVertex>, plane: int) -> bool {
    forall|m: int| 0 <= m < poly.len() ==> #[trigger] inside(plane, poly[m].position)
}

/// The triangle straddles `plane` alone: exactly one vertex lies strictly
/// outside it and the other two strictly inside it, and all three lie inside
/// every other plane.
pub open spec fn straddles_one_plane(plane: int, a: Vec4, b: Vec4, c: Vec4) -> bool {
    &&& 0 <= plane < 6
    &&& forall|j: int|
        0 <= j < 6 && j != plane ==> inside(j, a) && inside(j, b) && #[trigger] inside(j, c)
    &&& {
        let (fa, fb, fc) = (plane_value(plane, a), plane_value(plane, b), plane_value(plane, c));
        ||| (fa < 0 && fb > 0 && fc > 0)
        ||| (fa > 0 && fb < 0 && fc > 0)
        ||| (fa > 0 && fb > 0 && fc < 0)
    }
}

/// Each vertex of a pass is well formed and inside the plane, and inside every
/// other plane that held all vertices of the input.
proof fn lemma_stage_prefix(poly: Seq<ClipVertex>, plane: int, i: nat)
    requires
        0 <= plane < 6,
        i <= poly.len(),
        all_wf(poly),
    ensures
        stage_prefix(poly, plane, i).len() <= 2 * i,
        all_wf(stage_prefix(poly, plane, i)),
        all_inside(stage_prefix(poly, plane, i), plane),
        forall|j: int|
            0 <= j < 6 && #[trigger] all_inside(poly, j) ==> all_inside(
                stage_prefix(poly, plane, i),
                j,
            ),
    decreases i,
{
    if i > 0 {
        let k = i - 1;
        lemma_stage_prefix(poly, plane, (i - 1) as nat);
        let cur = poly[k];
        let next = poly[(k + 1) % (poly.len() as int)];
        let prev = stage_prefix(poly, plane, (i - 1) as nat);
        let step = stage_step(poly, plane, k);
        let all = stage_prefix(poly, plane, i);
        assert(all == prev + step);
        assert(cur.wf());
        assert(next.wf());
        if crosses(plane, cur.position, next.position) {
            lemma_crossing_inside(plane, plane, cur.position, next.position);
        }
        assert(all_wf(all)) by {
            assert forall|m: int| 0 <= m < all.len() implies #[trigger] all[m].wf() by {
                if m >= prev.len() {
                    assert(step[m - prev.len()].wf());
                }
            }
        }
        assert(all_inside(all, plane)) by {
            assert forall|m: int| 0 <= m < all.len() implies #[trigger] inside(
                plane,
                all[m].position,
            ) by {
                if m >= prev.len() {
                    assert(inside(plane, step[m - prev.len()].position));
                }
            }
        }
        assert forall|j: int| 0 <= j < 6 && #[trigger] all_inside(poly, j) implies all_inside(
            all,
            j,
        ) by {
            assert(inside(j, cur.position));
            assert(inside(j, next.position));
            if crosses(plane, cur.position, next.position) {
                lemma_crossing_inside(plane, j, cur.position, next.position);
            }
            assert forall|m: int| 0 <= m < all.len() implies #[trigger] inside(
                j,
                all[m].position,
            ) by {
                if m >= prev.len() {
                    assert(inside(j, step[m - prev.len()].position));
                } else {
                    assert(all_inside(prev, j));
                    assert(inside(j, prev[m].position));
                }
            }
        }
    }
}

/// A pass leaves a polygon that lies wholly inside the plane unchanged.
proof fn lemma_stage_keeps_inside(poly: Seq<ClipVertex>, plane: int, i: nat)
    requires
        0 <= plane < 6,
        i <= poly.len(),
        all_inside(poly, plane),
    ensures
        stage_prefix(poly, plane, i) == poly.subrange(0, i as int),
    decreases i,
{
    if i > 0 {
        let k = i - 1;
        lemma_stage_keeps_inside(poly, plane, (i - 1) as nat);
        let next = poly[(k + 1) % (poly.len() as int)];
        assert(inside(plane, poly[k].position));
        assert(inside(plane, next.position));
        assert(stage_step(poly, plane, k) == seq![poly[k]]);
        assert(stage_prefix(poly, plane, i) =~= poly.subrange(0, i as int));
    }
}

/// A triangle with one vertex strictly outside the plane and two strictly
/// inside it becomes a quadrilateral.
proof fn lemma_stage_straddle(poly: Seq<ClipVertex>, plane: int)
    requires
        0 <= plane < 6,
        poly.len() == 3,
        ({
            let (fa, fb, fc) = (
                plane_value(plane, poly[0].position),
                plane_value(plane, poly[1].position),
                plane_value(plane, poly[2].position),
            );
            ||| (fa < 0 && fb > 0 && fc > 0)
            ||| (fa > 0 && fb < 0 && fc > 0)
            ||| (fa > 0 && fb > 0 && fc < 0)
        }),
    ensures
        clip_stage(poly, plane).len() == 4,
{
    let s0 = stage_step(poly, plane, 0);
    let s1 = stage_step(poly, plane, 1);
    let s2 = stage_step(poly, plane, 2);
    assert(stage_prefix(poly, plane, 0).len() == 0);
    assert(stage_prefix(poly, plane, 1).len() == s0.len());
    assert(stage_prefix(poly, plane, 2).len() == s0.len() + s1.len());
    assert(stage_prefix(poly, plane, 3).len() == s0.len() + s1.len() + s2.len());
    assert((0int + 1) % 3 == 1);
    assert((1int + 1) % 3 == 2);
    assert((2int + 1) % 3 == 0);
    assert(s0.len() + s1.len() + s2.len() == 4);
}

/// After the passes against the first `count` planes every vertex is well
/// formed and inside each of those planes.
proof fn lemma_stages_inside(poly: Seq<ClipVertex>, count: nat)
    requires
        count <= 6,
        all_wf(poly),
    ensures
        all_wf(clip_stages(poly, count)),
        forall|j: int| 0 <= j < count ==> #[trigger] all_inside(clip_stages(poly, count), j),
    decreases count,
{
    if count > 0 {
        let prev = clip_stages(poly, (count - 1) as nat);
        lemma_stages_inside(poly, (count - 1) as nat);
        lemma_stage_prefix(prev, count - 1, prev.len());
        assert forall|j: int| 0 <= j < count implies #[trigger] all_inside(
            clip_stages(poly, count),
            j,
        ) by {
            if j < count - 1 {
                assert(all_inside(prev, j));
            }
        }
    }
}

/// Passes leave a polygon that lies wholly inside the view volume unchanged.
proof fn lemma_stages_keep_inside(poly: Seq<ClipVertex>, count: nat)
    requires
        count <= 6,
        forall|j: int| 0 <= j < 6 ==> #[trigger] all_inside(poly, j),
    ensures
        clip_stages(poly, count) == poly,
    decreases count,
{
    if count > 0 {
        lemma_stages_keep_inside(poly, (count - 1) as nat);
        lemma_stage_keeps_inside(poly, count - 1, poly.len());
        assert(poly.subrange(0, poly.len() as int) =~= poly);
    }
}

/// An empty polygon stays empty.
proof fn lemma_stages_empty(poly: Seq<ClipVertex>, from: nat, count: nat)
    requires
        from <= count,
        clip_stages(poly, from).len() == 0,
    ensures
        clip_stages(poly, count).len() == 0,
    decreases count - from,
{
    if from < count {
        lemma_stages_empty(poly, from, (count - 1) as nat);
    }
}

/// A triangle that straddles one plane alone keeps four vertices through all
/// passes.
proof fn lemma_stages_straddle(poly: Seq<ClipVertex>, plane: int, count: nat)
    requires
        count <= 6,
        0 <= plane < 6,
        poly.len() == 3,
        all_wf(poly),
        forall|j: int| 0 <= j < 6 && j != plane ==> #[trigger] all_inside(poly, j),
        ({
            let (fa, fb, fc) = (
                plane_value(plane, poly[0].position),
                plane_value(plane, poly[1].position),
                plane_value(plane, poly[2].position),
            );
            ||| (fa < 0 && fb > 0 && fc > 0)
            ||| (fa > 0 && fb < 0 && fc > 0)
            ||| (fa > 0 && fb > 0 && fc < 0)
        }),
    ensures
        count <= plane ==> clip_stages(poly, count) == poly,
        count > plane ==> clip_stages(poly, count).len() == 4,
        count > plane ==> forall|j: int|
            0 <= j < 6 && j != plane ==> #[trigger] all_inside(clip_stages(poly, count), j),
    decreases count,
{
    if count > 0 {
        let c = (count - 1) as nat;
        lemma_stages_straddle(poly, plane, c);
        let prev = clip_stages(poly, c);
        if c < plane {
            lemma_stage_keeps_inside(poly, c as int, 3);
            assert(poly.subrange(0, 3) =~= poly);
        } else if c == plane {
            lemma_stage_straddle(poly, plane);
            lemma_stage_prefix(poly, plane, 3);
            assert forall|j: int| 0 <= j < 6 && j != plane implies #[trigger] all_inside(
                clip_stages(poly, count),
                j,
            ) by {
                assert(all_inside(poly, j));
            }
        } else {
            assert(all_inside(prev, c as int));
            lemma_stage_keeps_inside(prev, c as int, prev.len());
            assert(prev.subrange(0, prev.len() as int) =~= prev);
            assert forall|j: int| 0 <= j < 6 && j != plane implies #[trigger] all_inside(
                clip_stages(poly, count),
                j,
            ) by {
                assert(all_inside(prev, j));
            }
        }
    }
}

/// Each pass at most doubles the number of vertices.
proof fn lemma_stages_len(poly: Seq<ClipVertex>, count: nat)
    requires
        count <= 6,
        all_wf(poly),
    ensures
        count == 0 ==> clip_stages(poly, count).len() <= poly.len(),
        count == 1 ==> clip_stages(poly, count).len() <= 2 * poly.len(),
        count == 2 ==> clip_stages(poly, count).len() <= 4 * poly.len(),
        count == 3 ==> clip_stages(poly, count).len() <= 8 * poly.len(),
        count == 4 ==> clip_stages(poly, count).len() <= 16 * poly.len(),
        count == 5 ==> clip_stages(poly, count).len() <= 32 * poly.len(),
        count == 6 ==> clip_stages(poly, count).len() <= 64 * poly.len(),
    decreases count,
{
    if count > 0 {
        let prev = clip_stages(poly, (count - 1) as nat);
        lemma_stages_len(poly, (count - 1) as nat);
        lemma_stages_inside(poly, (count - 1) as nat);
        lemma_stage_prefix(prev, count - 1, prev.len());
    }
}

/// One Sutherland-Hodgman pass of a polygon against one plane.
pub fn clip_against_plane(input: &Vec<ClipVertex>, plane: usize) -> (out: Vec<ClipVertex>)
    requires
        plane < PLANE_COUNT,
        all_wf(input@),
    ensures
        out@ == clip_stage(input@, plane as int),
{
    let n = input.len();
    let mut out: Vec<ClipVertex> = Vec::new();
    let mut i: usize = 0;
    while i < n
        invariant
            n == input.len(),
            i <= n,
            plane < PLANE_COUNT,
            all_wf(input@),
            out@ == stage_prefix(input@, plane as int, i as nat),
        decreases n - i,
    {
        let cur = input[i];
        let next = input[(i + 1) % n];
        assert(cur.wf());
        assert(next.wf());
        let ghost before = out@;
        if plane_dot(plane, cur.position) >= 0 {
            out.push(cur);
        }
        match homogenous_clip(cur.position, next.position, plane) {
            Some(t) => {
                let position = lerp(cur.position, next.position, t);
                out.push(ClipVertex { position, source_edge: cur.source_edge, t });
            },
            None => {},
        }
        assert(out@ =~= before + stage_step(input@, plane as int, i as int));
        i += 1;
    }
    out
}

/// Clips a triangle against the six planes of the view volume. The result is
/// the convex polygon of the part inside, each vertex with its provenance, or
/// nothing when the triangle lies wholly outside.
pub fn clip_homogenous_triangle(vertices: &[Vec4; 3]) -> (r: Vec<ClipVertex>)
    requires
        vertices[0].in_range(),
        vertices[1].in_range(),
        vertices[2].in_range(),
    ensures
        r@ == spec_clip_triangle(vertices[0], vertices[1], vertices[2]),
        r.len() <= 192,
        forall|m: int| 0 <= m < r.len() ==> #[trigger] r[m].wf(),
        forall|m: int| 0 <= m < r.len() ==> #[trigger] in_view_volume(r[m].position),
        (in_view_volume(vertices[0]) && in_view_volume(vertices[1]) && in_view_volume(
            vertices[2],
        )) ==> r@ == input_triangle(vertices[0], vertices[1], vertices[2]),
        trivially_outside(vertices[0], vertices[1], vertices[2]) ==> r.len() == 0,
        forall|plane: int|
            #[trigger] straddles_one_plane(plane, vertices[0], vertices[1], vertices[2]) ==> r.len()
                == 4 && forall|m: int| 0 <= m < r.len() ==> inside(plane, r[m].position),
{
    let a = vertices[0];
    let b = vertices[1];
    let c = vertices[2];
    let ghost init = input_triangle(a, b, c);
    if should_cull_triangle(a, b, c) {
        return Vec::new();
    }
    let mut out: Vec<ClipVertex> = Vec::new();
    out.push(ClipVertex { position: a, source_edge: 0, t: Fraction { num: 0, den: 1 } });
    out.push(ClipVertex { position: b, source_edge: 1, t: Fraction { num: 0, den: 1 } });
    out.push(ClipVertex { position: c, source_edge: 2, t: Fraction { num: 0, den: 1 } });
    assert(out@ =~= init);
    assert(all_wf(init));
    let mut plane: usize = 0;
    while plane < PLANE_COUNT && out.len() > 0
        invariant
            plane <= PLANE_COUNT,
            all_wf(init),
            out@ == clip_stages(init, plane as nat),
        decreases PLANE_COUNT - plane,
    {
        proof {
            lemma_stages_inside(init, plane as nat);
        }
        out = clip_against_plane(&out, plane);
        plane += 1;
    }
    proof {
        if plane < PLANE_COUNT {
            lemma_stages_empty(init, plane as nat, 6);
            assert(out@ =~= clip_stages(init, 6));
        }
        lemma_stages_inside(init, 6);
        lemma_stages_len(init, 6);
        let r = out@;
        assert forall|m: int|
            #![trigger r[m].wf()]
            #![trigger in_view_volume(r[m].position)]
            0 <= m < r.len() implies r[m].wf() && in_view_volume(r[m].position) by {
            assert forall|k: int| 0 <= k < 6 implies #[trigger] inside(k, r[m].position) by {
                assert(all_inside(r, k));
            }
        }
        if in_view_volume(a) && in_view_volume(b) && in_view_volume(c) {
            assert forall|j: int| 0 <= j < 6 implies #[trigger] all_inside(init, j) by {
                assert(inside(j, a) && inside(j, b) && inside(j, c));
            }
            lemma_stages_keep_inside(init, 6);
        }
        assert forall|k: int| #[trigger] straddles_one_plane(k, a, b, c) implies r.len() == 4
            && forall|m: int| 0 <= m < r.len() ==> inside(k, r[m].position) by {
            assert forall|j: int| 0 <= j < 6 && j != k implies #[trigger] all_inside(init, j) by {
                assert(straddles_one_plane(k, a, b, c));
                assert(inside(j, c));
                assert(inside(j, a) && inside(j, b));
                assert(init[0].position == a && init[1].position == b && init[2].position == c);
            }
            lemma_stages_straddle(init, k, 6);
            assert(all_inside(r, k));
        }
    }
    out
}

} // verus!
