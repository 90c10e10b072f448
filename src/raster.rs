use vstd::prelude::*;
use crate::bounding_box::BoundingBox;
use crate::bounding_box::UVec2;
use crate::clip::Vec4;
use crate::clip::CLIP_LIMIT;
use crate::clip::in_view_volume;
use crate::clip::inside;
use crate::fixed::lemma_div_bounds;
use vstd::arithmetic::div_mod::lemma_fundamental_div_mod_converse;
use vstd::arithmetic::div_mod::lemma_fundamental_div_mod;
use crate::surface::RESOLUTION_LIMIT;
use crate::surface::Surface;
use crate::surface::lemma_pixel_index;
use crate::surface::DEPTH_CLEAR;
use crate::sampler::Sampler;
use crate::sampler::UV_ONE;
use crate::color::argb;
use crate::color::u8_to_hex;
use crate::color::from_u8_rgb;
use crate::bounding_box::lemma_intersect_symmetric;
use crate::bounding_box::in_span;

verus! {

/// Subpixel steps per pixel in screen coordinates.
pub const SUBPIXEL: i64 = 16;

/// Half a pixel in subpixel steps: pixel `i` has its centre at
/// `i * SUBPIXEL + HALF_SUBPIXEL`.
pub const HALF_SUBPIXEL: i64 = 8;

/// Fixed-point depth of the far plane (NDC `z` of 1.0).
pub const DEPTH_ONE: i64 = 16777216;

/// Largest screen coordinate, in subpixel steps.
pub const SCREEN_LIMIT: i64 = 1048576;

/// A point in screen space, in subpixel steps, `y` growing downward.
#[derive(Clone, Copy, Debug, PartialEq, Eq, Structural)]
pub struct Point2 {
    pub x: i64,
    pub y: i64,
}

impl Point2 {
    pub open spec fn on_screen(self) -> bool {
        0 <= self.x <= SCREEN_LIMIT && 0 <= self.y <= SCREEN_LIMIT
    }
}

/// A vertex after the perspective divide and the screen mapping: its position,
/// its depth (NDC `z` in fixed point) and its clip-space `w`, which perspective
/// correction divides by.
#[derive(Clone, Copy, Debug, PartialEq, Eq, Structural)]
pub struct ScreenVertex {
    pub position: Point2,
    pub depth: i64,
    pub w: i64,
}

impl ScreenVertex {
    pub open spec fn wf(self) -> bool {
        &&& self.position.on_screen()
        &&& 0 <= self.depth <= DEPTH_ONE
        &&& 0 < self.w <= CLIP_LIMIT
    }
}

/// The screen mapping of a clip-space vertex: `x` from `[-w, w]` to
/// `[0, width]`, `y` from `[-w, w]` to `[height, 0]`, `z / w` to depth.
pub open spec fn spec_to_screen_space(width: int, height: int, v: Vec4) -> ScreenVertex {
    ScreenVertex {
        position: Point2 {
            x: ((SUBPIXEL * width * (v.x + v.w)) / (2 * v.w)) as i64,
            y: ((SUBPIXEL * height * (v.w - v.y)) / (2 * v.w)) as i64,
        },
        depth: ((DEPTH_ONE * v.z) / (v.w as int)) as i64,
        w: v.w,
    }
}

/// `0 <= a <= k * d` bounds `a / d` by `k`.
pub(crate) proof fn lemma_div_within(a: int, d: int, k: int)
    requires
        d > 0,
        k >= 0,
        0 <= a <= k * d,
    ensures
        0 <= a / d <= k,
{
    lemma_div_bounds(a, d);
    let q = a / d;
    assert(0 <= q <= k) by (nonlinear_arith)
        requires
            d > 0,
            d * q <= a < d * q + d,
            0 <= a <= k * d,
    ;
}

/// The screen mapping of a vertex inside the view volume is a well-formed
/// screen vertex.
pub proof fn lemma_screen_space_wf(width: int, height: int, v: Vec4)
    requires
        0 <= width < RESOLUTION_LIMIT,
        0 <= height < RESOLUTION_LIMIT,
        v.in_range(),
        in_view_volume(v),
        v.w > 0,
    ensures
        spec_to_screen_space(width, height, v).wf(),
{
    assert(inside(0, v) && inside(1, v) && inside(2, v) && inside(3, v) && inside(4, v)
        && inside(5, v));
    let w = v.w as int;
    let (sx, sy) = (SUBPIXEL * width, SUBPIXEL * height);
    assert(0 <= sx * (v.x + w) <= sx * (2 * w) && 0 <= sy * (w - v.y) <= sy * (2 * w)
        && 0 <= DEPTH_ONE * v.z <= DEPTH_ONE * w) by (nonlinear_arith)
        requires
            0 <= v.x + w <= 2 * w,
            0 <= w - v.y <= 2 * w,
            0 <= v.z <= w,
            sx >= 0,
            sy >= 0,
    ;
    assert(sx * (2 * w) == sx * (2 * w)) by (nonlinear_arith);
    lemma_div_within(sx * (v.x + w), 2 * w, sx);
    lemma_div_within(sy * (w - v.y), 2 * w, sy);
    lemma_div_within(DEPTH_ONE * v.z, w, DEPTH_ONE as int);
    assert(sx * (2 * w) == sx * (2 * w));
}

/// Perspective divide and screen mapping of a vertex inside the view volume.
pub fn to_screen_space(width: usize, height: usize, v: Vec4) -> (r: ScreenVertex)
    requires
        width < RESOLUTION_LIMIT,
        height < RESOLUTION_LIMIT,
        v.in_range(),
        in_view_volume(v),
        v.w > 0,
    ensures
        r == spec_to_screen_space(width as int, height as int, v),
        r.wf(),
        r.position.x <= SUBPIXEL * width,
        r.position.y <= SUBPIXEL * height,
{
    assert(inside(0, v) && inside(1, v) && inside(2, v) && inside(3, v) && inside(4, v)
        && inside(5, v));
    let w = v.w as u64;
    assert(SUBPIXEL as u64 == 16);
    let sx = (SUBPIXEL as u64) * (width as u64);
    let sy = (SUBPIXEL as u64) * (height as u64);
    let px = (v.x + v.w) as u64;
    let py = (v.w - v.y) as u64;
    assert(sx * px <= sx * (2 * w)) by (nonlinear_arith)
        requires
            px <= 2 * w,
    ;
    assert(sx * (2 * w) <= 0x10_0000 * 0x2_0000_0000) by (nonlinear_arith)
        requires
            sx <= 0x10_0000,
            w <= 0x1_0000_0000,
    ;
    assert(sy * py <= sy * (2 * w)) by (nonlinear_arith)
        requires
            py <= 2 * w,
    ;
    assert(sy * (2 * w) <= 0x10_0000 * 0x2_0000_0000) by (nonlinear_arith)
        requires
            sy <= 0x10_0000,
            w <= 0x1_0000_0000,
    ;
    let z = v.z as u64;
    assert((DEPTH_ONE as u64) * z <= (DEPTH_ONE as u64) * w) by (nonlinear_arith)
        requires
            z <= w,
    ;
    proof {
        assert(sx * (2 * w) == sx * (2 * w as int)) by (nonlinear_arith);
        lemma_div_within(sx * px, 2 * w, sx as int);
        lemma_div_within(sy * py, 2 * w, sy as int);
        lemma_div_within((DEPTH_ONE as u64) * z, w as int, DEPTH_ONE as int);
        assert(sx * (2 * w as int) == (sx as int) * (2 * w as int));
    }
    let x = (sx * px) / (2 * w);
    let y = (sy * py) / (2 * w);
    assert((DEPTH_ONE as u64) * z <= 0x100_0000 * 0x1_0000_0000) by (nonlinear_arith)
        requires
            z <= 0x1_0000_0000,
    ;
    let depth = ((DEPTH_ONE as u64) * z) / w;
    ScreenVertex { position: Point2 { x: x as i64, y: y as i64 }, depth: depth as i64, w: v.w }
}

/// The edge function: twice the signed area of the triangle `a`, `b`, `p`.
pub open spec fn edge_value(p: Point2, a: Point2, b: Point2) -> int {
    (b.x - a.x) * (p.y - a.y) - (b.y - a.y) * (p.x - a.x)
}

/// Evaluates the edge function.
pub fn edge_function(p: Point2, a: Point2, b: Point2) -> (r: i64)
    requires
        p.on_screen(),
        a.on_screen(),
        b.on_screen(),
    ensures
        r == edge_value(p, a, b),
        -WEIGHT_LIMIT <= r <= WEIGHT_LIMIT,
{
    let ex = b.x - a.x;
    let ey = b.y - a.y;
    let tx = p.x - a.x;
    let ty = p.y - a.y;
    assert(-0x100_0000_0000 <= ex * ty <= 0x100_0000_0000) by (nonlinear_arith)
        requires
            -0x10_0000 <= ex <= 0x10_0000,
            -0x10_0000 <= ty <= 0x10_0000,
    ;
    assert(-0x100_0000_0000 <= ey * tx <= 0x100_0000_0000) by (nonlinear_arith)
        requires
            -0x10_0000 <= ey <= 0x10_0000,
            -0x10_0000 <= tx <= 0x10_0000,
    ;
    ex * ty - ey * tx
}

proof fn lemma_edge_sum_ints(px: int, py: int, ax: int, ay: int, bx: int, by: int, cx: int, cy: int)
    ensures
        ((cx - bx) * (py - by) - (cy - by) * (px - bx)) + ((ax - cx) * (py - cy) - (ay - cy) * (px
            - cx)) + ((bx - ax) * (py - ay) - (by - ay) * (px - ax)) == (bx - ax) * (cy - ay) - (by
            - ay) * (cx - ax),
{
    let (qx, qy, ux, uy, vx, vy) = (px - ax, py - ay, bx - ax, by - ay, cx - ax, cy - ay);
    assert((vx - ux) * (qy - uy) == vx * qy - vx * uy - ux * qy + ux * uy) by (nonlinear_arith);
    assert((vy - uy) * (qx - ux) == vy * qx - vy * ux - uy * qx + uy * ux) by (nonlinear_arith);
    assert((0 - vx) * (qy - vy) == vx * vy - vx * qy) by (nonlinear_arith);
    assert((0 - vy) * (qx - vx) == vy * vx - vy * qx) by (nonlinear_arith);
    assert(ux * uy == uy * ux) by (nonlinear_arith);
    assert(vx * vy == vy * vx) by (nonlinear_arith);
    assert(vx * uy == uy * vx) by (nonlinear_arith);
    assert(vy * ux == ux * vy) by (nonlinear_arith);
    assert(cx - bx == vx - ux && py - by == qy - uy && cy - by == vy - uy && px - bx == qx - ux);
    assert(ax - cx == 0 - vx && py - cy == qy - vy && ay - cy == 0 - vy && px - cx == qx - vx);
}

/// The edge values of `p` against the three edges sum to the triangle's own.
pub proof fn lemma_edge_sum(p: Point2, a: Point2, b: Point2, c: Point2)
    ensures
        edge_value(p, b, c) + edge_value(p, c, a) + edge_value(p, a, b) == edge_value(c, a, b),
{
    lemma_edge_sum_ints(
        p.x as int,
        p.y as int,
        a.x as int,
        a.y as int,
        b.x as int,
        b.y as int,
        c.x as int,
        c.y as int,
    );
}

/// The edge from `a` to `b`, with the triangle on its non-negative side, is a
/// top edge (horizontal, interior below) or a left edge (going up the screen).
pub open spec fn is_top_left(a: Point2, b: Point2) -> bool {
    (a.y == b.y && b.x > a.x) || b.y < a.y
}

/// A point is inside an edge: strictly on the interior side, or on the edge
/// itself when the edge is a top or left edge.
pub open spec fn inside_edge(e: int, top_left: bool) -> bool {
    e > 0 || (e == 0 && top_left)
}

/// Which way round a front-facing triangle's vertices run, as seen on the screen.
#[derive(Clone, Copy, Debug, PartialEq, Eq, Structural)]
pub enum Winding {
    Clockwise,
    CounterClockwise,
}

/// The triangle `a, b, c` runs the given way round on the screen. With `y`
/// growing downward, a positive `edge_value(c, a, b)` is clockwise.
pub open spec fn faces(winding: Winding, a: Point2, b: Point2, c: Point2) -> bool {
    match winding {
        Winding::Clockwise => edge_value(c, a, b) > 0,
        Winding::CounterClockwise => edge_value(c, a, b) < 0,
    }
}

/// The barycentric weights of `p`, scaled by twice the triangle's area so that
/// they are non-negative integers summing to its magnitude: `None` when the
/// triangle does not face the viewer by `winding` (which includes a degenerate
/// triangle) or `p` lies outside it. A point on an edge belongs to the triangle
/// only when the edge is a top or left edge (the top-left fill rule), so that
/// triangles sharing an edge draw each pixel on it once.
pub open spec fn spec_barycentric_weights(p: Point2, a: Point2, b: Point2, c: Point2, winding: Winding) -> Option<
    (int, int, int),
> {
    let e0 = edge_value(p, b, c);
    let e1 = edge_value(p, c, a);
    let e2 = edge_value(p, a, b);
    let area = edge_value(c, a, b);
    if winding == Winding::Clockwise && area > 0 && inside_edge(e0, is_top_left(b, c))
        && inside_edge(e1, is_top_left(c, a)) && inside_edge(e2, is_top_left(a, b)) {
        Some((e0, e1, e2))
    } else if winding == Winding::CounterClockwise && area < 0 && inside_edge(-e0, is_top_left(c, b))
        && inside_edge(-e1, is_top_left(a, c)) && inside_edge(-e2, is_top_left(b, a)) {
        Some((-e0, -e1, -e2))
    } else {
        None
    }
}

/// The triangle is culled: it does not face the viewer by `winding`, or it is
/// degenerate. The same test decides which sign of the edge values covers.
pub fn cull_back_face(v1: Point2, v2: Point2, v3: Point2, winding: Winding) -> (r: bool)
    requires
        v1.on_screen(),
        v2.on_screen(),
        v3.on_screen(),
    ensures
        r == !faces(winding, v1, v2, v3),
{
    let area = edge_function(v3, v1, v2);
    match winding {
        Winding::Clockwise => area <= 0,
        Winding::CounterClockwise => area >= 0,
    }
}

fn top_left(a: Point2, b: Point2) -> (r: bool)
    ensures
        r == is_top_left(a, b),
{
    (a.y == b.y && b.x > a.x) || b.y < a.y
}

fn edge_inside(e: i64, top_left: bool) -> (r: bool)
    ensures
        r == inside_edge(e as int, top_left),
{
    e > 0 || (e == 0 && top_left)
}

/// Largest scaled barycentric weight.
pub const WEIGHT_LIMIT: i64 = 0x200_0000_0000;

/// Computes the scaled barycentric weights of `point`.
pub fn barycentric_weights(point: Point2, a: Point2, b: Point2, c: Point2, winding: Winding) -> (r: Option<
    (i64, i64, i64),
>)
    requires
        point.on_screen(),
        a.on_screen(),
        b.on_screen(),
        c.on_screen(),
    ensures
        r matches Some(w) ==> spec_barycentric_weights(point, a, b, c, winding) == Some(
            (w.0 as int, w.1 as int, w.2 as int),
        ),
        r is None ==> spec_barycentric_weights(point, a, b, c, winding) is None,
        r matches Some(w) ==> 0 <= w.0 <= WEIGHT_LIMIT && 0 <= w.1 <= WEIGHT_LIMIT && 0 <= w.2
            <= WEIGHT_LIMIT && w.0 + w.1 + w.2 > 0,
{
    let e0 = edge_function(point, b, c);
    let e1 = edge_function(point, c, a);
    let e2 = edge_function(point, a, b);
    let area = edge_function(c, a, b);
    proof {
        lemma_edge_sum(point, a, b, c);
    }
    let clockwise = match winding {
        Winding::Clockwise => true,
        Winding::CounterClockwise => false,
    };
    if clockwise && area > 0 && edge_inside(e0, top_left(b, c)) && edge_inside(e1, top_left(c, a))
        && edge_inside(e2, top_left(a, b)) {
        Some((e0, e1, e2))
    } else if !clockwise && area < 0 && edge_inside(-e0, top_left(c, b)) && edge_inside(
        -e1,
        top_left(a, c),
    ) && edge_inside(-e2, top_left(b, a)) {
        Some((-e0, -e1, -e2))
    } else {
        None
    }
}

/// The weighted average of three values, rounded down.
pub open spec fn interpolate(w: (int, int, int), a0: int, a1: int, a2: int) -> int {
    (w.0 * a0 + w.1 * a1 + w.2 * a2) / (w.0 + w.1 + w.2)
}

/// Screen-space weights made perspective-correct: each divided by its vertex's
/// clip-space `w`, all scaled by the product of the three so they stay integers.
pub open spec fn perspective_weights(w: (int, int, int), cw0: int, cw1: int, cw2: int) -> (
    int,
    int,
    int,
) {
    (w.0 * cw1 * cw2, w.1 * cw0 * cw2, w.2 * cw0 * cw1)
}

/// Perspective-correct interpolation of a vertex attribute.
pub open spec fn perspective_interpolate(
    w: (int, int, int),
    cw0: int,
    cw1: int,
    cw2: int,
    a0: int,
    a1: int,
    a2: int,
) -> int {
    interpolate(perspective_weights(w, cw0, cw1, cw2), a0, a1, a2)
}

pub open spec fn min3(a: int, b: int, c: int) -> int {
    if a <= b && a <= c {
        a
    } else if b <= c {
        b
    } else {
        c
    }
}

pub open spec fn max3(a: int, b: int, c: int) -> int {
    if a >= b && a >= c {
        a
    } else if b >= c {
        b
    } else {
        c
    }
}

/// A weighted average with non-negative weights lies between the smallest and
/// the largest value.
pub proof fn lemma_interpolate_between(w: (int, int, int), a0: int, a1: int, a2: int)
    requires
        w.0 >= 0,
        w.1 >= 0,
        w.2 >= 0,
        w.0 + w.1 + w.2 > 0,
    ensures
        min3(a0, a1, a2) <= interpolate(w, a0, a1, a2) <= max3(a0, a1, a2),
{
    let s = w.0 + w.1 + w.2;
    let x = w.0 * a0 + w.1 * a1 + w.2 * a2;
    let lo = min3(a0, a1, a2);
    let hi = max3(a0, a1, a2);
    lemma_div_bounds(x, s);
    let q = x / s;
    assert(s * lo <= x <= s * hi) by (nonlinear_arith)
        requires
            w.0 >= 0,
            w.1 >= 0,
            w.2 >= 0,
            s == w.0 + w.1 + w.2,
            x == w.0 * a0 + w.1 * a1 + w.2 * a2,
            lo <= a0 <= hi,
            lo <= a1 <= hi,
            lo <= a2 <= hi,
    ;
    assert(lo <= q <= hi) by (nonlinear_arith)
        requires
            s > 0,
            s * q <= x < s * q + s,
            s * lo <= x <= s * hi,
    ;
}

/// Interpolating with all weight on one vertex gives that vertex's attribute
/// exactly, whatever the vertices' clip-space `w`.
pub proof fn lemma_interpolate_at_vertex(k: int, cw0: int, cw1: int, cw2: int, a0: int, a1: int, a2: int)
    requires
        k > 0,
        cw0 > 0,
        cw1 > 0,
        cw2 > 0,
    ensures
        perspective_interpolate((k, 0, 0), cw0, cw1, cw2, a0, a1, a2) == a0,
        perspective_interpolate((0, k, 0), cw0, cw1, cw2, a0, a1, a2) == a1,
        perspective_interpolate((0, 0, k), cw0, cw1, cw2, a0, a1, a2) == a2,
{
    lemma_single_weight(k * cw1 * cw2, a0, a1, a2, 0);
    lemma_single_weight(k * cw0 * cw2, a0, a1, a2, 1);
    lemma_single_weight(k * cw0 * cw1, a0, a1, a2, 2);
    assert(k * cw1 * cw2 > 0 && k * cw0 * cw2 > 0 && k * cw0 * cw1 > 0) by (nonlinear_arith)
        requires
            k > 0,
            cw0 > 0,
            cw1 > 0,
            cw2 > 0,
    ;
    assert(0 * cw1 * cw2 == 0 && 0 * cw0 * cw2 == 0 && 0 * cw0 * cw1 == 0);
}

proof fn lemma_single_weight(m: int, a0: int, a1: int, a2: int, which: int)
    ensures
        m > 0 && which == 0 ==> interpolate((m, 0, 0), a0, a1, a2) == a0,
        m > 0 && which == 1 ==> interpolate((0, m, 0), a0, a1, a2) == a1,
        m > 0 && which == 2 ==> interpolate((0, 0, m), a0, a1, a2) == a2,
{
    if m > 0 {
        let a = if which == 0 {
            a0
        } else if which == 1 {
            a1
        } else {
            a2
        };
        assert(m * a0 + 0 * a1 + 0 * a2 == m * a0);
        assert(0 * a0 + m * a1 + 0 * a2 == m * a1);
        assert(0 * a0 + 0 * a1 + m * a2 == m * a2);
        lemma_div_bounds(m * a, m);
        assert((m * a) / m == a) by (nonlinear_arith)
            requires
                m > 0,
                m * ((m * a) / m) <= m * a < m * ((m * a) / m) + m,
        ;
    }
}

/// The weighted average of three non-negative values with non-negative weights.
pub fn weighted_average(w: (i128, i128, i128), a0: i64, a1: i64, a2: i64) -> (r: i64)
    requires
        0 <= w.0 <= 0x400_0000_0000_0000_0000_0000_0000_0000,
        0 <= w.1 <= 0x400_0000_0000_0000_0000_0000_0000_0000,
        0 <= w.2 <= 0x400_0000_0000_0000_0000_0000_0000_0000,
        w.0 + w.1 + w.2 > 0,
        0 <= a0,
        0 <= a1,
        0 <= a2,
        w.0 * max3(a0 as int, a1 as int, a2 as int) <= 0x400_0000_0000_0000_0000_0000_0000_0000,
        w.1 * max3(a0 as int, a1 as int, a2 as int) <= 0x400_0000_0000_0000_0000_0000_0000_0000,
        w.2 * max3(a0 as int, a1 as int, a2 as int) <= 0x400_0000_0000_0000_0000_0000_0000_0000,
    ensures
        r == interpolate((w.0 as int, w.1 as int, w.2 as int), a0 as int, a1 as int, a2 as int),
        min3(a0 as int, a1 as int, a2 as int) <= r <= max3(a0 as int, a1 as int, a2 as int),
{
    let ghost hi = max3(a0 as int, a1 as int, a2 as int);
    assert(w.0 * a0 <= w.0 * hi && w.1 * a1 <= w.1 * hi && w.2 * a2 <= w.2 * hi)
        by (nonlinear_arith)
        requires
            w.0 >= 0,
            w.1 >= 0,
            w.2 >= 0,
            a0 <= hi,
            a1 <= hi,
            a2 <= hi,
    ;
    assert(w.0 * a0 >= 0 && w.1 * a1 >= 0 && w.2 * a2 >= 0) by (nonlinear_arith)
        requires
            w.0 >= 0,
            w.1 >= 0,
            w.2 >= 0,
            a0 >= 0,
            a1 >= 0,
            a2 >= 0,
    ;
    let x = w.0 * (a0 as i128) + w.1 * (a1 as i128) + w.2 * (a2 as i128);
    let total = w.0 + w.1 + w.2;
    proof {
        lemma_interpolate_between((w.0 as int, w.1 as int, w.2 as int), a0 as int, a1 as int, a2 as int);
    }
    ((x as u128) / (total as u128)) as i64
}

/// The first pixel whose centre is at or after `lo`.
pub open spec fn span_start(lo: int) -> int {
    (lo + HALF_SUBPIXEL - 1) / (SUBPIXEL as int)
}

/// One past the last pixel whose centre is at or before `hi`.
pub open spec fn span_end(hi: int) -> int {
    (hi + HALF_SUBPIXEL) / (SUBPIXEL as int)
}

/// The pixels whose centres lie within the extent of the three points.
pub open spec fn spec_triangle_box(a: Point2, b: Point2, c: Point2) -> BoundingBox {
    BoundingBox {
        start: UVec2 {
            x: span_start(min3(a.x as int, b.x as int, c.x as int)) as u32,
            y: span_start(min3(a.y as int, b.y as int, c.y as int)) as u32,
        },
        end: UVec2 {
            x: span_end(max3(a.x as int, b.x as int, c.x as int)) as u32,
            y: span_end(max3(a.y as int, b.y as int, c.y as int)) as u32,
        },
    }
}

fn span_bounds(p: i64, q: i64, r: i64) -> (out: (u32, u32))
    requires
        0 <= p <= SCREEN_LIMIT,
        0 <= q <= SCREEN_LIMIT,
        0 <= r <= SCREEN_LIMIT,
    ensures
        out.0 == span_start(min3(p as int, q as int, r as int)),
        out.1 == span_end(max3(p as int, q as int, r as int)),
{
    let lo = if p <= q && p <= r {
        p
    } else if q <= r {
        q
    } else {
        r
    };
    let hi = if p >= q && p >= r {
        p
    } else if q >= r {
        q
    } else {
        r
    };
    proof {
        lemma_div_within(lo + HALF_SUBPIXEL - 1, SUBPIXEL as int, 0x20000);
        lemma_div_within(hi + HALF_SUBPIXEL, SUBPIXEL as int, 0x20000);
    }
    (((lo + HALF_SUBPIXEL - 1) / SUBPIXEL) as u32, ((hi + HALF_SUBPIXEL) / SUBPIXEL) as u32)
}

/// The pixel rectangle holding every pixel centre within the triangle's extent.
pub fn generate_triangle_bounding_box(v1: Point2, v2: Point2, v3: Point2) -> (r: BoundingBox)
    requires
        v1.on_screen(),
        v2.on_screen(),
        v3.on_screen(),
    ensures
        r == spec_triangle_box(v1, v2, v3),
{
    let (sx, ex) = span_bounds(v1.x, v2.x, v3.x);
    let (sy, ey) = span_bounds(v1.y, v2.y, v3.y);
    BoundingBox { start: UVec2 { x: sx, y: sy }, end: UVec2 { x: ex, y: ey } }
}

proof fn lemma_barycentric_identity_ints(qx: int, qy: int, ux: int, uy: int, vx: int, vy: int)
    ensures
        (ux * vy - uy * vx) * qx == (vy * qx - vx * qy) * ux + (ux * qy - uy * qx) * vx,
        (ux * vy - uy * vx) * qy == (vy * qx - vx * qy) * uy + (ux * qy - uy * qx) * vy,
{
    assert((ux * vy - uy * vx) * qx == ux * vy * qx - uy * vx * qx) by (nonlinear_arith);
    assert((vy * qx - vx * qy) * ux == ux * vy * qx - ux * vx * qy) by (nonlinear_arith);
    assert((ux * qy - uy * qx) * vx == ux * vx * qy - uy * vx * qx) by (nonlinear_arith);
    assert((ux * vy - uy * vx) * qy == ux * vy * qy - uy * vx * qy) by (nonlinear_arith);
    assert((vy * qx - vx * qy) * uy == uy * vy * qx - uy * vx * qy) by (nonlinear_arith);
    assert((ux * qy - uy * qx) * vy == ux * vy * qy - uy * vy * qx) by (nonlinear_arith);
}

/// A point whose barycentric weights exist lies within the extent of the
/// triangle's vertices.
pub proof fn lemma_weights_in_extent(p: Point2, a: Point2, b: Point2, c: Point2, winding: Winding)
    requires
        spec_barycentric_weights(p, a, b, c, winding) is Some,
    ensures
        min3(a.x as int, b.x as int, c.x as int) <= p.x <= max3(a.x as int, b.x as int, c.x as int),
        min3(a.y as int, b.y as int, c.y as int) <= p.y <= max3(a.y as int, b.y as int, c.y as int),
{
    let w = spec_barycentric_weights(p, a, b, c, winding).unwrap();
    lemma_edge_sum(p, a, b, c);
    let (qx, qy) = (p.x - a.x, p.y - a.y);
    let (ux, uy) = (b.x - a.x, b.y - a.y);
    let (vx, vy) = (c.x - a.x, c.y - a.y);
    lemma_barycentric_identity_ints(qx, qy, ux, uy, vx, vy);
    let area = edge_value(c, a, b);
    assert(area == ux * vy - uy * vx);
    assert(edge_value(p, c, a) == vy * qx - vx * qy) by (nonlinear_arith)
        requires
            qx == p.x - a.x,
            qy == p.y - a.y,
            vx == c.x - a.x,
            vy == c.y - a.y,
    ;
    assert(edge_value(p, a, b) == ux * qy - uy * qx);
    let s = w.0 + w.1 + w.2;
    // with the weights' sign, s * (p - a) == w.1 * (b - a) + w.2 * (c - a)
    assert(s * qx == w.1 * ux + w.2 * vx && s * qy == w.1 * uy + w.2 * vy) by (nonlinear_arith)
        requires
            area * qx == edge_value(p, c, a) * ux + edge_value(p, a, b) * vx,
            area * qy == edge_value(p, c, a) * uy + edge_value(p, a, b) * vy,
            (s == area && w.1 == edge_value(p, c, a) && w.2 == edge_value(p, a, b)) || (s == -area
                && w.1 == -edge_value(p, c, a) && w.2 == -edge_value(p, a, b)),
    ;
    lemma_extent_axis(w, s, p.x as int, a.x as int, b.x as int, c.x as int);
    lemma_extent_axis(w, s, p.y as int, a.y as int, b.y as int, c.y as int);
}

proof fn lemma_extent_axis(w: (int, int, int), s: int, p: int, a: int, b: int, c: int)
    requires
        w.0 >= 0,
        w.1 >= 0,
        w.2 >= 0,
        s == w.0 + w.1 + w.2,
        s > 0,
        s * (p - a) == w.1 * (b - a) + w.2 * (c - a),
    ensures
        min3(a, b, c) <= p <= max3(a, b, c),
{
    let lo = min3(a, b, c);
    let hi = max3(a, b, c);
    assert(s * lo <= s * p <= s * hi) by (nonlinear_arith)
        requires
            w.0 >= 0,
            w.1 >= 0,
            w.2 >= 0,
            s == w.0 + w.1 + w.2,
            s * (p - a) == w.1 * (b - a) + w.2 * (c - a),
            lo <= a <= hi,
            lo <= b <= hi,
            lo <= c <= hi,
    ;
    assert(lo <= p <= hi) by (nonlinear_arith)
        requires
            s > 0,
            s * lo <= s * p <= s * hi,
    ;
}

/// A pixel whose centre lies in a triangle lies in the triangle's bounding box,
/// so scanning the box finds every covered pixel.
pub proof fn lemma_centre_in_bounds(t: RasterTriangle, i: int, j: int)
    requires
        t.wf(),
        0 <= i < RESOLUTION_LIMIT,
        0 <= j < RESOLUTION_LIMIT,
        t.weights_at(i, j) is Some,
    ensures
        t.bounds().contains(i, j),
{
    let (a, b, c) = (t.v0.screen.position, t.v1.screen.position, t.v2.screen.position);
    let p = pixel_centre(i, j);
    lemma_weights_in_extent(p, a, b, c, t.winding);
    lemma_span_holds(i, min3(a.x as int, b.x as int, c.x as int), max3(a.x as int, b.x as int, c.x as int));
    lemma_span_holds(j, min3(a.y as int, b.y as int, c.y as int), max3(a.y as int, b.y as int, c.y as int));
}

proof fn lemma_span_holds(i: int, lo: int, hi: int)
    requires
        0 <= i < RESOLUTION_LIMIT,
        0 <= lo <= i * SUBPIXEL + HALF_SUBPIXEL <= hi <= SCREEN_LIMIT,
    ensures
        0 <= span_start(lo) <= i < span_end(hi) <= 0x2_0000,
{
    lemma_div_bounds(lo + HALF_SUBPIXEL - 1, SUBPIXEL as int);
    lemma_div_bounds(hi + HALF_SUBPIXEL, SUBPIXEL as int);
    lemma_div_within(lo + HALF_SUBPIXEL - 1, SUBPIXEL as int, 0x2_0000);
    lemma_div_within(hi + HALF_SUBPIXEL, SUBPIXEL as int, 0x2_0000);
    let q0 = span_start(lo);
    let q1 = span_end(hi);
    assert(q0 <= i) by (nonlinear_arith)
        requires
            16 * q0 <= lo + 7,
            lo <= i * 16 + 8,
    ;
    assert(i < q1) by (nonlinear_arith)
        requires
            hi + 8 < 16 * q1 + 16,
            i * 16 + 8 <= hi,
    ;
}

/// Two triangles that share the edge between `a` and `b`, traversed in opposite
/// directions, never both cover a point under one winding: pixels on the
/// shared edge are drawn by one of them only.
pub proof fn lemma_shared_edge_drawn_once(
    p: Point2,
    a: Point2,
    b: Point2,
    c: Point2,
    d: Point2,
    winding: Winding,
)
    requires
        a != b,
    ensures
        !(spec_barycentric_weights(p, a, b, c, winding) is Some && spec_barycentric_weights(
            p,
            b,
            a,
            d,
            winding,
        ) is Some),
{
    assert(edge_value(p, b, a) == -edge_value(p, a, b)) by (nonlinear_arith)
        requires
            edge_value(p, b, a) == (a.x - b.x) * (p.y - b.y) - (a.y - b.y) * (p.x - b.x),
            edge_value(p, a, b) == (b.x - a.x) * (p.y - a.y) - (b.y - a.y) * (p.x - a.x),
    ;
    assert(!(is_top_left(a, b) && is_top_left(b, a)));
}

/// Largest value of a vertex attribute channel.
pub const ATTRIBUTE_LIMIT: u32 = 65536;

/// Three channels of a per-vertex attribute: a colour's red, green and blue,
/// or a texture coordinate's `u` and `v` (third channel unused).
#[derive(Clone, Copy, Debug, PartialEq, Eq, Structural)]
pub struct Varying {
    pub c0: u32,
    pub c1: u32,
    pub c2: u32,
}

impl Varying {
    pub open spec fn wf(self) -> bool {
        self.c0 <= ATTRIBUTE_LIMIT && self.c1 <= ATTRIBUTE_LIMIT && self.c2 <= ATTRIBUTE_LIMIT
    }

    /// Each channel fits a colour byte.
    pub open spec fn is_colour(self) -> bool {
        self.c0 <= 255 && self.c1 <= 255 && self.c2 <= 255
    }
}

/// A vertex ready for rasterization.
#[derive(Clone, Copy, Debug, PartialEq, Eq, Structural)]
pub struct RasterVertex {
    pub screen: ScreenVertex,
    pub varying: Varying,
}

/// The three vertices of a triangle ready for rasterization.
#[derive(Clone, Copy, Debug, PartialEq, Eq, Structural)]
pub struct RasterTriangle {
    pub v0: RasterVertex,
    pub v1: RasterVertex,
    pub v2: RasterVertex,
    /// The winding of front faces; a triangle wound the other way covers nothing.
    pub winding: Winding,
}

/// The centre of pixel `(i, j)` in subpixel steps.
pub open spec fn pixel_centre(i: int, j: int) -> Point2 {
    Point2 { x: (i * SUBPIXEL + HALF_SUBPIXEL) as i64, y: (j * SUBPIXEL + HALF_SUBPIXEL) as i64 }
}

/// The colour a fragment gets from its interpolated attribute: the packed
/// opaque vertex colour, or the texel that a bound sampler finds at `(u, 1 - v)`.
pub open spec fn shade(sampler: Option<Sampler>, v: (int, int, int)) -> u32 {
    match sampler {
        None => argb(255, v.0 as u8, v.1 as u8, v.2 as u8) as u32,
        Some(s) => {
            let c = s.spec_sample(v.0 as u32, (UV_ONE - v.1) as u32);
            argb(0, c.r, c.g, c.b) as u32
        },
    }
}

impl RasterTriangle {
    pub open spec fn wf(self) -> bool {
        &&& self.v0.screen.wf()
        &&& self.v1.screen.wf()
        &&& self.v2.screen.wf()
        &&& self.v0.varying.wf()
        &&& self.v1.varying.wf()
        &&& self.v2.varying.wf()
    }

    /// The sampler, if any, can shade this triangle: without one the attributes
    /// are colours.
    pub open spec fn shadable(self, sampler: Option<Sampler>) -> bool {
        match sampler {
            None => self.v0.varying.is_colour() && self.v1.varying.is_colour()
                && self.v2.varying.is_colour(),
            Some(s) => s.ready(),
        }
    }

    pub open spec fn bounds(self) -> BoundingBox {
        spec_triangle_box(self.v0.screen.position, self.v1.screen.position, self.v2.screen.position)
    }

    /// The scaled barycentric weights at the centre of pixel `(i, j)`.
    pub open spec fn weights_at(self, i: int, j: int) -> Option<(int, int, int)> {
        spec_barycentric_weights(
            pixel_centre(i, j),
            self.v0.screen.position,
            self.v1.screen.position,
            self.v2.screen.position,
            self.winding,
        )
    }

    /// The triangle faces the viewer by its winding.
    pub open spec fn front_facing(self) -> bool {
        faces(self.winding, self.v0.screen.position, self.v1.screen.position, self.v2.screen.position)
    }

    /// Pixel `(i, j)` of a `width` by `height` surface is covered: it is on the
    /// surface and its centre is in the triangle.
    pub open spec fn covers(self, width: int, height: int, i: int, j: int) -> bool {
        &&& 0 <= i < width
        &&& 0 <= j < height
        &&& self.weights_at(i, j) is Some
    }

    /// The depth at a covered pixel, interpolated linearly in screen space.
    pub open spec fn depth_at(self, i: int, j: int) -> int {
        interpolate(
            self.weights_at(i, j).unwrap(),
            self.v0.screen.depth as int,
            self.v1.screen.depth as int,
            self.v2.screen.depth as int,
        )
    }

    /// The attribute at a covered pixel, interpolated perspective-correctly.
    pub open spec fn varying_at(self, i: int, j: int) -> (int, int, int) {
        let w = self.weights_at(i, j).unwrap();
        let (cw0, cw1, cw2) = (self.v0.screen.w as int, self.v1.screen.w as int, self.v2.screen.w as int);
        (
            perspective_interpolate(w, cw0, cw1, cw2, self.v0.varying.c0 as int, self.v1.varying.c0 as int, self.v2.varying.c0 as int),
            perspective_interpolate(w, cw0, cw1, cw2, self.v0.varying.c1 as int, self.v1.varying.c1 as int, self.v2.varying.c1 as int),
            perspective_interpolate(w, cw0, cw1, cw2, self.v0.varying.c2 as int, self.v1.varying.c2 as int, self.v2.varying.c2 as int),
        )
    }

    /// The fragment at pixel `(i, j)` is written over a stored depth: the pixel is
    /// covered and the fragment is no farther.
    pub open spec fn passes(self, width: int, height: int, i: int, j: int, stored: u32) -> bool {
        self.covers(width, height, i, j) && self.depth_at(i, j) <= stored
    }
}

/// The depth buffer after drawing a triangle: each passing fragment's depth
/// replaces the stored one.
pub open spec fn rasterized_depths(t: RasterTriangle, width: int, height: int, depths: Seq<u32>) -> Seq<u32> {
    Seq::new(
        depths.len(),
        |k: int|
            if t.passes(width, height, k % width, k / width, depths[k]) {
                t.depth_at(k % width, k / width) as u32
            } else {
                depths[k]
            },
    )
}

/// The colour buffer after drawing a triangle: each passing fragment's colour
/// replaces the stored one.
pub open spec fn rasterized_colours(
    t: RasterTriangle,
    width: int,
    height: int,
    depths: Seq<u32>,
    colours: Seq<u32>,
    sampler: Option<Sampler>,
) -> Seq<u32> {
    Seq::new(
        colours.len(),
        |k: int|
            if t.passes(width, height, k % width, k / width, depths[k]) {
                shade(sampler, t.varying_at(k % width, k / width))
            } else {
                colours[k]
            },
    )
}

/// Perspective weights of non-negative screen weights.
fn perspective_weights_exec(w: (i64, i64, i64), cw0: i64, cw1: i64, cw2: i64) -> (r: (i128, i128, i128))
    requires
        0 <= w.0 <= WEIGHT_LIMIT,
        0 <= w.1 <= WEIGHT_LIMIT,
        0 <= w.2 <= WEIGHT_LIMIT,
        w.0 + w.1 + w.2 > 0,
        0 < cw0 <= CLIP_LIMIT,
        0 < cw1 <= CLIP_LIMIT,
        0 < cw2 <= CLIP_LIMIT,
    ensures
        (r.0 as int, r.1 as int, r.2 as int) == perspective_weights(
            (w.0 as int, w.1 as int, w.2 as int),
            cw0 as int,
            cw1 as int,
            cw2 as int,
        ),
        0 <= r.0 <= 0x200_0000_0000 * 0x1_0000_0000 * 0x1_0000_0000,
        0 <= r.1 <= 0x200_0000_0000 * 0x1_0000_0000 * 0x1_0000_0000,
        0 <= r.2 <= 0x200_0000_0000 * 0x1_0000_0000 * 0x1_0000_0000,
        r.0 + r.1 + r.2 > 0,
{
    assert(forall|a: int, b: int, c: int|
        0 <= a <= 0x200_0000_0000 && 0 < b <= 0x1_0000_0000 && 0 < c <= 0x1_0000_0000 ==> 0 <= #[trigger] (a * b * c)
            <= 0x200_0000_0000 * 0x1_0000_0000 * 0x1_0000_0000 && (a > 0 ==> a * b * c > 0)) by {
        assert forall|a: int, b: int, c: int|
            0 <= a <= 0x200_0000_0000 && 0 < b <= 0x1_0000_0000 && 0 < c <= 0x1_0000_0000 implies 0 <= #[trigger] (a * b * c)
                <= 0x200_0000_0000 * 0x1_0000_0000 * 0x1_0000_0000 && (a > 0 ==> a * b * c > 0) by {
            assert(0 <= a * b * c <= 0x200_0000_0000 * 0x1_0000_0000 * 0x1_0000_0000 && (a > 0 ==> a * b * c > 0))
                by (nonlinear_arith)
                requires
                    0 <= a <= 0x200_0000_0000,
                    0 < b <= 0x1_0000_0000,
                    0 < c <= 0x1_0000_0000,
            ;
        }
    }
    assert(0 <= w.0 * cw1 * cw2 <= 0x200_0000_0000 * 0x1_0000_0000 * 0x1_0000_0000);
    assert(0 <= w.1 * cw0 * cw2 <= 0x200_0000_0000 * 0x1_0000_0000 * 0x1_0000_0000);
    assert(0 <= w.2 * cw0 * cw1 <= 0x200_0000_0000 * 0x1_0000_0000 * 0x1_0000_0000);
    assert(0 <= w.0 * cw1 <= 0x200_0000_0000 * 0x1_0000_0000) by (nonlinear_arith)
        requires
            0 <= w.0 <= 0x200_0000_0000,
            0 < cw1 <= 0x1_0000_0000,
    ;
    assert(0 <= w.1 * cw0 <= 0x200_0000_0000 * 0x1_0000_0000) by (nonlinear_arith)
        requires
            0 <= w.1 <= 0x200_0000_0000,
            0 < cw0 <= 0x1_0000_0000,
    ;
    assert(0 <= w.2 * cw0 <= 0x200_0000_0000 * 0x1_0000_0000) by (nonlinear_arith)
        requires
            0 <= w.2 <= 0x200_0000_0000,
            0 < cw0 <= 0x1_0000_0000,
    ;
    let r0 = (w.0 as i128) * (cw1 as i128) * (cw2 as i128);
    let r1 = (w.1 as i128) * (cw0 as i128) * (cw2 as i128);
    let r2 = (w.2 as i128) * (cw0 as i128) * (cw1 as i128);
    (r0, r1, r2)
}

/// Decides and writes one pixel: depth test against the stored depth, then the
/// depth and the shaded colour on a pass.
fn shade_pixel(surface: &mut Surface, tri: &RasterTriangle, sampler: &Option<Sampler>, i: u32, j: u32)
    requires
        old(surface).wf(),
        tri.wf(),
        tri.shadable(*sampler),
        i < old(surface).spec_width(),
        j < old(surface).spec_height(),
    ensures
        final(surface).wf(),
        final(surface).spec_width() == old(surface).spec_width(),
        final(surface).spec_height() == old(surface).spec_height(),
        ({
            let (w, h) = (old(surface).spec_width() as int, old(surface).spec_height() as int);
            let k = i + j * w;
            let pass = tri.passes(w, h, i as int, j as int, old(surface).depths()[k]);
            &&& final(surface).depths() == old(surface).depths().update(
                k,
                if pass { tri.depth_at(i as int, j as int) as u32 } else { old(surface).depths()[k] },
            )
            &&& final(surface).colours() == old(surface).colours().update(
                k,
                if pass {
                    shade(*sampler, tri.varying_at(i as int, j as int))
                } else {
                    old(surface).colours()[k]
                },
            )
        }),
{
    let width = surface.get_width();
    proof {
        lemma_pixel_index(i as int, j as int, width as int, surface.spec_height() as int);
    }
    let index = i as usize + j as usize * width;
    let point = Point2 {
        x: (i as i64) * SUBPIXEL + HALF_SUBPIXEL,
        y: (j as i64) * SUBPIXEL + HALF_SUBPIXEL,
    };
    let (a, b, c) = (tri.v0, tri.v1, tri.v2);
    let weights = barycentric_weights(
        point,
        a.screen.position,
        b.screen.position,
        c.screen.position,
        tri.winding,
    );
    match weights {
        None => {},
        Some(w) => {
            let wide = (w.0 as i128, w.1 as i128, w.2 as i128);
            assert(wide.0 * max3(a.screen.depth as int, b.screen.depth as int, c.screen.depth as int) <= 0x400_0000_0000_0000_0000_0000_0000_0000) by (nonlinear_arith)
                requires
                    0 <= wide.0 <= 0x200_0000_0000,
                    max3(a.screen.depth as int, b.screen.depth as int, c.screen.depth as int) <= 0x100_0000,
            ;
            assert(wide.1 * max3(a.screen.depth as int, b.screen.depth as int, c.screen.depth as int) <= 0x400_0000_0000_0000_0000_0000_0000_0000) by (nonlinear_arith)
                requires
                    0 <= wide.1 <= 0x200_0000_0000,
                    max3(a.screen.depth as int, b.screen.depth as int, c.screen.depth as int) <= 0x100_0000,
            ;
            assert(wide.2 * max3(a.screen.depth as int, b.screen.depth as int, c.screen.depth as int) <= 0x400_0000_0000_0000_0000_0000_0000_0000) by (nonlinear_arith)
                requires
                    0 <= wide.2 <= 0x200_0000_0000,
                    max3(a.screen.depth as int, b.screen.depth as int, c.screen.depth as int) <= 0x100_0000,
            ;
            let depth = weighted_average(wide, a.screen.depth, b.screen.depth, c.screen.depth);
            let stored = surface.get_depth(index);
            if depth as u32 <= stored {
                let (cw0, cw1, cw2) = (a.screen.w, b.screen.w, c.screen.w);
                let v0 = interpolate_attribute(w, cw0, cw1, cw2, a.varying.c0, b.varying.c0, c.varying.c0);
                let v1 = interpolate_attribute(w, cw0, cw1, cw2, a.varying.c1, b.varying.c1, c.varying.c1);
                let v2 = interpolate_attribute(w, cw0, cw1, cw2, a.varying.c2, b.varying.c2, c.varying.c2);
                let colour = match sampler {
                    None => u8_to_hex(255, v0 as u8, v1 as u8, v2 as u8),
                    Some(s) => {
                        let texel = s.sample(v0, UV_ONE - v1);
                        from_u8_rgb(texel.r, texel.g, texel.b)
                    },
                };
                surface.set_depth(index, depth as u32);
                surface.set_pixel_index(colour, index);
            }
        },
    }
}

proof fn lemma_product_bound(p: int, a: int)
    requires
        0 <= p <= 0x200_0000_0000 * 0x1_0000_0000 * 0x1_0000_0000,
        0 <= a <= 0x1_0000,
    ensures
        p * a <= 0x400_0000_0000_0000_0000_0000_0000_0000,
{
    assert(p * a <= 0x200_0000_0000 * 0x1_0000_0000 * 0x1_0000_0000 * a) by (nonlinear_arith)
        requires
            0 <= p <= 0x200_0000_0000 * 0x1_0000_0000 * 0x1_0000_0000,
            0 <= a,
    ;
    assert(0x200_0000_0000 * 0x1_0000_0000 * 0x1_0000_0000 * a <= 0x400_0000_0000_0000_0000_0000_0000_0000)
        by (nonlinear_arith)
        requires
            0 <= a <= 0x1_0000,
    ;
}

/// Perspective-correct interpolation of one attribute channel from the scaled
/// screen-space weights and the vertices' clip-space `w`.
pub fn interpolate_attribute(
    w: (i64, i64, i64),
    cw0: i64,
    cw1: i64,
    cw2: i64,
    a0: u32,
    a1: u32,
    a2: u32,
) -> (r: u32)
    requires
        0 <= w.0 <= WEIGHT_LIMIT,
        0 <= w.1 <= WEIGHT_LIMIT,
        0 <= w.2 <= WEIGHT_LIMIT,
        w.0 + w.1 + w.2 > 0,
        0 < cw0 <= CLIP_LIMIT,
        0 < cw1 <= CLIP_LIMIT,
        0 < cw2 <= CLIP_LIMIT,
        a0 <= ATTRIBUTE_LIMIT,
        a1 <= ATTRIBUTE_LIMIT,
        a2 <= ATTRIBUTE_LIMIT,
    ensures
        r == perspective_interpolate(
            (w.0 as int, w.1 as int, w.2 as int),
            cw0 as int,
            cw1 as int,
            cw2 as int,
            a0 as int,
            a1 as int,
            a2 as int,
        ),
        min3(a0 as int, a1 as int, a2 as int) <= r <= max3(a0 as int, a1 as int, a2 as int),
{
    let pw = perspective_weights_exec(w, cw0, cw1, cw2);
    interpolate_channel(pw, a0, a1, a2)
}

fn interpolate_channel(pw: (i128, i128, i128), a0: u32, a1: u32, a2: u32) -> (r: u32)
    requires
        0 <= pw.0 <= 0x200_0000_0000 * 0x1_0000_0000 * 0x1_0000_0000,
        0 <= pw.1 <= 0x200_0000_0000 * 0x1_0000_0000 * 0x1_0000_0000,
        0 <= pw.2 <= 0x200_0000_0000 * 0x1_0000_0000 * 0x1_0000_0000,
        pw.0 + pw.1 + pw.2 > 0,
        a0 <= ATTRIBUTE_LIMIT,
        a1 <= ATTRIBUTE_LIMIT,
        a2 <= ATTRIBUTE_LIMIT,
    ensures
        r == interpolate((pw.0 as int, pw.1 as int, pw.2 as int), a0 as int, a1 as int, a2 as int),
        min3(a0 as int, a1 as int, a2 as int) <= r <= max3(a0 as int, a1 as int, a2 as int),
{
    let ghost hi = max3(a0 as int, a1 as int, a2 as int);
    assert(0 <= hi <= 0x1_0000);
    proof {
        lemma_product_bound(pw.0 as int, hi);
        lemma_product_bound(pw.1 as int, hi);
        lemma_product_bound(pw.2 as int, hi);
    }
    weighted_average(pw, a0 as i64, a1 as i64, a2 as i64) as u32
}

/// Pixel `k` of a row-major buffer comes before column `x` of row `y`.
pub open spec fn scanned(k: int, width: int, x: int, y: int) -> bool {
    k / width < y || (k / width == y && k % width < x)
}

/// The column and row of a linear pixel index.
proof fn lemma_index_coords(i: int, j: int, width: int)
    requires
        0 <= i < width,
        0 <= j,
    ensures
        (i + j * width) % width == i,
        (i + j * width) / width == j,
{
    lemma_fundamental_div_mod_converse(i + j * width, width, j, i);
}

/// A linear index in a `width` by `height` buffer names a pixel on it.
proof fn lemma_index_on_surface(k: int, width: int, height: int)
    requires
        0 <= k < width * height,
        0 <= width,
        0 <= height,
    ensures
        0 <= k % width < width,
        0 <= k / width < height,
{
    if width == 0 {
        assert(width * height <= 0) by (nonlinear_arith)
            requires
                width == 0,
                height >= 0,
        ;
    } else {
        lemma_div_bounds(k, width);
        assert(0 <= k / width < height) by (nonlinear_arith)
            requires
                width > 0,
                width * (k / width) <= k < width * (k / width) + width,
                0 <= k < width * height,
        ;
    }
}

/// Outside the scanned rectangle drawing changes nothing.
proof fn lemma_outside_unchanged(
    t: RasterTriangle,
    width: int,
    height: int,
    depths: Seq<u32>,
    colours: Seq<u32>,
    sampler: Option<Sampler>,
    bounds: BoundingBox,
    k: int,
)
    requires
        0 <= k < depths.len(),
        depths.len() == colours.len(),
        t.wf(),
        width < RESOLUTION_LIMIT,
        height < RESOLUTION_LIMIT,
        forall|i: int, j: int|
            #[trigger] bounds.contains(i, j) <==> (t.bounds().contains(i, j) && 0 <= i < width && 0
                <= j < height),
        !bounds.contains(k % width, k / width),
    ensures
        rasterized_depths(t, width, height, depths)[k] == depths[k],
        rasterized_colours(t, width, height, depths, colours, sampler)[k] == colours[k],
{
    let (i, j) = (k % width, k / width);
    if t.covers(width, height, i, j) {
        lemma_centre_in_bounds(t, i, j);
        assert(bounds.contains(i, j));
    }
}

/// Draws a triangle: every covered pixel of the surface whose stored depth is no
/// nearer than the fragment's takes the fragment's depth and colour. Returns
/// `None`, drawing nothing, when the triangle's extent misses the surface.
pub fn rasterize_triangle(surface: &mut Surface, tri: &RasterTriangle, sampler: &Option<Sampler>) -> (r: Option<()>)
    requires
        old(surface).wf(),
        tri.wf(),
        tri.shadable(*sampler),
    ensures
        final(surface).wf(),
        final(surface).spec_width() == old(surface).spec_width(),
        final(surface).spec_height() == old(surface).spec_height(),
        final(surface).depths() == rasterized_depths(
            *tri,
            old(surface).spec_width() as int,
            old(surface).spec_height() as int,
            old(surface).depths(),
        ),
        final(surface).colours() == rasterized_colours(
            *tri,
            old(surface).spec_width() as int,
            old(surface).spec_height() as int,
            old(surface).depths(),
            old(surface).colours(),
            *sampler,
        ),
        forall|k: int|
            0 <= k < old(surface).depths().len() ==> #[trigger] final(surface).depths()[k]
                <= old(surface).depths()[k],
        r is None <==> tri.bounds().spec_intersect(
            BoundingBox {
                start: UVec2 { x: 0, y: 0 },
                end: UVec2 {
                    x: old(surface).spec_width() as u32,
                    y: old(surface).spec_height() as u32,
                },
            },
        ) is None,
{
    let width = surface.get_width();
    let height = surface.get_height();
    let ghost w = width as int;
    let ghost h = height as int;
    let ghost n = w * h;
    let ghost old_depths = surface.depths();
    let ghost old_colours = surface.colours();
    let ghost rd = rasterized_depths(*tri, w, h, old_depths);
    let ghost rc = rasterized_colours(*tri, w, h, old_depths, old_colours, *sampler);
    proof {
        lemma_depths_never_increase(*tri, w, h, old_depths);
    }
    let tri_box = generate_triangle_bounding_box(
        tri.v0.screen.position,
        tri.v1.screen.position,
        tri.v2.screen.position,
    );
    let screen = BoundingBox::new(UVec2::new(0, 0), UVec2::new(width as u32, height as u32));
    proof {
        lemma_intersect_symmetric(tri_box, screen);
    }
    let bounds = match tri_box.intersect(&screen) {
        Some(b) => b,
        None => {
            proof {
                assert forall|k: int| 0 <= k < n implies rd[k] == old_depths[k] && rc[k]
                    == old_colours[k] by {
                    lemma_index_on_surface(k, w, h);
                    let (i, j) = (k % w, k / w);
                    if tri_box.disjoint_columns(screen) {
                        assert(!(in_span(tri_box.start.x, tri_box.end.x, i) && in_span(
                            screen.start.x,
                            screen.end.x,
                            i,
                        )));
                    } else {
                        assert(!(in_span(tri_box.start.y, tri_box.end.y, j) && in_span(
                            screen.start.y,
                            screen.end.y,
                            j,
                        )));
                    }
                    if tri.covers(w, h, i, j) {
                        lemma_centre_in_bounds(*tri, i, j);
                    }
                    assert(!tri.covers(w, h, i, j));
                }
                assert(surface.depths() =~= rd);
                assert(surface.colours() =~= rc);
            }
            return None;
        },
    };
    assert(forall|i: int, j: int|
        #[trigger] bounds.contains(i, j) <==> (tri.bounds().contains(i, j) && 0 <= i < w && 0 <= j
            < h));
    let mut y = bounds.start.y;
    proof {
        assert forall|k: int|
            #![trigger surface.depths()[k]]
            #![trigger surface.colours()[k]]
            0 <= k < n implies surface.depths()[k] == if scanned(
                k,
                w,
                bounds.start.x as int,
                y as int,
            ) {
                rd[k]
            } else {
                old_depths[k]
            } && surface.colours()[k] == if scanned(k, w, bounds.start.x as int, y as int) {
                rc[k]
            } else {
                old_colours[k]
            } by {
            lemma_index_on_surface(k, w, h);
            if scanned(k, w, bounds.start.x as int, y as int) {
                lemma_outside_unchanged(*tri, w, h, old_depths, old_colours, *sampler, bounds, k);
            }
        }
    }
    while y < bounds.end.y
        invariant
            surface.wf(),
            surface.spec_width() == w,
            surface.spec_height() == h,
            w == width,
            n == w * h,
            tri.wf(),
            tri.shadable(*sampler),
            old_depths.len() == n,
            old_colours.len() == n,
            rd == rasterized_depths(*tri, w, h, old_depths),
            rc == rasterized_colours(*tri, w, h, old_depths, old_colours, *sampler),
            forall|i: int, j: int|
                #[trigger] bounds.contains(i, j) <==> (tri.bounds().contains(i, j) && 0 <= i < w
                    && 0 <= j < h),
            bounds.start.x < bounds.end.x <= w,
            bounds.start.y <= y <= bounds.end.y <= h,
            forall|k: int|
                0 <= k < n ==> #[trigger] surface.depths()[k] == if scanned(
                    k,
                    w,
                    bounds.start.x as int,
                    y as int,
                ) {
                    rd[k]
                } else {
                    old_depths[k]
                },
            forall|k: int|
                0 <= k < n ==> #[trigger] surface.colours()[k] == if scanned(
                    k,
                    w,
                    bounds.start.x as int,
                    y as int,
                ) {
                    rc[k]
                } else {
                    old_colours[k]
                },
        decreases bounds.end.y - y,
    {
        let mut x = bounds.start.x;
        while x < bounds.end.x
            invariant
                surface.wf(),
                surface.spec_width() == w,
                surface.spec_height() == h,
                w == width,
                n == w * h,
                tri.wf(),
                tri.shadable(*sampler),
                old_depths.len() == n,
                old_colours.len() == n,
                rd == rasterized_depths(*tri, w, h, old_depths),
                rc == rasterized_colours(*tri, w, h, old_depths, old_colours, *sampler),
                forall|i: int, j: int|
                    #[trigger] bounds.contains(i, j) <==> (tri.bounds().contains(i, j) && 0 <= i
                        < w && 0 <= j < h),
                bounds.start.x <= x <= bounds.end.x <= w,
                bounds.start.y <= y < bounds.end.y <= h,
                forall|k: int|
                    0 <= k < n ==> #[trigger] surface.depths()[k] == if scanned(
                        k,
                        w,
                        x as int,
                        y as int,
                    ) {
                        rd[k]
                    } else {
                        old_depths[k]
                    },
                forall|k: int|
                    0 <= k < n ==> #[trigger] surface.colours()[k] == if scanned(
                        k,
                        w,
                        x as int,
                        y as int,
                    ) {
                        rc[k]
                    } else {
                        old_colours[k]
                    },
            decreases bounds.end.x - x,
        {
            assert(bounds.contains(x as int, y as int));
            let ghost k0 = x + y * w;
            proof {
                lemma_index_coords(x as int, y as int, w);
                lemma_pixel_index(x as int, y as int, w, h);
                assert(!scanned(k0, w, x as int, y as int));
            }
            let ghost before_d = surface.depths();
            let ghost before_c = surface.colours();
            shade_pixel(surface, tri, sampler, x, y);
            proof {
                assert forall|k: int|
                    #![trigger surface.depths()[k]]
                    #![trigger surface.colours()[k]]
                    0 <= k < n implies surface.depths()[k] == if scanned(
                    k,
                    w,
                    x + 1,
                    y as int,
                ) {
                    rd[k]
                } else {
                    old_depths[k]
                } && surface.colours()[k] == if scanned(k, w, x + 1, y as int) {
                    rc[k]
                } else {
                    old_colours[k]
                } by {
                    if k != k0 {
                        lemma_div_bounds(k, w);
                        lemma_fundamental_div_mod(k, w);
                        if k / w == y && k % w == x {
                            let (q, m) = (k / w, k % w);
                            assert(k == k0) by (nonlinear_arith)
                                requires
                                    k == w * q + m,
                                    q == y,
                                    m == x,
                                    k0 == x + y * w,
                            ;
                        }
                        assert(before_d[k] == surface.depths()[k]);
                        assert(before_c[k] == surface.colours()[k]);
                        assert(scanned(k, w, x + 1, y as int) == scanned(k, w, x as int, y as int));
                    }
                }
            }
            x += 1;
        }
        proof {
            assert forall|k: int|
                #![trigger surface.depths()[k]]
                #![trigger surface.colours()[k]]
                0 <= k < n implies surface.depths()[k] == if scanned(
                k,
                w,
                bounds.start.x as int,
                y + 1,
            ) {
                rd[k]
            } else {
                old_depths[k]
            } && surface.colours()[k] == if scanned(k, w, bounds.start.x as int, y + 1) {
                rc[k]
            } else {
                old_colours[k]
            } by {
                lemma_index_on_surface(k, w, h);
                if scanned(k, w, bounds.start.x as int, y + 1) != scanned(k, w, x as int, y as int) {
                    lemma_outside_unchanged(*tri, w, h, old_depths, old_colours, *sampler, bounds, k);
                }
            }
        }
        y += 1;
    }
    proof {
        assert forall|k: int|
            #![trigger surface.depths()[k]]
            #![trigger surface.colours()[k]]
            0 <= k < n implies surface.depths()[k] == rd[k] && surface.colours()[k] == rc[k] by {
            lemma_index_on_surface(k, w, h);
            if !scanned(k, w, bounds.start.x as int, y as int) {
                lemma_outside_unchanged(*tri, w, h, old_depths, old_colours, *sampler, bounds, k);
            }
        }
        assert(surface.depths() =~= rd);
        assert(surface.colours() =~= rc);
    }
    Some(())
}

/// The depth of a covered pixel lies between the vertices' depths.
pub proof fn lemma_depth_in_range(t: RasterTriangle, width: int, height: int, i: int, j: int)
    requires
        t.wf(),
        t.covers(width, height, i, j),
    ensures
        0 <= t.depth_at(i, j) <= DEPTH_ONE,
{
    let p = pixel_centre(i, j);
    lemma_edge_sum(p, t.v0.screen.position, t.v1.screen.position, t.v2.screen.position);
    let w = t.weights_at(i, j).unwrap();
    lemma_interpolate_between(
        w,
        t.v0.screen.depth as int,
        t.v1.screen.depth as int,
        t.v2.screen.depth as int,
    );
}

/// Depth testing: when two triangles are drawn one after the other onto a
/// pixel whose depth was cleared, and both cover the pixel with the second no
/// farther there than the first, the pixel ends with the second triangle's
/// depth and colour, whatever the colours of the two.
pub proof fn lemma_nearer_triangle_wins(
    first: RasterTriangle,
    second: RasterTriangle,
    width: int,
    height: int,
    depths: Seq<u32>,
    colours: Seq<u32>,
    first_sampler: Option<Sampler>,
    second_sampler: Option<Sampler>,
    k: int,
)
    requires
        0 <= k < depths.len(),
        colours.len() == depths.len(),
        depths[k] == DEPTH_CLEAR,
        first.wf(),
        second.wf(),
        first.covers(width, height, k % width, k / width),
        second.covers(width, height, k % width, k / width),
        second.depth_at(k % width, k / width) <= first.depth_at(k % width, k / width),
    ensures
        ({
            let d1 = rasterized_depths(first, width, height, depths);
            let c1 = rasterized_colours(first, width, height, depths, colours, first_sampler);
            &&& rasterized_depths(second, width, height, d1)[k] == second.depth_at(
                k % width,
                k / width,
            )
            &&& rasterized_colours(second, width, height, d1, c1, second_sampler)[k] == shade(
                second_sampler,
                second.varying_at(k % width, k / width),
            )
        }),
{
    let (i, j) = (k % width, k / width);
    lemma_depth_in_range(first, width, height, i, j);
    lemma_depth_in_range(second, width, height, i, j);
    let d1 = rasterized_depths(first, width, height, depths);
    assert(first.passes(width, height, i, j, depths[k]));
    assert(d1[k] == first.depth_at(i, j));
    assert(second.passes(width, height, i, j, d1[k]));
}

/// Perspective weights of non-negative screen weights with a positive sum are
/// non-negative with a positive sum.
proof fn lemma_perspective_weights_positive(w: (int, int, int), cw0: int, cw1: int, cw2: int)
    requires
        w.0 >= 0,
        w.1 >= 0,
        w.2 >= 0,
        w.0 + w.1 + w.2 > 0,
        cw0 > 0,
        cw1 > 0,
        cw2 > 0,
    ensures
        ({
            let p = perspective_weights(w, cw0, cw1, cw2);
            p.0 >= 0 && p.1 >= 0 && p.2 >= 0 && p.0 + p.1 + p.2 > 0
        }),
{
    assert(w.0 * cw1 * cw2 >= 0 && w.1 * cw0 * cw2 >= 0 && w.2 * cw0 * cw1 >= 0 && w.0 * cw1 * cw2
        + w.1 * cw0 * cw2 + w.2 * cw0 * cw1 > 0) by (nonlinear_arith)
        requires
            w.0 >= 0,
            w.1 >= 0,
            w.2 >= 0,
            w.0 + w.1 + w.2 > 0,
            cw0 > 0,
            cw1 > 0,
            cw2 > 0,
    ;
}

/// A vertex of a flat-shaded quad.
pub open spec fn quad_corner(x: int, y: int, depth: i64, w: i64, colour: Varying) -> RasterVertex {
    RasterVertex {
        screen: ScreenVertex { position: Point2 { x: x as i64, y: y as i64 }, depth, w },
        varying: colour,
    }
}

/// The lower-left half of the surface-filling quad: top-left, bottom-left,
/// bottom-right corners.
pub open spec fn lower_half(width: int, height: int, depth: i64, w: i64, colour: Varying) -> RasterTriangle {
    RasterTriangle {
        v0: quad_corner(0, 0, depth, w, colour),
        v1: quad_corner(0, height * SUBPIXEL, depth, w, colour),
        v2: quad_corner(width * SUBPIXEL, height * SUBPIXEL, depth, w, colour),
        winding: Winding::CounterClockwise,
    }
}

/// The upper-right half of the surface-filling quad: bottom-right, top-right,
/// top-left corners.
pub open spec fn upper_half(width: int, height: int, depth: i64, w: i64, colour: Varying) -> RasterTriangle {
    RasterTriangle {
        v0: quad_corner(width * SUBPIXEL, height * SUBPIXEL, depth, w, colour),
        v1: quad_corner(width * SUBPIXEL, 0, depth, w, colour),
        v2: quad_corner(0, 0, depth, w, colour),
        winding: Winding::CounterClockwise,
    }
}

/// At a covered pixel a triangle of one depth and one colour yields that depth
/// and that colour.
proof fn lemma_flat_fragment(t: RasterTriangle, width: int, height: int, i: int, j: int)
    requires
        t.wf(),
        t.covers(width, height, i, j),
        t.v0.screen.depth == t.v1.screen.depth,
        t.v1.screen.depth == t.v2.screen.depth,
        t.v0.varying == t.v1.varying,
        t.v1.varying == t.v2.varying,
    ensures
        t.depth_at(i, j) == t.v0.screen.depth,
        t.varying_at(i, j) == (
            t.v0.varying.c0 as int,
            t.v0.varying.c1 as int,
            t.v0.varying.c2 as int,
        ),
{
    let p = pixel_centre(i, j);
    lemma_edge_sum(p, t.v0.screen.position, t.v1.screen.position, t.v2.screen.position);
    let w = t.weights_at(i, j).unwrap();
    let d = t.v0.screen.depth as int;
    lemma_interpolate_between(w, d, d, d);
    let (cw0, cw1, cw2) = (t.v0.screen.w as int, t.v1.screen.w as int, t.v2.screen.w as int);
    lemma_perspective_weights_positive(w, cw0, cw1, cw2);
    let pw = perspective_weights(w, cw0, cw1, cw2);
    let v = t.v0.varying;
    lemma_interpolate_between(pw, v.c0 as int, v.c0 as int, v.c0 as int);
    lemma_interpolate_between(pw, v.c1 as int, v.c1 as int, v.c1 as int);
    lemma_interpolate_between(pw, v.c2 as int, v.c2 as int, v.c2 as int);
}

/// The two halves of the quad together cover every pixel of the surface.
proof fn lemma_quad_covers(width: int, height: int, depth: i64, w: i64, colour: Varying, i: int, j: int)
    requires
        0 < width < RESOLUTION_LIMIT,
        0 < height < RESOLUTION_LIMIT,
        0 <= i < width,
        0 <= j < height,
    ensures
        lower_half(width, height, depth, w, colour).covers(width, height, i, j) || upper_half(
            width,
            height,
            depth,
            w,
            colour,
        ).covers(width, height, i, j),
{
    let sw = width * SUBPIXEL;
    let sh = height * SUBPIXEL;
    let px = i * SUBPIXEL + HALF_SUBPIXEL;
    let py = j * SUBPIXEL + HALF_SUBPIXEL;
    let lower = lower_half(width, height, depth, w, colour);
    let upper = upper_half(width, height, depth, w, colour);
    assert(pixel_centre(i, j) == Point2 { x: px as i64, y: py as i64 });
    assert(0 < px < sw && 0 < py < sh);
    let a = Point2 { x: 0, y: 0 };
    let bl = Point2 { x: 0, y: sh as i64 };
    let br = Point2 { x: sw as i64, y: sh as i64 };
    let tr = Point2 { x: sw as i64, y: 0 };
    let p = Point2 { x: px as i64, y: py as i64 };
    assert(edge_value(br, a, bl) == -(sh * sw)) by (nonlinear_arith)
        requires
            a.x == 0 && a.y == 0 && bl.x == 0 && bl.y == sh && br.x == sw && br.y == sh,
    ;
    assert(edge_value(p, bl, br) == sw * (py - sh)) by (nonlinear_arith)
        requires
            bl.x == 0 && bl.y == sh && br.x == sw && br.y == sh && p.x == px && p.y == py,
    ;
    assert(edge_value(p, br, a) == sh * px - sw * py) by (nonlinear_arith)
        requires
            a.x == 0 && a.y == 0 && br.x == sw && br.y == sh && p.x == px && p.y == py,
    ;
    assert(edge_value(p, a, bl) == -(sh * px)) by (nonlinear_arith)
        requires
            a.x == 0 && a.y == 0 && bl.x == 0 && bl.y == sh && p.x == px && p.y == py,
    ;
    assert(edge_value(a, br, tr) == -(sh * sw)) by (nonlinear_arith)
        requires
            a.x == 0 && a.y == 0 && tr.x == sw && tr.y == 0 && br.x == sw && br.y == sh,
    ;
    assert(edge_value(p, tr, a) == -(sw * py)) by (nonlinear_arith)
        requires
            a.x == 0 && a.y == 0 && tr.x == sw && tr.y == 0 && p.x == px && p.y == py,
    ;
    assert(edge_value(p, a, br) == sw * py - sh * px) by (nonlinear_arith)
        requires
            a.x == 0 && a.y == 0 && br.x == sw && br.y == sh && p.x == px && p.y == py,
    ;
    assert(edge_value(p, br, tr) == sh * (px - sw)) by (nonlinear_arith)
        requires
            tr.x == sw && tr.y == 0 && br.x == sw && br.y == sh && p.x == px && p.y == py,
    ;
    assert(sh * sw > 0 && sw * (py - sh) < 0 && sh * px > 0 && sw * py > 0 && sh * (px - sw) < 0)
        by (nonlinear_arith)
        requires
            sh > 0,
            sw > 0,
            0 < px < sw,
            0 < py < sh,
    ;
}

/// Drawing the two halves of a quad that fills the surface, of one depth and
/// one colour, onto a cleared surface gives every pixel that colour.
pub proof fn lemma_full_screen_quad(
    width: int,
    height: int,
    depth: i64,
    w: i64,
    colour: Varying,
    depths: Seq<u32>,
    colours: Seq<u32>,
)
    requires
        0 < width < RESOLUTION_LIMIT,
        0 < height < RESOLUTION_LIMIT,
        depths.len() == width * height,
        colours.len() == width * height,
        forall|k: int| 0 <= k < depths.len() ==> #[trigger] depths[k] == DEPTH_CLEAR,
        0 <= depth <= DEPTH_ONE,
        0 < w <= CLIP_LIMIT,
        colour.is_colour(),
    ensures
        ({
            let lower = lower_half(width, height, depth, w, colour);
            let upper = upper_half(width, height, depth, w, colour);
            let d1 = rasterized_depths(lower, width, height, depths);
            let c1 = rasterized_colours(lower, width, height, depths, colours, None);
            let c2 = rasterized_colours(upper, width, height, d1, c1, None);
            &&& c2.len() == width * height
            &&& forall|k: int|
                0 <= k < c2.len() ==> #[trigger] c2[k] == argb(
                    255,
                    colour.c0 as u8,
                    colour.c1 as u8,
                    colour.c2 as u8,
                ) as u32
        }),
{
    let lower = lower_half(width, height, depth, w, colour);
    let upper = upper_half(width, height, depth, w, colour);
    let d1 = rasterized_depths(lower, width, height, depths);
    let c1 = rasterized_colours(lower, width, height, depths, colours, None);
    let c2 = rasterized_colours(upper, width, height, d1, c1, None);
    let fill = argb(255, colour.c0 as u8, colour.c1 as u8, colour.c2 as u8) as u32;
    assert(SCREEN_LIMIT == 16 * 65536);
    assert(width * SUBPIXEL <= SCREEN_LIMIT && height * SUBPIXEL <= SCREEN_LIMIT);
    assert(lower.wf() && upper.wf());
    assert forall|k: int| 0 <= k < c2.len() implies #[trigger] c2[k] == fill by {
        lemma_index_on_surface(k, width, height);
        let (i, j) = (k % width, k / width);
        lemma_quad_covers(width, height, depth, w, colour, i, j);
        if lower.covers(width, height, i, j) {
            lemma_flat_fragment(lower, width, height, i, j);
            assert(lower.passes(width, height, i, j, depths[k]));
            assert(d1[k] == depth);
            assert(c1[k] == fill);
        }
        if upper.covers(width, height, i, j) {
            lemma_flat_fragment(upper, width, height, i, j);
            assert(upper.passes(width, height, i, j, d1[k]));
        }
    }
}

/// A triangle that does not face the viewer by its winding leaves both buffers
/// unchanged.
pub proof fn lemma_back_face_draws_nothing(
    t: RasterTriangle,
    width: int,
    height: int,
    depths: Seq<u32>,
    colours: Seq<u32>,
    sampler: Option<Sampler>,
)
    requires
        !t.front_facing(),
    ensures
        rasterized_depths(t, width, height, depths) == depths,
        rasterized_colours(t, width, height, depths, colours, sampler) == colours,
{
    assert forall|i: int, j: int| #[trigger] t.weights_at(i, j) is None by {}
    assert(rasterized_depths(t, width, height, depths) =~= depths);
    assert(rasterized_colours(t, width, height, depths, colours, sampler) =~= colours);
}

/// At the pixel whose centre is the triangle's first vertex, a covered
/// fragment takes that vertex's depth and attribute exactly.
pub proof fn lemma_fragment_at_vertex(t: RasterTriangle, width: int, height: int, i: int, j: int)
    requires
        t.wf(),
        t.covers(width, height, i, j),
        pixel_centre(i, j) == t.v0.screen.position,
    ensures
        t.depth_at(i, j) == t.v0.screen.depth,
        t.varying_at(i, j) == (
            t.v0.varying.c0 as int,
            t.v0.varying.c1 as int,
            t.v0.varying.c2 as int,
        ),
{
    let (a, b, c) = (t.v0.screen.position, t.v1.screen.position, t.v2.screen.position);
    let p = pixel_centre(i, j);
    lemma_edge_sum(p, a, b, c);
    assert(edge_value(p, c, a) == 0) by (nonlinear_arith)
        requires
            p == a,
            edge_value(p, c, a) == (a.x - c.x) * (p.y - c.y) - (a.y - c.y) * (p.x - c.x),
    ;
    assert(edge_value(p, a, b) == 0) by (nonlinear_arith)
        requires
            p == a,
            edge_value(p, a, b) == (b.x - a.x) * (p.y - a.y) - (b.y - a.y) * (p.x - a.x),
    ;
    let w = t.weights_at(i, j).unwrap();
    assert(w.1 == 0 && w.2 == 0 && w.0 > 0);
    lemma_interpolate_at_vertex(
        w.0,
        t.v0.screen.w as int,
        t.v1.screen.w as int,
        t.v2.screen.w as int,
        t.v0.varying.c0 as int,
        t.v1.varying.c0 as int,
        t.v2.varying.c0 as int,
    );
    lemma_interpolate_at_vertex(
        w.0,
        t.v0.screen.w as int,
        t.v1.screen.w as int,
        t.v2.screen.w as int,
        t.v0.varying.c1 as int,
        t.v1.varying.c1 as int,
        t.v2.varying.c1 as int,
    );
    lemma_interpolate_at_vertex(
        w.0,
        t.v0.screen.w as int,
        t.v1.screen.w as int,
        t.v2.screen.w as int,
        t.v0.varying.c2 as int,
        t.v1.varying.c2 as int,
        t.v2.varying.c2 as int,
    );
    lemma_single_weight(
        w.0,
        t.v0.screen.depth as int,
        t.v1.screen.depth as int,
        t.v2.screen.depth as int,
        0,
    );
}

/// Drawing a triangle never makes a stored depth larger.
pub proof fn lemma_depths_never_increase(t: RasterTriangle, width: int, height: int, depths: Seq<u32>)
    requires
        t.wf(),
    ensures
        rasterized_depths(t, width, height, depths).len() == depths.len(),
        forall|k: int|
            0 <= k < depths.len() ==> #[trigger] rasterized_depths(t, width, height, depths)[k]
                <= depths[k],
{
    assert forall|k: int| 0 <= k < depths.len() implies #[trigger] rasterized_depths(
        t,
        width,
        height,
        depths,
    )[k] <= depths[k] by {
        if t.passes(width, height, k % width, k / width, depths[k]) {
            lemma_depth_in_range(t, width, height, k % width, k / width);
        }
    }
}

} // verus!
