use vstd::prelude::*;
use crate::clip::Vec4;
use crate::clip::in_view_volume;
use crate::clip::plane_value;
use crate::clip::inside;
use crate::clip::crosses;
use crate::clip::spec_homogenous_clip;
use crate::clip::spec_lerp;
use crate::clip::homogenous_clip;
use crate::clip::lerp;
use crate::clip::plane_dot;
use crate::clip::lemma_crossing_inside;
use crate::raster::SUBPIXEL;
use crate::raster::spec_to_screen_space;
use crate::raster::to_screen_space;
use crate::shader::Mat4;
use crate::shader::Vec3;
use crate::shader::spec_transform;
use crate::shader::transform;
use crate::surface::Surface;
use crate::surface::lemma_pixel_index;

verus! {

/// Colour of debug lines: opaque green.
pub const LINE_COLOUR: u32 = 0xFF00FF00;

pub open spec fn abs_int(v: int) -> int {
    if v < 0 { -v } else { v }
}

/// One step of the line walk from `(x, y)` with error term `err`: a step along
/// `x`, along `y`, or both, toward the end point.
pub open spec fn walk_step(s: (int, int, int), dx: int, dy: int, sx: int, sy: int) -> (int, int, int) {
    let e2 = 2 * s.2;
    let (x, err) = if e2 >= dy { (s.0 + sx, s.2 + dy) } else { (s.0, s.2) };
    if e2 <= dx { (x, s.1 + sy, err + dx) } else { (x, s.1, err) }
}

/// The pixels the walk visits from state `s` until it reaches `(x1, y1)`, taking
/// at most `fuel` of them.
pub open spec fn walk_points(
    s: (int, int, int),
    x1: int,
    y1: int,
    dx: int,
    dy: int,
    sx: int,
    sy: int,
    fuel: nat,
) -> Seq<(int, int)>
    decreases fuel,
{
    if fuel == 0 {
        Seq::empty()
    } else if s.0 == x1 && s.1 == y1 {
        seq![(s.0, s.1)]
    } else {
        seq![(s.0, s.1)] + walk_points(walk_step(s, dx, dy, sx, sy), x1, y1, dx, dy, sx, sy, (fuel - 1) as nat)
    }
}

/// The pixels of the line from `(x0, y0)` to `(x1, y1)` (Bresenham's walk).
pub open spec fn line_pixels(x0: int, y0: int, x1: int, y1: int) -> Seq<(int, int)> {
    let dx = abs_int(x1 - x0);
    let dy = -abs_int(y1 - y0);
    let sx = if x0 < x1 { 1int } else { -1int };
    let sy = if y0 < y1 { 1int } else { -1int };
    walk_points((x0, y0, dx + dy), x1, y1, dx, dy, sx, sy, (dx - dy + 1) as nat)
}

/// A colour buffer of the given width with every listed pixel set to `colour`.
pub open spec fn painted(colours: Seq<u32>, width: int, points: Seq<(int, int)>, colour: u32) -> Seq<u32> {
    Seq::new(
        colours.len(),
        |k: int|
            if exists|m: int| 0 <= m < points.len() && #[trigger] points[m].0 + points[m].1 * width == k {
                colour
            } else {
                colours[k]
            },
    )
}

/// The walk has taken `i` steps along `x` and `j` along `y`, with the error
/// term that Bresenham's walk keeps, `dx * (j + 1) + dy * (i + 1)`.
pub open spec fn walk_inv(
    s: (int, int, int),
    i: int,
    j: int,
    x0: int,
    y0: int,
    dx: int,
    dy: int,
    sx: int,
    sy: int,
) -> bool {
    &&& 0 <= i <= dx
    &&& 0 <= j <= -dy
    &&& s.0 == x0 + sx * i
    &&& s.1 == y0 + sy * j
    &&& s.2 == dx * (j + 1) + dy * (i + 1)
}

/// The set-up of a walk from `(x0, y0)` to `(x1, y1)`.
pub open spec fn walk_setup(x0: int, y0: int, x1: int, y1: int, dx: int, dy: int, sx: int, sy: int) -> bool {
    &&& dx == abs_int(x1 - x0)
    &&& dy == -abs_int(y1 - y0)
    &&& sx == if x0 < x1 { 1int } else { -1int }
    &&& sy == if y0 < y1 { 1int } else { -1int }
}

/// A step of the walk that has not reached its end point advances along at
/// least one axis and never past the end point.
proof fn lemma_walk_step(
    s: (int, int, int),
    i: int,
    j: int,
    x0: int,
    y0: int,
    x1: int,
    y1: int,
    dx: int,
    dy: int,
    sx: int,
    sy: int,
)
    requires
        walk_setup(x0, y0, x1, y1, dx, dy, sx, sy),
        walk_inv(s, i, j, x0, y0, dx, dy, sx, sy),
        !(s.0 == x1 && s.1 == y1),
    ensures
        ({
            let n = walk_step(s, dx, dy, sx, sy);
            let i2 = if 2 * s.2 >= dy { i + 1 } else { i };
            let j2 = if 2 * s.2 <= dx { j + 1 } else { j };
            &&& walk_inv(n, i2, j2, x0, y0, dx, dy, sx, sy)
            &&& i2 + j2 > i + j
        }),
{
    let e2 = 2 * s.2;
    let big = -dy;
    assert(x1 == x0 + sx * dx && y1 == y0 + sy * big);
    assert(!(i == dx && j == big)) by {
        if i == dx && j == big {
            assert(s.0 == x1 && s.1 == y1);
        }
    }
    if e2 >= dy {
        assert(i < dx) by {
            if i == dx {
                assert(j + 1 <= big);
                assert(2 * s.2 < dy) by (nonlinear_arith)
                    requires
                        s.2 == dx * (j + 1) + dy * (i + 1),
                        i == dx,
                        j + 1 <= big,
                        big == -dy,
                        big > 0,
                        dx >= 0,
                ;
            }
        }
    }
    if e2 <= dx {
        assert(j < big) by {
            if j == big {
                assert(i + 1 <= dx);
                assert(big * (dx - i - 1) >= 0) by (nonlinear_arith)
                    requires
                        big >= 0,
                        dx - i - 1 >= 0,
                ;
                assert(2 * s.2 - dx == dx + 2 * (big * (dx - i - 1))) by (nonlinear_arith)
                    requires
                        s.2 == dx * (j + 1) + dy * (i + 1),
                        j == big,
                        big == -dy,
                ;
            }
        }
    }
    assert(dx * (j + 2) == dx * (j + 1) + dx) by (nonlinear_arith);
    assert(dy * (i + 2) == dy * (i + 1) + dy) by (nonlinear_arith);
    assert(sx * (i + 1) == sx * i + sx) by (nonlinear_arith);
    assert(sy * (j + 1) == sy * j + sy) by (nonlinear_arith);
}

/// Marking one more pixel of a list.
proof fn lemma_painted_push(colours: Seq<u32>, width: int, points: Seq<(int, int)>, p: (int, int), colour: u32)
    requires
        0 <= p.0 + p.1 * width < colours.len(),
    ensures
        painted(colours, width, points.push(p), colour) == painted(colours, width, points, colour).update(
            p.0 + p.1 * width,
            colour,
        ),
{
    let a = painted(colours, width, points.push(p), colour);
    let b = painted(colours, width, points, colour).update(p.0 + p.1 * width, colour);
    let pushed = points.push(p);
    assert forall|k: int| 0 <= k < colours.len() implies a[k] == b[k] by {
        if k == p.0 + p.1 * width {
            assert(pushed[points.len() as int] == p);
        } else {
            if exists|m: int| 0 <= m < pushed.len() && #[trigger] pushed[m].0 + pushed[m].1 * width == k {
                let m = choose|m: int| 0 <= m < pushed.len() && #[trigger] pushed[m].0 + pushed[m].1 * width == k;
                assert(m < points.len());
                assert(points[m] == pushed[m]);
            }
            if exists|m: int| 0 <= m < points.len() && #[trigger] points[m].0 + points[m].1 * width == k {
                let m = choose|m: int| 0 <= m < points.len() && #[trigger] points[m].0 + points[m].1 * width == k;
                assert(pushed[m] == points[m]);
            }
        }
    }
    assert(a =~= b);
}

proof fn lemma_walk_ends(
    s: (int, int, int),
    i: int,
    j: int,
    x0: int,
    y0: int,
    x1: int,
    y1: int,
    dx: int,
    dy: int,
    sx: int,
    sy: int,
    fuel: nat,
)
    requires
        walk_setup(x0, y0, x1, y1, dx, dy, sx, sy),
        walk_inv(s, i, j, x0, y0, dx, dy, sx, sy),
        fuel >= (dx - i) + (-dy - j) + 1,
    ensures
        ({
            let pts = walk_points(s, x1, y1, dx, dy, sx, sy, fuel);
            &&& pts.len() >= 1
            &&& pts[0] == (s.0, s.1)
            &&& pts.last() == (x1, y1)
        }),
    decreases fuel,
{
    if !(s.0 == x1 && s.1 == y1) {
        lemma_walk_step(s, i, j, x0, y0, x1, y1, dx, dy, sx, sy);
        let n = walk_step(s, dx, dy, sx, sy);
        let i2 = if 2 * s.2 >= dy { i + 1 } else { i };
        let j2 = if 2 * s.2 <= dx { j + 1 } else { j };
        lemma_walk_ends(n, i2, j2, x0, y0, x1, y1, dx, dy, sx, sy, (fuel - 1) as nat);
        let rest = walk_points(n, x1, y1, dx, dy, sx, sy, (fuel - 1) as nat);
        assert((seq![(s.0, s.1)] + rest).last() == rest.last());
    }
}

/// The pixels of a line start at its first end point and finish at its second.
pub proof fn lemma_line_endpoints(x0: int, y0: int, x1: int, y1: int)
    ensures
        line_pixels(x0, y0, x1, y1).len() >= 1,
        line_pixels(x0, y0, x1, y1)[0] == (x0, y0),
        line_pixels(x0, y0, x1, y1).last() == (x1, y1),
{
    let dx = abs_int(x1 - x0);
    let dy = -abs_int(y1 - y0);
    let sx = if x0 < x1 { 1int } else { -1int };
    let sy = if y0 < y1 { 1int } else { -1int };
    assert(dx * 1 + dy * 1 == dx + dy);
    assert(sx * 0 == 0 && sy * 0 == 0);
    lemma_walk_ends((x0, y0, dx + dy), 0, 0, x0, y0, x1, y1, dx, dy, sx, sy, (dx - dy + 1) as nat);
}

/// The pixel an end point of a line falls on.
pub open spec fn endpoint_pixel(width: int, height: int, v: Vec4) -> (int, int) {
    let s = spec_to_screen_space(width, height, v);
    let px = (s.position.x as int) / (SUBPIXEL as int);
    let py = (s.position.y as int) / (SUBPIXEL as int);
    (if px < width - 1 { px } else { width - 1 }, if py < height - 1 { py } else { height - 1 })
}

/// The point lies within the depth range `0 <= z <= w`.
pub open spec fn in_depth_range(v: Vec4) -> bool {
    0 <= v.z <= v.w
}

/// The segment from `a` to `b` cut to the inside of one plane: `None` when both
/// end points lie strictly outside it; an end point strictly outside is moved to
/// where the segment crosses the plane.
pub open spec fn clip_segment_plane(plane: int, a: Vec4, b: Vec4) -> Option<(Vec4, Vec4)> {
    let (fa, fb) = (plane_value(plane, a), plane_value(plane, b));
    if fa < 0 && fb < 0 {
        None
    } else if fa >= 0 && fb >= 0 {
        Some((a, b))
    } else if fa < 0 {
        if fb == 0 {
            Some((b, b))
        } else {
            Some((spec_lerp(a, b, spec_homogenous_clip(a, b, plane).unwrap()), b))
        }
    } else {
        if fa == 0 {
            Some((a, a))
        } else {
            Some((a, spec_lerp(a, b, spec_homogenous_clip(a, b, plane).unwrap())))
        }
    }
}

/// The segment cut against the first `count` planes in turn. Against the four
/// side planes this is the segment clipped to the screen rectangle.
pub open spec fn clip_segment(a: Vec4, b: Vec4, count: nat) -> Option<(Vec4, Vec4)>
    decreases count,
{
    if count == 0 {
        Some((a, b))
    } else {
        match clip_segment(a, b, (count - 1) as nat) {
            Some(s) => clip_segment_plane(count - 1, s.0, s.1),
            None => None,
        }
    }
}

/// The colour buffer after drawing the first `count` segments projected by
/// `vp`. A segment with an end point outside the depth range is skipped; the
/// others are clipped to the screen, and drawn unless nothing of them is left
/// or a remaining end point sits at the eye (`w == 0`).
pub open spec fn lines_drawn(
    colours: Seq<u32>,
    width: int,
    height: int,
    vp: Mat4,
    lines: Seq<(Vec3, Vec3)>,
    count: nat,
) -> Seq<u32>
    decreases count,
{
    if count == 0 {
        colours
    } else {
        let prev = lines_drawn(colours, width, height, vp, lines, (count - 1) as nat);
        let (ca, cb) = (
            spec_transform(vp, lines[count - 1].0),
            spec_transform(vp, lines[count - 1].1),
        );
        if width > 0 && height > 0 && in_depth_range(ca) && in_depth_range(cb) {
            match clip_segment(ca, cb, 4) {
                Some(s) => if s.0.w > 0 && s.1.w > 0 {
                    let (p, q) = (endpoint_pixel(width, height, s.0), endpoint_pixel(width, height, s.1));
                    painted(prev, width, line_pixels(p.0, p.1, q.0, q.1), LINE_COLOUR)
                } else {
                    prev
                },
                None => prev,
            }
        } else {
            prev
        }
    }
}

/// Cutting against one plane keeps the end points in range, puts them inside
/// that plane, and keeps them inside every plane that held both before.
proof fn lemma_clip_segment_plane(plane: int, a: Vec4, b: Vec4)
    requires
        0 <= plane < 6,
        a.in_range(),
        b.in_range(),
    ensures
        clip_segment_plane(plane, a, b) is Some ==> {
            let s = clip_segment_plane(plane, a, b).unwrap();
            &&& s.0.in_range()
            &&& s.1.in_range()
            &&& inside(plane, s.0)
            &&& inside(plane, s.1)
            &&& forall|j: int|
                0 <= j < 6 && inside(j, a) && inside(j, b) ==> #[trigger] inside(j, s.0) && inside(
                    j,
                    s.1,
                )
        },
{
    let (fa, fb) = (plane_value(plane, a), plane_value(plane, b));
    if (fa < 0 && fb > 0) || (fa > 0 && fb < 0) {
        assert(crosses(plane, a, b));
        lemma_crossing_inside(plane, plane, a, b);
        assert forall|j: int| 0 <= j < 6 && inside(j, a) && inside(j, b) implies #[trigger] inside(
            j,
            spec_lerp(a, b, spec_homogenous_clip(a, b, plane).unwrap()),
        ) by {
            lemma_crossing_inside(plane, j, a, b);
        }
    }
}

fn clip_segment_plane_exec(plane: usize, a: Vec4, b: Vec4) -> (r: Option<(Vec4, Vec4)>)
    requires
        plane < 6,
        a.in_range(),
        b.in_range(),
    ensures
        r == clip_segment_plane(plane as int, a, b),
{
    let fa = plane_dot(plane, a);
    let fb = plane_dot(plane, b);
    if fa < 0 && fb < 0 {
        None
    } else if fa >= 0 && fb >= 0 {
        Some((a, b))
    } else if fa < 0 {
        if fb == 0 {
            Some((b, b))
        } else {
            match homogenous_clip(a, b, plane) {
                Some(t) => Some((lerp(a, b, t), b)),
                None => None,
            }
        }
    } else {
        if fa == 0 {
            Some((a, a))
        } else {
            match homogenous_clip(a, b, plane) {
                Some(t) => Some((a, lerp(a, b, t))),
                None => None,
            }
        }
    }
}

/// Both end points lie inside a plane.
pub open spec fn both_inside(plane: int, s: (Vec4, Vec4)) -> bool {
    inside(plane, s.0) && inside(plane, s.1)
}

/// Both end points are in range and inside the depth planes and the first
/// `count` side planes.
pub open spec fn segment_inside(s: (Vec4, Vec4), count: int) -> bool {
    &&& s.0.in_range()
    &&& s.1.in_range()
    &&& both_inside(4, s)
    &&& both_inside(5, s)
    &&& (count > 0 ==> both_inside(0, s))
    &&& (count > 1 ==> both_inside(1, s))
    &&& (count > 2 ==> both_inside(2, s))
    &&& (count > 3 ==> both_inside(3, s))
}

/// Clips a segment whose end points lie in the depth range to the screen.
fn clip_to_screen(a: Vec4, b: Vec4) -> (r: Option<(Vec4, Vec4)>)
    requires
        a.in_range(),
        b.in_range(),
        in_depth_range(a),
        in_depth_range(b),
    ensures
        r == clip_segment(a, b, 4),
        r is Some ==> r.unwrap().0.in_range() && r.unwrap().1.in_range() && in_view_volume(
            r.unwrap().0,
        ) && in_view_volume(r.unwrap().1),
{
    let mut seg: Option<(Vec4, Vec4)> = Some((a, b));
    let mut plane: usize = 0;
    assert(inside(4, a) && inside(5, a) && inside(4, b) && inside(5, b));
    assert(segment_inside((a, b), 0));
    while plane < 4
        invariant
            plane <= 4,
            seg == clip_segment(a, b, plane as nat),
            seg is Some ==> segment_inside(seg.unwrap(), plane as int),
        decreases 4 - plane,
    {
        let ghost before = seg;
        seg = match seg {
            Some(s) => {
                let next = clip_segment_plane_exec(plane, s.0, s.1);
                proof {
                    lemma_clip_segment_plane(plane as int, s.0, s.1);
                    if next is Some {
                        let n = next.unwrap();
                        assert(segment_inside(s, plane as int));
                        assert(both_inside(4, n) && both_inside(5, n)) by {
                            assert(inside(4, n.0) && inside(4, n.1));
                            assert(inside(5, n.0) && inside(5, n.1));
                        }
                        assert(plane > 0 ==> both_inside(0, n)) by {
                            if plane > 0 {
                                assert(inside(0, n.0) && inside(0, n.1));
                            }
                        }
                        assert(plane > 1 ==> both_inside(1, n)) by {
                            if plane > 1 {
                                assert(inside(1, n.0) && inside(1, n.1));
                            }
                        }
                        assert(plane > 2 ==> both_inside(2, n)) by {
                            if plane > 2 {
                                assert(inside(2, n.0) && inside(2, n.1));
                            }
                        }
                        assert(segment_inside(n, plane + 1));
                    }
                }
                next
            },
            None => None,
        };
        plane += 1;
    }
    proof {
        if seg is Some {
            let s = seg.unwrap();
            assert(segment_inside(s, 4));
            assert forall|k: int| 0 <= k < 6 implies #[trigger] inside(k, s.0) && inside(k, s.1) by {
                assert(both_inside(k, s));
            }
            assert(in_view_volume(s.0));
            assert(in_view_volume(s.1));
        }
    }
    seg
}

/// Draws debug line segments on top of a surface.
pub struct DebugLineShader {
    pub view_projection: Mat4,
}

impl DebugLineShader {
    /// Draws the line from pixel `(x0, y0)` to pixel `(x1, y1)` in `LINE_COLOUR`.
    fn draw_line(&self, out: &mut Surface, x0: i64, y0: i64, x1: i64, y1: i64)
        requires
            old(out).wf(),
            0 <= x0 < old(out).spec_width(),
            0 <= x1 < old(out).spec_width(),
            0 <= y0 < old(out).spec_height(),
            0 <= y1 < old(out).spec_height(),
        ensures
            final(out).wf(),
            final(out).spec_width() == old(out).spec_width(),
            final(out).spec_height() == old(out).spec_height(),
            final(out).depths() == old(out).depths(),
            final(out).colours() == painted(
                old(out).colours(),
                old(out).spec_width() as int,
                line_pixels(x0 as int, y0 as int, x1 as int, y1 as int),
                LINE_COLOUR,
            ),
    {
        let width = out.get_width();
        let ghost w = width as int;
        let ghost old_colours = out.colours();
        let dx: i64 = if x1 >= x0 { x1 - x0 } else { x0 - x1 };
        let dy: i64 = if y1 >= y0 { y0 - y1 } else { y1 - y0 };
        let sx: i64 = if x0 < x1 { 1 } else { -1 };
        let sy: i64 = if y0 < y1 { 1 } else { -1 };
        let ghost line = line_pixels(x0 as int, y0 as int, x1 as int, y1 as int);
        let ghost fuel = (dx - dy + 1) as nat;
        let mut x = x0;
        let mut y = y0;
        let mut err = dx + dy;
        let ghost mut i: int = 0;
        let ghost mut j: int = 0;
        let ghost mut prefix: Seq<(int, int)> = Seq::empty();
        let mut done = false;
        assert((sx as int) * 0 == 0 && (sy as int) * 0 == 0 && (dx as int) * 1 == dx && (dy as int)
            * 1 == dy) by (nonlinear_arith);
        assert(walk_setup(x0 as int, y0 as int, x1 as int, y1 as int, dx as int, dy as int, sx as int, sy as int));
        assert(line == prefix + walk_points((x as int, y as int, err as int), x1 as int, y1 as int, dx as int, dy as int, sx as int, sy as int, fuel));
        while !done
            invariant
                out.wf(),
                out.spec_width() == w,
                out.spec_height() == old(out).spec_height(),
                out.depths() == old(out).depths(),
                w == width,
                w < 0x1_0000,
                out.spec_height() < 0x1_0000,
                0 <= x0 < w,
                0 <= x1 < w,
                0 <= y0 < out.spec_height(),
                0 <= y1 < out.spec_height(),
                walk_setup(x0 as int, y0 as int, x1 as int, y1 as int, dx as int, dy as int, sx as int, sy as int),
                !done ==> walk_inv((x as int, y as int, err as int), i, j, x0 as int, y0 as int, dx as int, dy as int, sx as int, sy as int),
                !done ==> line == prefix + walk_points((x as int, y as int, err as int), x1 as int, y1 as int, dx as int, dy as int, sx as int, sy as int, (fuel - prefix.len()) as nat),
                !done ==> fuel - prefix.len() >= (dx - i) + (-dy - j) + 1,
                done ==> line == prefix,
                out.colours() == painted(old_colours, w, prefix, LINE_COLOUR),
            decreases (dx - i) + (-dy - j) + (if done { 0int } else { 1int }),
        {
            assert(0 <= x < w && 0 <= y < out.spec_height()) by {
                assert(x == x0 + sx * i);
                assert(y == y0 + sy * j);
                assert(x1 == x0 + sx * dx);
                assert(y1 == y0 + sy * (-dy));
                assert(sx == 1 || sx == -1);
                assert(sy == 1 || sy == -1);
                assert(sx * i == if sx == 1 { i } else { -i }) by (nonlinear_arith)
                    requires sx == 1 || sx == -1;
                assert(sy * j == if sy == 1 { j } else { -j }) by (nonlinear_arith)
                    requires sy == 1 || sy == -1;
            }
            proof {
                lemma_pixel_index(x as int, y as int, w, out.spec_height() as int);
                lemma_painted_push(old_colours, w, prefix, (x as int, y as int), LINE_COLOUR);
            }
            let index = x as usize + y as usize * width;
            out.set_pixel_index(LINE_COLOUR, index);
            let ghost f = (fuel - prefix.len()) as nat;
            let ghost cur = (x as int, y as int, err as int);
            proof {
                prefix = prefix.push((x as int, y as int));
            }
            if x == x1 && y == y1 {
                proof {
                    assert(walk_points(cur, x1 as int, y1 as int, dx as int, dy as int, sx as int, sy as int, f) == seq![(x as int, y as int)]);
                    assert(line =~= prefix);
                }
                done = true;
            } else {
                proof {
                    lemma_walk_step(cur, i, j, x0 as int, y0 as int, x1 as int, y1 as int, dx as int, dy as int, sx as int, sy as int);
                    let n = walk_step(cur, dx as int, dy as int, sx as int, sy as int);
                    assert(walk_points(cur, x1 as int, y1 as int, dx as int, dy as int, sx as int, sy as int, f)
                        == seq![(x as int, y as int)] + walk_points(n, x1 as int, y1 as int, dx as int, dy as int, sx as int, sy as int, (f - 1) as nat));
                    assert(line =~= prefix + walk_points(n, x1 as int, y1 as int, dx as int, dy as int, sx as int, sy as int, (f - 1) as nat));
                }
                assert(-0x2_0000_0000 <= err <= 0x2_0000_0000) by (nonlinear_arith)
                    requires
                        err == dx * (j + 1) + dy * (i + 1),
                        0 <= i <= dx,
                        dx < 0x1_0000,
                        0 <= j <= -dy,
                        -dy < 0x1_0000,
                ;
                let e2 = 2 * err;
                let ghost e0 = err;
                if e2 >= dy {
                    err = err + dy;
                    x = x + sx;
                    proof { i = i + 1; }
                }
                if e2 <= dx {
                    err = err + dx;
                    y = y + sy;
                    proof { j = j + 1; }
                }
            }
        }
    }

    /// Projects each segment by `view_projection`, clips it to the screen and
    /// draws it in `LINE_COLOUR`; a segment with an end point outside the depth
    /// range is skipped.
    pub fn dispatch(&self, out: &mut Surface, line_list: &[(Vec3, Vec3)])
        requires
            old(out).wf(),
            self.view_projection.in_range(),
            forall|k: int|
                0 <= k < line_list@.len() ==> (#[trigger] line_list@[k]).0.in_range()
                    && line_list@[k].1.in_range(),
        ensures
            final(out).wf(),
            final(out).spec_width() == old(out).spec_width(),
            final(out).spec_height() == old(out).spec_height(),
            final(out).depths() == old(out).depths(),
            final(out).colours() == lines_drawn(
                old(out).colours(),
                old(out).spec_width() as int,
                old(out).spec_height() as int,
                self.view_projection,
                line_list@,
                line_list@.len(),
            ),
    {
        let width = out.get_width();
        let height = out.get_height();
        let ghost c0 = out.colours();
        let mut k: usize = 0;
        while k < line_list.len()
            invariant
                k <= line_list@.len(),
                out.wf(),
                out.spec_width() == width,
                out.spec_height() == height,
                out.depths() == old(out).depths(),
                self.view_projection.in_range(),
                forall|m: int|
                    0 <= m < line_list@.len() ==> (#[trigger] line_list@[m]).0.in_range()
                        && line_list@[m].1.in_range(),
                out.colours() == lines_drawn(c0, width as int, height as int, self.view_projection, line_list@, k as nat),
            decreases line_list@.len() - k,
        {
            let (start, end) = line_list[k];
            assert(line_list@[k as int].0.in_range() && line_list@[k as int].1.in_range());
            let a = transform(&self.view_projection, start);
            let b = transform(&self.view_projection, end);
            if width > 0 && height > 0 && 0 <= a.z && a.z <= a.w && 0 <= b.z && b.z <= b.w {
                match clip_to_screen(a, b) {
                    Some((p, q)) => {
                        if p.w > 0 && q.w > 0 {
                            let sp = to_screen_space(width, height, p);
                            let sq = to_screen_space(width, height, q);
                            let (px, py) = (Self::pixel_of(sp.position.x, width), Self::pixel_of(sp.position.y, height));
                            let (qx, qy) = (Self::pixel_of(sq.position.x, width), Self::pixel_of(sq.position.y, height));
                            self.draw_line(out, px, py, qx, qy);
                        }
                    },
                    None => {},
                }
            }
            k += 1;
        }
    }

    /// The pixel holding a screen coordinate, clamped to the last one.
    fn pixel_of(coordinate: i64, size: usize) -> (r: i64)
        requires
            0 <= coordinate <= SUBPIXEL * size,
            0 < size < 0x1_0000,
        ensures
            r == ({
                let p = (coordinate as int) / (SUBPIXEL as int);
                if p < size - 1 { p } else { size - 1 }
            }),
            0 <= r < size,
    {
        let p = coordinate / SUBPIXEL;
        if p < (size - 1) as i64 {
            p
        } else {
            (size - 1) as i64
        }
    }
}

} // verus!
