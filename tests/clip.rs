use softraster::clip::ClipVertex;
use softraster::clip::Fraction;
use softraster::clip::Vec4;
use softraster::clip::clip_against_plane;
use softraster::clip::clip_homogenous_triangle;
use softraster::clip::homogenous_clip;
use softraster::clip::lerp;
use softraster::clip::plane_dot;
use softraster::clip::should_cull_triangle;
use softraster::clip::triangle_in_bounds;

fn unclipped(position: Vec4, index: usize) -> ClipVertex {
    ClipVertex { position, source_edge: index, t: Fraction { num: 0, den: 1 } }
}

fn inside_all(v: &Vec4) -> bool {
    (0..6).all(|p| plane_dot(p, *v) >= 0)
}

#[test]
fn inside_triangle_is_kept_unchanged() {
    let a = Vec4::new(0, 0, 1, 2);
    let b = Vec4::new(1, 0, 1, 2);
    let c = Vec4::new(0, 1, 1, 2);
    let r = clip_homogenous_triangle(&[a, b, c]);
    assert_eq!(r, vec![unclipped(a, 0), unclipped(b, 1), unclipped(c, 2)]);
}

#[test]
fn triangle_on_the_boundary_is_kept_unchanged() {
    let a = Vec4::new(-4, 4, 0, 4);
    let b = Vec4::new(-4, -4, 4, 4);
    let c = Vec4::new(4, -4, 2, 4);
    let r = clip_homogenous_triangle(&[a, b, c]);
    assert_eq!(r, vec![unclipped(a, 0), unclipped(b, 1), unclipped(c, 2)]);
}

#[test]
fn triangle_behind_near_plane_is_removed() {
    let a = Vec4::new(0, 0, -1, 2);
    let b = Vec4::new(1, 0, -1, 2);
    let c = Vec4::new(0, 1, -2, 2);
    assert!(clip_homogenous_triangle(&[a, b, c]).is_empty());
    assert!(should_cull_triangle(a, b, c));
}

#[test]
fn triangle_beyond_each_plane_is_removed() {
    let cases = [
        [Vec4::new(-5, 0, 1, 2), Vec4::new(-3, 1, 1, 2), Vec4::new(-9, -1, 1, 2)],
        [Vec4::new(5, 0, 1, 2), Vec4::new(3, 1, 1, 2), Vec4::new(9, -1, 1, 2)],
        [Vec4::new(0, -5, 1, 2), Vec4::new(1, -3, 1, 2), Vec4::new(-1, -9, 1, 2)],
        [Vec4::new(0, 5, 1, 2), Vec4::new(1, 3, 1, 2), Vec4::new(-1, 9, 1, 2)],
        [Vec4::new(0, 0, 3, 2), Vec4::new(1, 0, 5, 2), Vec4::new(0, 1, 4, 2)],
    ];
    for tri in cases.iter() {
        assert!(should_cull_triangle(tri[0], tri[1], tri[2]));
        assert!(clip_homogenous_triangle(tri).is_empty());
    }
}

#[test]
fn triangle_straddling_near_plane_becomes_quadrilateral() {
    let a = Vec4::new(0, 0, -2, 4);
    let b = Vec4::new(1, 0, 2, 4);
    let c = Vec4::new(0, 1, 2, 4);
    let r = clip_homogenous_triangle(&[a, b, c]);
    assert_eq!(r.len(), 4);
    for v in r.iter() {
        assert!(plane_dot(4, v.position) >= 0);
        assert!(inside_all(&v.position));
    }
    let half = Fraction { num: 2, den: 4 };
    assert_eq!(
        r,
        vec![
            ClipVertex { position: Vec4::new(0, 0, 0, 4), source_edge: 0, t: half },
            unclipped(b, 1),
            unclipped(c, 2),
            ClipVertex { position: Vec4::new(0, 0, 0, 4), source_edge: 2, t: half },
        ]
    );
}

#[test]
fn triangle_straddling_right_plane_becomes_quadrilateral() {
    let a = Vec4::new(9, 0, 5, 10);
    let b = Vec4::new(30, 0, 5, 10);
    let c = Vec4::new(9, 5, 5, 10);
    let r = clip_homogenous_triangle(&[a, b, c]);
    assert_eq!(r.len(), 4);
    for v in r.iter() {
        assert!(plane_dot(1, v.position) >= 0);
        assert!(inside_all(&v.position));
    }
}

#[test]
fn triangle_with_two_vertices_outside_stays_a_triangle() {
    let a = Vec4::new(0, 0, 2, 4);
    let b = Vec4::new(0, 0, -2, 4);
    let c = Vec4::new(1, 1, -2, 4);
    let r = clip_homogenous_triangle(&[a, b, c]);
    assert_eq!(r.len(), 3);
    for v in r.iter() {
        assert!(inside_all(&v.position));
    }
}

#[test]
fn large_triangle_is_cut_on_several_planes() {
    let a = Vec4::new(-100, -100, 5, 10);
    let b = Vec4::new(100, -100, 5, 10);
    let c = Vec4::new(0, 100, 5, 10);
    let r = clip_homogenous_triangle(&[a, b, c]);
    assert!(r.len() >= 4);
    for v in r.iter() {
        assert!(inside_all(&v.position));
        assert!(v.source_edge < 3);
        assert!(v.t.num < v.t.den);
    }
}

#[test]
fn crossing_parameter_is_exact() {
    let a = Vec4::new(0, 0, -1, 4);
    let b = Vec4::new(0, 0, 3, 4);
    assert_eq!(homogenous_clip(a, b, 4), Some(Fraction { num: 1, den: 4 }));
    assert_eq!(homogenous_clip(b, a, 4), Some(Fraction { num: 3, den: 4 }));
    // no crossing when both are inside, or when one endpoint lies on the plane
    assert_eq!(homogenous_clip(b, b, 4), None);
    assert_eq!(homogenous_clip(Vec4::new(0, 0, 0, 4), a, 4), None);
}

#[test]
fn lerp_rounds_w_up_and_the_rest_down() {
    let a = Vec4::new(0, 0, 0, 0);
    let b = Vec4::new(3, -3, 3, 3);
    let r = lerp(a, b, Fraction { num: 1, den: 2 });
    assert_eq!(r, Vec4::new(1, -2, 1, 2));
}

#[test]
fn one_pass_keeps_a_polygon_inside_the_plane() {
    let poly = vec![unclipped(Vec4::new(0, 0, 1, 2), 0), unclipped(Vec4::new(1, 1, 1, 2), 1)];
    assert_eq!(clip_against_plane(&poly, 3), poly);
}

#[test]
fn triangle_in_bounds_needs_one_strictly_inside_vertex() {
    let inside = Vec4::new(0, 0, 1, 2);
    let on_edge = Vec4::new(2, 0, 1, 2);
    let outside = Vec4::new(5, 0, 1, 2);
    assert!(triangle_in_bounds(outside, inside, outside));
    assert!(!triangle_in_bounds(on_edge, outside, on_edge));
    assert!(!should_cull_triangle(on_edge, outside, inside));
}
