use softraster::clip::Vec4;
use softraster::raster::Point2;
use softraster::raster::RasterTriangle;
use softraster::raster::RasterVertex;
use softraster::raster::ScreenVertex;
use softraster::raster::Varying;
use softraster::raster::Winding;
use softraster::raster::cull_back_face;
use softraster::raster::barycentric_weights;
use softraster::raster::edge_function;
use softraster::raster::generate_triangle_bounding_box;
use softraster::raster::interpolate_attribute;
use softraster::raster::rasterize_triangle;
use softraster::raster::to_screen_space;
use softraster::raster::weighted_average;
use softraster::raster::DEPTH_ONE;
use softraster::bounding_box::BoundingBox;
use softraster::bounding_box::UVec2;
use softraster::surface::Surface;
use softraster::surface::DEPTH_CLEAR;

fn vertex(x: i64, y: i64, depth: i64, w: i64, colour: (u32, u32, u32)) -> RasterVertex {
    RasterVertex {
        screen: ScreenVertex { position: Point2 { x, y }, depth, w },
        varying: Varying { c0: colour.0, c1: colour.1, c2: colour.2 },
    }
}

// Triangles here are drawn clockwise on the screen unless a test says otherwise.
fn flat(a: (i64, i64), b: (i64, i64), c: (i64, i64), depth: i64, colour: (u32, u32, u32)) -> RasterTriangle {
    RasterTriangle {
        v0: vertex(a.0, a.1, depth, 1, colour),
        v1: vertex(b.0, b.1, depth, 1, colour),
        v2: vertex(c.0, c.1, depth, 1, colour),
        winding: Winding::Clockwise,
    }
}

#[test]
fn edge_function_is_twice_the_signed_area() {
    let a = Point2 { x: 0, y: 0 };
    let b = Point2 { x: 4, y: 0 };
    let p = Point2 { x: 1, y: 3 };
    assert_eq!(edge_function(p, a, b), 12);
    assert_eq!(edge_function(p, b, a), -12);
    assert_eq!(edge_function(Point2 { x: 2, y: 0 }, a, b), 0);
}

#[test]
fn barycentric_weights_inside_on_edge_and_outside() {
    // a, b, c runs clockwise on the screen (y grows downward)
    let a = Point2 { x: 0, y: 0 };
    let b = Point2 { x: 8, y: 0 };
    let c = Point2 { x: 0, y: 8 };
    let cw = Winding::Clockwise;
    let ccw = Winding::CounterClockwise;
    assert_eq!(barycentric_weights(Point2 { x: 2, y: 2 }, a, b, c, cw), Some((32, 16, 16)));
    // the other winding covers nothing
    assert_eq!(barycentric_weights(Point2 { x: 2, y: 2 }, a, b, c, ccw), None);
    // reversing the vertices reverses the winding
    assert_eq!(barycentric_weights(Point2 { x: 2, y: 2 }, a, c, b, ccw), Some((32, 16, 16)));
    assert_eq!(barycentric_weights(Point2 { x: 2, y: 2 }, a, c, b, cw), None);
    assert_eq!(barycentric_weights(Point2 { x: 4, y: 0 }, a, b, c, cw), Some((32, 32, 0)));
    assert_eq!(barycentric_weights(Point2 { x: 9, y: 9 }, a, b, c, cw), None);
    // on an edge that is neither a top nor a left edge
    assert_eq!(barycentric_weights(Point2 { x: 4, y: 4 }, a, b, c, cw), None);
    // on the left edge
    assert_eq!(barycentric_weights(Point2 { x: 0, y: 4 }, a, b, c, cw), Some((32, 0, 32)));
    // a degenerate triangle covers nothing
    assert_eq!(barycentric_weights(Point2 { x: 0, y: 0 }, a, a, b, cw), None);
    assert_eq!(barycentric_weights(Point2 { x: 0, y: 0 }, a, a, b, ccw), None);
}

#[test]
fn back_face_test_follows_the_winding() {
    let a = Point2 { x: 0, y: 0 };
    let b = Point2 { x: 8, y: 0 };
    let c = Point2 { x: 0, y: 8 };
    assert!(!cull_back_face(a, b, c, Winding::Clockwise));
    assert!(cull_back_face(a, b, c, Winding::CounterClockwise));
    assert!(cull_back_face(a, c, b, Winding::Clockwise));
    assert!(!cull_back_face(a, c, b, Winding::CounterClockwise));
    assert!(cull_back_face(a, a, c, Winding::Clockwise));
    assert!(cull_back_face(a, a, c, Winding::CounterClockwise));
}

#[test]
fn back_facing_triangle_draws_nothing() {
    let mut surface = Surface::new(4, 4);
    let mut tri = flat((0, 0), (128, 0), (0, 128), 1000, (255, 0, 0));
    tri.winding = Winding::CounterClockwise;
    rasterize_triangle(&mut surface, &tri, &None);
    assert!(surface.data().iter().all(|&c| c == 0));
    assert_eq!(surface.get_depth(0), DEPTH_CLEAR);
}

#[test]
fn screen_mapping_flips_y_and_scales_depth() {
    // 8x4 surface: x in [-w, w] maps to [0, 128], y in [w, -w] to [0, 64]
    let s = to_screen_space(8, 4, Vec4::new(-2, 2, 1, 2));
    assert_eq!(s, ScreenVertex { position: Point2 { x: 0, y: 0 }, depth: DEPTH_ONE / 2, w: 2 });
    let s = to_screen_space(8, 4, Vec4::new(2, -2, 2, 2));
    assert_eq!(s, ScreenVertex { position: Point2 { x: 128, y: 64 }, depth: DEPTH_ONE, w: 2 });
    let s = to_screen_space(8, 4, Vec4::new(1, 0, 0, 4));
    assert_eq!(s, ScreenVertex { position: Point2 { x: 80, y: 32 }, depth: 0, w: 4 });
}

#[test]
fn bounding_box_holds_pixels_with_centres_in_extent() {
    // centres are at 16 * i + 8
    let r = generate_triangle_bounding_box(
        Point2 { x: 8, y: 20 },
        Point2 { x: 40, y: 24 },
        Point2 { x: 9, y: 56 },
    );
    assert_eq!(r, BoundingBox::new(UVec2::new(0, 1), UVec2::new(3, 4)));
}

#[test]
fn weighted_average_rounds_down() {
    assert_eq!(weighted_average((1, 1, 1), 0, 1, 1), 0);
    assert_eq!(weighted_average((1, 1, 0), 10, 20, 99), 15);
    assert_eq!(weighted_average((0, 0, 5), 10, 20, 99), 99);
    assert_eq!(weighted_average((2, 1, 0), 0, 255, 0), 85);
}

#[test]
fn nearer_triangle_wins_drawn_back_to_front() {
    let mut surface = Surface::new(4, 4);
    let far = flat((0, 0), (128, 0), (0, 128), 1000, (255, 0, 0));
    let near = flat((0, 0), (40, 0), (0, 40), 500, (0, 255, 0));
    rasterize_triangle(&mut surface, &far, &None);
    rasterize_triangle(&mut surface, &near, &None);
    assert_eq!(surface.get_pixel(0, 0), 0xFF00FF00);
    assert_eq!(surface.get_depth(0), 500);
    // a pixel that only the far triangle covers keeps its colour
    assert_eq!(surface.get_pixel(3, 0), 0xFFFF0000);
    assert_eq!(surface.get_depth(3), 1000);
}

#[test]
fn nearer_triangle_wins_drawn_front_to_back() {
    let mut surface = Surface::new(4, 4);
    let far = flat((0, 0), (128, 0), (0, 128), 1000, (255, 0, 0));
    let near = flat((0, 0), (40, 0), (0, 40), 500, (0, 255, 0));
    rasterize_triangle(&mut surface, &near, &None);
    rasterize_triangle(&mut surface, &far, &None);
    assert_eq!(surface.get_pixel(0, 0), 0xFF00FF00);
    assert_eq!(surface.get_depth(0), 500);
}

#[test]
fn equal_depth_lets_the_later_fragment_through() {
    let mut surface = Surface::new(2, 2);
    let first = flat((0, 0), (64, 0), (0, 64), 700, (1, 2, 3));
    let second = flat((0, 0), (64, 0), (0, 64), 700, (4, 5, 6));
    rasterize_triangle(&mut surface, &first, &None);
    rasterize_triangle(&mut surface, &second, &None);
    assert_eq!(surface.get_pixel(0, 0), 0xFF040506);
}

#[test]
fn interpolation_at_a_vertex_gives_its_own_attribute() {
    for (a0, a1, a2) in [(10u32, 200u32, 0u32), (65536, 1, 777), (0, 0, 65536)] {
        for (cw0, cw1, cw2) in [(1i64, 2i64, 3i64), (4294967296, 1, 77), (5, 5, 5)] {
            assert_eq!(interpolate_attribute((9, 0, 0), cw0, cw1, cw2, a0, a1, a2), a0);
            assert_eq!(interpolate_attribute((0, 1, 0), cw0, cw1, cw2, a0, a1, a2), a1);
            assert_eq!(interpolate_attribute((0, 0, 2199023255552), cw0, cw1, cw2, a0, a1, a2), a2);
        }
    }
}

#[test]
fn pixel_at_a_vertex_takes_its_attribute() {
    // The vertex at the centre of pixel (0, 0) joins a top edge and a left edge,
    // so that pixel belongs to the triangle.
    let mut surface = Surface::new(4, 4);
    let tri = RasterTriangle {
        v0: vertex(8, 8, 10, 1, (10, 20, 30)),
        v1: vertex(56, 8, 20, 2, (200, 100, 50)),
        v2: vertex(8, 56, 30, 3, (0, 0, 255)),
        winding: Winding::Clockwise,
    };
    rasterize_triangle(&mut surface, &tri, &None);
    assert_eq!(surface.get_pixel(0, 0), 0xFF0A141E);
    assert_eq!(surface.get_depth(0), 10);
    // the other two vertices end a right edge: their pixels are left to the
    // neighbouring triangle
    assert_eq!(surface.get_pixel(3, 0), 0);
    assert_eq!(surface.get_pixel(0, 3), 0);
}

#[test]
fn shared_edge_pixels_are_drawn_once() {
    // The two halves of a 4x4 quad share the diagonal; its pixels belong to
    // the upper half only, so drawing the lower half afterwards leaves them.
    let mut upper = flat((64, 64), (64, 0), (0, 0), 100, (0, 0, 255));
    let mut lower = flat((0, 0), (0, 64), (64, 64), 100, (255, 0, 0));
    upper.winding = Winding::CounterClockwise;
    lower.winding = Winding::CounterClockwise;
    let mut surface = Surface::new(4, 4);
    rasterize_triangle(&mut surface, &upper, &None);
    rasterize_triangle(&mut surface, &lower, &None);
    for i in 0..4 {
        assert_eq!(surface.get_pixel(i, i), 0xFF0000FF);
    }
    assert_eq!(surface.get_pixel(0, 3), 0xFFFF0000);
    assert_eq!(surface.get_pixel(3, 0), 0xFF0000FF);
    assert!(surface.data().iter().all(|&c| c != 0));
}

#[test]
fn perspective_correction_weights_the_nearer_vertex() {
    // Halfway along an edge in screen space, the vertex with the smaller w
    // contributes more.
    let mut surface = Surface::new(8, 1);
    let tri = RasterTriangle {
        v0: vertex(8, 0, 0, 1, (0, 0, 0)),
        v1: vertex(120, 0, 0, 3, (240, 0, 0)),
        v2: vertex(8, 16, 0, 1, (0, 0, 0)),
        winding: Winding::Clockwise,
    };
    rasterize_triangle(&mut surface, &tri, &None);
    // Pixel 3 has its centre at (56, 8): screen weights 128, 768 and 896 of
    // 1792 (red 102 if interpolated affinely); divided by w they give
    // 240 * 768 / (3 * 128 + 768 + 3 * 896) = 48.
    let red = (surface.get_pixel(3, 0) >> 16) & 0xFF;
    assert_eq!(red, 48);
}

#[test]
fn triangle_off_the_surface_draws_nothing() {
    let mut surface = Surface::new(2, 2);
    let tri = flat((100, 100), (200, 100), (100, 200), 5, (9, 9, 9));
    assert_eq!(rasterize_triangle(&mut surface, &tri, &None), None);
    assert!(surface.data().iter().all(|&c| c == 0));
    assert_eq!(surface.get_depth(0), DEPTH_CLEAR);
}

#[test]
fn degenerate_triangle_draws_nothing() {
    let mut surface = Surface::new(4, 4);
    let tri = flat((0, 0), (64, 64), (32, 32), 5, (9, 9, 9));
    rasterize_triangle(&mut surface, &tri, &None);
    assert!(surface.data().iter().all(|&c| c == 0));
}
