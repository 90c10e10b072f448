use softraster::debug_line::DebugLineShader;
use softraster::debug_line::LINE_COLOUR;
use softraster::shader::Mat4;
use softraster::shader::Vec3;
use softraster::surface::Surface;
use softraster::surface::DEPTH_CLEAR;

fn p(x: i32, y: i32, z: i32) -> Vec3 {
    Vec3 { x, y, z }
}

#[test]
fn diagonal_line_covers_the_diagonal() {
    let shader = DebugLineShader { view_projection: Mat4::identity() };
    let mut surface = Surface::new(8, 8);
    shader.dispatch(&mut surface, &[(p(-4096, 4096, 2048), p(4096, -4096, 2048))]);
    for j in 0..8 {
        for i in 0..8 {
            let expected = if i == j { LINE_COLOUR } else { 0 };
            assert_eq!(surface.get_pixel(i, j), expected);
        }
    }
    assert_eq!(surface.get_depth(0), DEPTH_CLEAR);
}

#[test]
fn horizontal_line_covers_one_row() {
    let shader = DebugLineShader { view_projection: Mat4::identity() };
    let mut surface = Surface::new(8, 8);
    shader.dispatch(&mut surface, &[(p(-4096, 512, 0), p(4096, 512, 4096))]);
    for j in 0..8 {
        for i in 0..8 {
            let expected = if j == 3 { LINE_COLOUR } else { 0 };
            assert_eq!(surface.get_pixel(i, j), expected);
        }
    }
}

#[test]
fn steep_line_is_connected() {
    let shader = DebugLineShader { view_projection: Mat4::identity() };
    let mut surface = Surface::new(4, 8);
    // from pixel (0, 0) to pixel (1, 7)
    shader.dispatch(&mut surface, &[(p(-4096, 4096, 2048), p(-1024, -4096, 2048))]);
    for j in 0..8 {
        let lit: Vec<usize> = (0..4).filter(|&i| surface.get_pixel(i, j) == LINE_COLOUR).collect();
        assert_eq!(lit.len(), 1);
        assert!(lit[0] <= 1);
    }
    assert_eq!(surface.get_pixel(0, 0), LINE_COLOUR);
    assert_eq!(surface.get_pixel(1, 7), LINE_COLOUR);
}

#[test]
fn line_behind_the_eye_is_skipped() {
    let shader = DebugLineShader { view_projection: Mat4::identity() };
    let mut surface = Surface::new(4, 4);
    shader.dispatch(&mut surface, &[(p(0, 0, -100), p(1024, 1024, 2048))]);
    assert!(surface.data().iter().all(|&c| c == 0));
}

#[test]
fn line_leaving_the_screen_is_clipped() {
    let shader = DebugLineShader { view_projection: Mat4::identity() };
    let mut surface = Surface::new(8, 8);
    // row 3, from the left edge to far beyond the right edge
    shader.dispatch(&mut surface, &[(p(-4096, 512, 2048), p(40000, 512, 2048))]);
    for j in 0..8 {
        for i in 0..8 {
            let expected = if j == 3 { LINE_COLOUR } else { 0 };
            assert_eq!(surface.get_pixel(i, j), expected);
        }
    }
}

#[test]
fn line_wholly_beside_the_screen_draws_nothing() {
    let shader = DebugLineShader { view_projection: Mat4::identity() };
    let mut surface = Surface::new(4, 4);
    shader.dispatch(&mut surface, &[(p(8192, 0, 2048), p(20000, 4096, 2048))]);
    assert!(surface.data().iter().all(|&c| c == 0));
}

#[test]
fn point_line_lights_one_pixel() {
    let shader = DebugLineShader { view_projection: Mat4::identity() };
    let mut surface = Surface::new(4, 4);
    shader.dispatch(&mut surface, &[(p(0, 0, 2048), p(0, 0, 2048))]);
    assert_eq!(surface.data().iter().filter(|&&c| c == LINE_COLOUR).count(), 1);
    assert_eq!(surface.get_pixel(2, 2), LINE_COLOUR);
}
