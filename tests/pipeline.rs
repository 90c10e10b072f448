use std::sync::Arc;
use softraster::color::from_u8_rgb;
use softraster::color::u8_to_hex;
use softraster::raster::Point2;
use softraster::raster::RasterTriangle;
use softraster::raster::RasterVertex;
use softraster::raster::ScreenVertex;
use softraster::raster::Varying;
use softraster::raster::Winding;
use softraster::renderer::Renderer;
use softraster::renderer::TextureSlot;
use softraster::renderer::component_range;
use softraster::sampler::Sampler;
use softraster::sampler::UV_ONE;
use softraster::shader::FragmentShader;
use softraster::shader::Mat4;
use softraster::shader::MatRow;
use softraster::shader::Vec3;
use softraster::shader::VertexInput;
use softraster::shader::VertexShader;
use softraster::shader::transform;
use softraster::shader::MATRIX_ONE;
use softraster::shader::POSITION_ONE;
use softraster::shader::POSITION_LIMIT;
use softraster::shader::CLIP_SCALE;
use softraster::surface::Surface;
use softraster::vertex_set::VertexAttributes;
use softraster::vertex_set::VertexSet;

const QUAD_INDICES: [usize; 6] = [0, 1, 2, 2, 3, 0];

fn full_screen_quad(colour: Varying) -> VertexInput {
    VertexInput {
        positions: vec![
            Vec3 { x: -4096, y: 4096, z: 2048 },
            Vec3 { x: -4096, y: -4096, z: 2048 },
            Vec3 { x: 4096, y: -4096, z: 2048 },
            Vec3 { x: 4096, y: 4096, z: 2048 },
        ],
        attributes: vec![colour; 4],
    }
}

fn draw_quad(width: usize, height: usize, colour: Varying) -> Surface {
    let vs = VertexShader { view_projection: Mat4::identity() };
    let fs = FragmentShader { winding: Winding::CounterClockwise };
    let (output, indices) = vs.dispatch(&full_screen_quad(colour), &QUAD_INDICES);
    assert_eq!(output.clip_positions.len(), 6);
    assert_eq!(indices, vec![0, 1, 2, 3, 4, 5]);
    let mut surface = Surface::new(width, height);
    fs.dispatch(&mut surface, &output, &indices, &None);
    surface
}

#[test]
fn full_screen_quad_fills_every_pixel() {
    let colour = Varying { c0: 12, c1: 34, c2: 56 };
    for (w, h) in [(8usize, 6usize), (5, 7), (1, 1), (16, 9)] {
        let surface = draw_quad(w, h, colour);
        assert_eq!(surface.len(), w * h);
        assert!(surface.data().iter().all(|&c| c == 0xFF0C2238));
        for i in 0..w * h {
            assert_eq!(surface.get_depth(i), 8388608);
        }
    }
}

#[test]
fn vertex_stage_clips_and_fans_a_straddling_triangle() {
    // the first vertex lies behind the near plane: a quadrilateral, two triangles
    let input = VertexInput {
        positions: vec![
            Vec3 { x: 0, y: 0, z: -2048 },
            Vec3 { x: 1024, y: 0, z: 2048 },
            Vec3 { x: 0, y: 1024, z: 2048 },
        ],
        attributes: vec![
            Varying { c0: 0, c1: 0, c2: 0 },
            Varying { c0: 200, c1: 0, c2: 0 },
            Varying { c0: 0, c1: 100, c2: 0 },
        ],
    };
    let vs = VertexShader { view_projection: Mat4::identity() };
    let (output, indices) = vs.dispatch(&input, &[0, 1, 2]);
    assert_eq!(output.clip_positions.len(), 4);
    assert_eq!(indices, vec![0, 1, 2, 0, 2, 3]);
    // crossing points halfway along the edges into the first vertex
    assert_eq!(output.attributes[0], Varying { c0: 100, c1: 0, c2: 0 });
    assert_eq!(output.attributes[1], Varying { c0: 200, c1: 0, c2: 0 });
    assert_eq!(output.attributes[2], Varying { c0: 0, c1: 100, c2: 0 });
    assert_eq!(output.attributes[3], Varying { c0: 0, c1: 50, c2: 0 });
    for p in output.clip_positions.iter() {
        assert!(p.z >= 0 && p.z <= p.w);
    }
}

#[test]
fn vertex_stage_drops_rejected_triangles() {
    let input = VertexInput {
        positions: vec![
            Vec3 { x: 0, y: 0, z: -2048 },
            Vec3 { x: 1024, y: 0, z: -2048 },
            Vec3 { x: 0, y: 1024, z: -100 },
        ],
        attributes: vec![Varying { c0: 0, c1: 0, c2: 0 }; 3],
    };
    let vs = VertexShader { view_projection: Mat4::identity() };
    let (output, indices) = vs.dispatch(&input, &[0, 1, 2, 2, 1]);
    assert!(output.clip_positions.is_empty());
    assert!(indices.is_empty());
}

#[test]
fn triangle_indices_reads_three_consecutive_entries() {
    assert_eq!(VertexShader::triangle_indices(&[7, 8, 9, 10, 11, 12], 1), [10, 11, 12]);
}

#[test]
fn transform_extends_with_position_one_and_scales_down() {
    // identity entries and the extension are 4096; the product is divided by
    // 16384, rounding down
    let m = Mat4::identity();
    let v = transform(&m, Vec3 { x: 4, y: -8, z: 12 });
    assert_eq!(v.x, 1);
    assert_eq!(v.y, -2);
    assert_eq!(v.z, 3);
    assert_eq!(v.w, (POSITION_ONE as i64) * (MATRIX_ONE as i64) / CLIP_SCALE);
    let v = transform(&m, Vec3 { x: -1, y: 5, z: 0 });
    assert_eq!((v.x, v.y, v.z), (-1, 1, 0));
    // the widest positions and entries stay representable
    let far = transform(&m, Vec3 { x: POSITION_LIMIT, y: -POSITION_LIMIT, z: POSITION_LIMIT });
    assert_eq!(far.x, 4194304);
    assert_eq!(far.y, -4194304);
}

#[test]
fn matrix_product() {
    let i = Mat4::identity();
    assert_eq!(i.mul(&i), Some(i));
    let half = Mat4 {
        x: MatRow { x: 2048, y: 0, z: 0, w: 4096 },
        y: MatRow { x: 0, y: 2048, z: 0, w: 0 },
        z: MatRow { x: 0, y: 0, z: 2048, w: 0 },
        w: MatRow { x: 0, y: 0, z: 0, w: 4096 },
    };
    let p = half.mul(&half).unwrap();
    assert_eq!(p.x, MatRow { x: 1024, y: 0, z: 0, w: 6144 });
    assert_eq!(p.y, MatRow { x: 0, y: 1024, z: 0, w: 0 });
    let big = Mat4 {
        x: MatRow { x: 1048576, y: 1048576, z: 0, w: 0 },
        y: MatRow { x: 1048576, y: 1048576, z: 0, w: 0 },
        z: MatRow { x: 0, y: 0, z: 4096, w: 0 },
        w: MatRow { x: 0, y: 0, z: 0, w: 4096 },
    };
    assert_eq!(big.mul(&big), None);
}

#[test]
fn colour_packing() {
    assert_eq!(u8_to_hex(0xFF, 0x12, 0x34, 0x56), 0xFF123456);
    assert_eq!(u8_to_hex(0, 0, 0, 0), 0);
    assert_eq!(from_u8_rgb(0x12, 0x34, 0x56), 0x00123456);
    assert_eq!(from_u8_rgb(255, 255, 255), 0x00FFFFFF);
}

#[test]
fn component_range_of_an_element() {
    assert_eq!(component_range(2, 3), 6..9);
    assert_eq!(component_range(0, 2), 0..2);
}

fn quad_texture() -> Sampler {
    // 2x2 RGB: red, green on the first row; blue, white on the second
    let texels = vec![255, 0, 0, 0, 255, 0, 0, 0, 255, 255, 255, 255];
    let mut sampler = Sampler::new((2, 2), 3);
    sampler.bind_texture(Arc::new(texels));
    sampler
}

#[test]
fn renderer_draws_a_textured_quad() {
    let mut set = VertexSet::new();
    set.set_attribute(
        VertexAttributes::Position,
        Arc::new(vec![-4096, 4096, 2048, -4096, -4096, 2048, 4096, -4096, 2048, 4096, 4096, 2048]),
    );
    let one = UV_ONE as i32;
    set.set_attribute(VertexAttributes::TextureUV, Arc::new(vec![0, one, 0, 0, one, 0, one, one]));
    set.set_indices(Arc::new(vec![0, 1, 2, 2, 3, 0]));
    let mut renderer = Renderer::new();
    renderer.bind_vertex_set(Some(set));
    renderer.bind_sampler(TextureSlot::Diffuse, Some(quad_texture()));
    let mut surface = Surface::new(4, 4);
    assert_eq!(renderer.draw_buffer(&mut surface, &Mat4::identity(), 2), Some(()));
    assert_eq!(surface.get_pixel(0, 0), 0x00FF0000);
    assert_eq!(surface.get_pixel(3, 0), 0x0000FF00);
    assert_eq!(surface.get_pixel(0, 3), 0x000000FF);
    assert_eq!(surface.get_pixel(3, 3), 0x00FFFFFF);
}

#[test]
fn renderer_without_vertex_set_draws_nothing() {
    let renderer = Renderer::new();
    let mut surface = Surface::new(2, 2);
    assert_eq!(renderer.draw_buffer(&mut surface, &Mat4::identity(), 1), None);
    assert!(surface.data().iter().all(|&c| c == 0));
}

#[test]
fn renderer_with_unrepresentable_matrix_draws_nothing() {
    let mut renderer = Renderer::new();
    renderer.bind_vertex_set(Some(VertexSet::new()));
    renderer.projection_matrix = Mat4 {
        x: MatRow { x: 1048576, y: 1048576, z: 0, w: 0 },
        y: MatRow { x: 1048576, y: 1048576, z: 0, w: 0 },
        z: MatRow { x: 0, y: 0, z: 4096, w: 0 },
        w: MatRow { x: 0, y: 0, z: 0, w: 4096 },
    };
    renderer.view_matrix = renderer.projection_matrix;
    let mut surface = Surface::new(2, 2);
    assert_eq!(renderer.draw_buffer(&mut surface, &Mat4::identity(), 1), None);
}

#[test]
fn renderer_rasterizes_a_textured_triangle() {
    let corner = |x: i64, y: i64, u: u32, v: u32| RasterVertex {
        screen: ScreenVertex { position: Point2 { x, y }, depth: 0, w: 1 },
        varying: Varying { c0: u, c1: v, c2: 0 },
    };
    // the whole 2x2 surface, lower-left half: uv (0, 1), (0, 0), (1, 0)
    let one = UV_ONE;
    let tri = RasterTriangle {
        v0: corner(0, 0, 0, one),
        v1: corner(0, 32, 0, 0),
        v2: corner(32, 32, one, 0),
        winding: Winding::CounterClockwise,
    };
    let mut renderer = Renderer::new();
    renderer.bind_sampler(TextureSlot::Diffuse, Some(quad_texture()));
    let mut surface = Surface::new(2, 2);
    assert_eq!(renderer.raster_triangle(&mut surface, &tri), Some(()));
    // pixel (0, 1) samples the bottom-left texel: blue
    assert_eq!(surface.get_pixel(0, 1), 0x000000FF);
    // pixel (1, 0) lies in the other half
    assert_eq!(surface.get_pixel(1, 0), 0);
}

#[test]
fn fragment_stage_culls_triangles_facing_away() {
    let colour = Varying { c0: 1, c1: 2, c2: 3 };
    let vs = VertexShader { view_projection: Mat4::identity() };
    // the same quad with each triangle's vertices reversed
    let (output, indices) = vs.dispatch(&full_screen_quad(colour), &[0, 2, 1, 2, 0, 3]);
    let mut surface = Surface::new(4, 4);
    FragmentShader { winding: Winding::CounterClockwise }.dispatch(&mut surface, &output, &indices, &None);
    assert!(surface.data().iter().all(|&c| c == 0));
    // with the other winding they are the front faces
    FragmentShader { winding: Winding::Clockwise }.dispatch(&mut surface, &output, &indices, &None);
    assert!(surface.data().iter().all(|&c| c == 0xFF010203));
}

#[test]
fn renderer_culls_back_faces() {
    let mut set = VertexSet::new();
    set.set_attribute(
        VertexAttributes::Position,
        Arc::new(vec![-4096, 4096, 2048, -4096, -4096, 2048, 4096, -4096, 2048, 4096, 4096, 2048]),
    );
    let one = UV_ONE as i32;
    set.set_attribute(VertexAttributes::TextureUV, Arc::new(vec![0, one, 0, 0, one, 0, one, one]));
    set.set_indices(Arc::new(vec![0, 2, 1, 2, 0, 3]));
    let mut renderer = Renderer::new();
    renderer.bind_vertex_set(Some(set));
    renderer.bind_sampler(TextureSlot::Diffuse, Some(quad_texture()));
    let mut surface = Surface::new(4, 4);
    assert_eq!(renderer.draw_buffer(&mut surface, &Mat4::identity(), 2), Some(()));
    assert!(surface.data().iter().all(|&c| c == 0));
    renderer.winding = Winding::Clockwise;
    assert_eq!(renderer.draw_buffer(&mut surface, &Mat4::identity(), 2), Some(()));
    assert_eq!(surface.get_pixel(0, 0), 0x00FF0000);
}

#[test]
fn renderer_raster_triangle_off_the_surface() {
    let corner = |x: i64, y: i64| RasterVertex {
        screen: ScreenVertex { position: Point2 { x, y }, depth: 0, w: 1 },
        varying: Varying { c0: 0, c1: 0, c2: 0 },
    };
    let tri = RasterTriangle {
        v0: corner(100, 100),
        v1: corner(100, 200),
        v2: corner(200, 200),
        winding: Winding::CounterClockwise,
    };
    let mut renderer = Renderer::new();
    renderer.bind_sampler(TextureSlot::Diffuse, Some(quad_texture()));
    let mut surface = Surface::new(2, 2);
    assert_eq!(renderer.raster_triangle(&mut surface, &tri), None);
}
