use std::sync::Arc;
use softraster::buffer::IBuffer;
use softraster::color::Rgba8;
use softraster::sampler::Sampler;
use softraster::sampler::UV_ONE;
use softraster::surface::Surface;
use softraster::surface::DEPTH_CLEAR;
use softraster::vertex_set::VertexAttributes;
use softraster::vertex_set::VertexSet;

#[test]
fn ibuffer_fill_and_read() {
    let mut b = IBuffer::new(vec![1, 2, 3]);
    assert_eq!(b.len(), 3);
    assert_eq!(b.data(), &[1, 2, 3]);
    b.fill(7);
    assert_eq!(b.data(), &[7, 7, 7]);
    let mut empty = IBuffer::new(vec![]);
    empty.fill(1);
    assert_eq!(empty.len(), 0);
}

#[test]
fn surface_starts_black_with_depth_cleared() {
    let s = Surface::new(3, 2);
    assert_eq!(s.get_width(), 3);
    assert_eq!(s.get_height(), 2);
    assert_eq!(s.len(), 6);
    assert_eq!(s.stride(), 3);
    assert!(s.data().iter().all(|&c| c == 0));
    for i in 0..6 {
        assert_eq!(s.get_depth(i), DEPTH_CLEAR);
    }
}

#[test]
fn surface_pixel_access() {
    let mut s = Surface::new(3, 2);
    s.set_pixel_coords(0xABCDEF, 2, 1);
    assert_eq!(s.get_pixel(2, 1), 0xABCDEF);
    assert_eq!(s.data()[5], 0xABCDEF);
    s.set_pixel_index(0x123, 1);
    assert_eq!(s.get_pixel(1, 0), 0x123);
    s.set_depth(4, 99);
    assert_eq!(s.get_depth(4), 99);
    s.clear(0x10, 1000);
    assert!(s.data().iter().all(|&c| c == 0x10));
    assert_eq!(s.get_depth(4), 1000);
}

#[test]
fn empty_surface() {
    let mut s = Surface::new(0, 5);
    s.clear(1, 1);
    assert_eq!(s.len(), 0);
    assert!(s.data().is_empty());
}

#[test]
fn sampler_picks_nearest_texel() {
    // 2x2, four channels per texel
    let texels = vec![1, 2, 3, 4, 5, 6, 7, 8, 9, 10, 11, 12, 13, 14, 15, 16];
    let mut s = Sampler::new((2, 2), 4);
    s.bind_texture(Arc::new(texels));
    assert_eq!(s.sample(0, 0), Rgba8 { r: 1, g: 2, b: 3, a: 255 });
    assert_eq!(s.sample(UV_ONE / 2, 0), Rgba8 { r: 5, g: 6, b: 7, a: 255 });
    assert_eq!(s.sample(UV_ONE / 2 - 1, UV_ONE / 2), Rgba8 { r: 9, g: 10, b: 11, a: 255 });
    // coordinates at or past 1.0 clamp to the last texel
    assert_eq!(s.sample(UV_ONE, UV_ONE), Rgba8 { r: 13, g: 14, b: 15, a: 255 });
    assert_eq!(s.sample(u32::MAX, 0), Rgba8 { r: 5, g: 6, b: 7, a: 255 });
}

#[test]
fn vertex_set_streams() {
    let mut set = VertexSet::new();
    assert!(set.get_indices().is_none());
    assert!(set.get_attribute(VertexAttributes::Position).is_none());
    set.set_attribute(VertexAttributes::Colour, Arc::new(vec![1, 2, 3]));
    set.set_indices(Arc::new(vec![0, 1, 2]));
    assert_eq!(set.get_attribute(VertexAttributes::Colour), Some(&[1, 2, 3][..]));
    assert!(set.get_attribute(VertexAttributes::Normal).is_none());
    assert_eq!(set.get_indices(), Some(&[0u32, 1, 2][..]));
}
