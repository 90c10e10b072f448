use vstd::prelude::*;
use std::ops::Range;
use crate::raster::ATTRIBUTE_LIMIT;
use crate::raster::Varying;
use crate::raster::RasterTriangle;
use crate::raster::Winding;
use crate::bounding_box::BoundingBox;
use crate::bounding_box::UVec2;
use crate::raster::rasterize_triangle;
use crate::raster::rasterized_colours;
use crate::raster::rasterized_depths;
use crate::sampler::Sampler;
use crate::shader::FragmentShader;
use crate::shader::INDEX_LIMIT;
use crate::shader::Mat4;
use crate::shader::POSITION_LIMIT;
use crate::shader::Vec3;
use crate::shader::VertexInput;
use crate::shader::VertexShader;
use crate::shader::fragment_stage;
use crate::shader::product_fits;
use crate::shader::spec_mul;
use crate::shader::vertex_stage;
use crate::surface::Surface;
use crate::vertex_set::VertexAttributes;
use crate::vertex_set::VertexSet;
use crate::fixed::lemma_div_bounds;

verus! {

/// The texture slots a renderer has.
#[derive(Clone, Copy, Debug, PartialEq, Eq, Structural)]
pub enum TextureSlot {
    Diffuse,
    MaxTextureSlots,
}

/// Number of texture slots.
pub const TEXTURE_SLOTS: usize = 1;

/// The components `start * stride .. start * stride + stride` of element `start`
/// of a flat stream.
pub fn component_range(start: usize, stride: usize) -> (r: Range<usize>)
    requires
        start * stride + stride <= usize::MAX,
    ensures
        r.start == start * stride,
        r.end == start * stride + stride,
{
    assert(0 <= start * stride) by (nonlinear_arith);
    (start * stride)..(start * stride + stride)
}

/// The positions of a flat stream of three components per vertex.
pub open spec fn stream_positions(stream: Seq<i32>) -> Seq<Vec3> {
    Seq::new(
        stream.len() / 3,
        |v: int| Vec3 { x: stream[3 * v], y: stream[3 * v + 1], z: stream[3 * v + 2] },
    )
}

/// The texture coordinates of the first `count` vertices of a flat stream of two
/// components per vertex.
pub open spec fn stream_uvs(stream: Seq<i32>, count: nat) -> Seq<Varying> {
    Seq::new(
        count,
        |v: int| Varying { c0: stream[2 * v] as u32, c1: stream[2 * v + 1] as u32, c2: 0 },
    )
}

/// The index list of a draw of `count` triangles: the first `3 * count` entries
/// of the index buffer, or `0 .. 3 * count` without one.
pub open spec fn draw_indices(indices: Option<Seq<u32>>, count: nat) -> Seq<usize> {
    match indices {
        Some(ix) => Seq::new(3 * count, |k: int| ix[k] as usize),
        None => Seq::new(3 * count, |k: int| k as usize),
    }
}

/// A vertex set and a sampler can draw `count` triangles: positions and texture
/// coordinates are present and in range, every index used names a vertex, and
/// the sampler has a texture.
pub open spec fn drawable(set: VertexSet, sampler: Option<Sampler>, count: nat) -> bool {
    let positions = set.spec_attribute(VertexAttributes::Position.spec_slot());
    let uvs = set.spec_attribute(VertexAttributes::TextureUV.spec_slot());
    &&& set.wf()
    &&& positions is Some
    &&& uvs is Some
    &&& forall|k: int|
        0 <= k < positions.unwrap().len() ==> -POSITION_LIMIT <= #[trigger] positions.unwrap()[k]
            <= POSITION_LIMIT
    &&& uvs.unwrap().len() >= 2 * (positions.unwrap().len() / 3)
    &&& forall|k: int|
        0 <= k < uvs.unwrap().len() ==> 0 <= #[trigger] uvs.unwrap()[k] <= ATTRIBUTE_LIMIT
    &&& 3 * count <= INDEX_LIMIT
    &&& match set.spec_indices() {
        Some(ix) => 3 * count <= ix.len() && forall|k: int|
            0 <= k < 3 * count ==> #[trigger] ix[k] < positions.unwrap().len() / 3,
        None => 3 * count <= positions.unwrap().len() / 3,
    }
    &&& sampler matches Some(s) && s.ready()
}

/// A renderer holding the camera matrices, a bound vertex set and bound samplers.
pub struct Renderer {
    pub view_matrix: Mat4,
    pub projection_matrix: Mat4,
    /// The winding of front faces; triangles wound the other way are culled.
    pub winding: Winding,
    bound_vertex_data: Option<VertexSet>,
    texture_slots: Vec<Option<Sampler>>,
}

impl Renderer {
    pub closed spec fn spec_view(&self) -> Mat4 {
        self.view_matrix
    }

    pub closed spec fn spec_projection(&self) -> Mat4 {
        self.projection_matrix
    }

    pub closed spec fn spec_winding(&self) -> Winding {
        self.winding
    }

    pub closed spec fn spec_vertex_set(&self) -> Option<VertexSet> {
        self.bound_vertex_data
    }

    /// The sampler bound to the diffuse slot.
    pub closed spec fn spec_sampler(&self) -> Option<Sampler> {
        self.texture_slots@[0]
    }

    pub closed spec fn wf(&self) -> bool {
        self.texture_slots@.len() == TEXTURE_SLOTS
    }

    /// A renderer with identity matrices and nothing bound.
    pub fn new() -> (r: Renderer)
        ensures
            r.wf(),
            r.spec_view() == Mat4::spec_identity(),
            r.spec_projection() == Mat4::spec_identity(),
            r.spec_winding() == Winding::CounterClockwise,
            r.spec_vertex_set() is None,
            r.spec_sampler() is None,
    {
        let mut texture_slots: Vec<Option<Sampler>> = Vec::new();
        texture_slots.push(None);
        Renderer {
            view_matrix: Mat4::identity(),
            projection_matrix: Mat4::identity(),
            winding: Winding::CounterClockwise,
            bound_vertex_data: None,
            texture_slots,
        }
    }

    pub fn bind_sampler(&mut self, index: TextureSlot, sampler: Option<Sampler>)
        requires
            old(self).wf(),
            index == TextureSlot::Diffuse,
        ensures
            final(self).wf(),
            final(self).spec_sampler() == sampler,
            final(self).spec_vertex_set() == old(self).spec_vertex_set(),
            final(self).spec_view() == old(self).spec_view(),
            final(self).spec_projection() == old(self).spec_projection(),
            final(self).spec_winding() == old(self).spec_winding(),
    {
        self.texture_slots.set(0, sampler);
    }

    pub fn bind_vertex_set(&mut self, vertices: Option<VertexSet>)
        ensures
            final(self).wf() == old(self).wf(),
            final(self).spec_vertex_set() == vertices,
            final(self).spec_sampler() == old(self).spec_sampler(),
            final(self).spec_view() == old(self).spec_view(),
            final(self).spec_projection() == old(self).spec_projection(),
            final(self).spec_winding() == old(self).spec_winding(),
    {
        self.bound_vertex_data = vertices;
    }

    /// Draws `triangle_count` triangles of the bound vertex set, transformed by
    /// `projection * view * model`, textured through the diffuse sampler; a
    /// triangle that does not face the viewer by `winding` is culled. Returns
    /// `None`, drawing nothing, when no vertex set is bound or the combined
    /// matrix does not fit the fixed-point range.
    pub fn draw_buffer(&self, surface: &mut Surface, model_matrix: &Mat4, triangle_count: usize) -> (r: Option<()>)
        requires
            self.wf(),
            old(surface).wf(),
            self.spec_view().in_range(),
            self.spec_projection().in_range(),
            model_matrix.in_range(),
            self.spec_vertex_set() matches Some(set) ==> drawable(set, self.spec_sampler(), triangle_count as nat),
        ensures
            final(surface).wf(),
            final(surface).spec_width() == old(surface).spec_width(),
            final(surface).spec_height() == old(surface).spec_height(),
            r is None <==> (self.spec_vertex_set() is None || !product_fits(self.spec_projection(), self.spec_view())
                || !product_fits(spec_mul(self.spec_projection(), self.spec_view()), *model_matrix)),
            r is None ==> final(surface).depths() == old(surface).depths() && final(surface).colours() == old(surface).colours(),
            r is Some ==> ({
                let set = self.spec_vertex_set().unwrap();
                let mvp = spec_mul(spec_mul(self.spec_projection(), self.spec_view()), *model_matrix);
                let positions = stream_positions(set.spec_attribute(VertexAttributes::Position.spec_slot()).unwrap());
                let uvs = stream_uvs(set.spec_attribute(VertexAttributes::TextureUV.spec_slot()).unwrap(), positions.len());
                let stage = vertex_stage(mvp, positions, uvs, draw_indices(set.spec_indices(), triangle_count as nat), triangle_count as nat);
                (final(surface).depths(), final(surface).colours()) == fragment_stage(
                    old(surface).spec_width() as int,
                    old(surface).spec_height() as int,
                    stage.0,
                    stage.1,
                    stage.2,
                    self.spec_sampler(),
                    self.spec_winding(),
                    old(surface).depths(),
                    old(surface).colours(),
                    (stage.2.len() / 3) as nat,
                )
            }),
    {
        let vertices = match &self.bound_vertex_data {
            Some(v) => v,
            None => return None,
        };
        let pv = match self.projection_matrix.mul(&self.view_matrix) {
            Some(m) => m,
            None => return None,
        };
        let mvp = match pv.mul(model_matrix) {
            Some(m) => m,
            None => return None,
        };
        let ghost sampler = self.spec_sampler();
        let position_data = match vertices.get_attribute(VertexAttributes::Position) {
            Some(p) => p,
            None => return None,
        };
        let uv_data = match vertices.get_attribute(VertexAttributes::TextureUV) {
            Some(u) => u,
            None => return None,
        };
        let vertex_count = position_data.len() / 3;
        let mut positions: Vec<Vec3> = Vec::new();
        let mut attributes: Vec<Varying> = Vec::new();
        let mut v: usize = 0;
        while v < vertex_count
            invariant
                vertex_count == position_data@.len() / 3,
                v <= vertex_count,
                uv_data@.len() >= 2 * vertex_count,
                forall|k: int|
                    0 <= k < position_data@.len() ==> -POSITION_LIMIT <= #[trigger] position_data@[k]
                        <= POSITION_LIMIT,
                forall|k: int|
                    0 <= k < uv_data@.len() ==> 0 <= #[trigger] uv_data@[k] <= ATTRIBUTE_LIMIT,
                positions@ == stream_positions(position_data@).subrange(0, v as int),
                attributes@ == stream_uvs(uv_data@, vertex_count as nat).subrange(0, v as int),
            decreases vertex_count - v,
        {
            proof {
                lemma_div_bounds(position_data@.len() as int, 3);
            }
            assert(3 * v + 3 <= position_data.len());
            assert(2 * v + 2 <= uv_data.len());
            let p = component_range(v, 3);
            let t = component_range(v, 2);
            let position = Vec3 {
                x: position_data[p.start],
                y: position_data[p.start + 1],
                z: position_data[p.start + 2],
            };
            let uv = Varying { c0: uv_data[t.start] as u32, c1: uv_data[t.start + 1] as u32, c2: 0 };
            positions.push(position);
            attributes.push(uv);
            proof {
                assert(positions@ =~= stream_positions(position_data@).subrange(0, v + 1));
                assert(attributes@ =~= stream_uvs(uv_data@, vertex_count as nat).subrange(0, v + 1));
            }
            v += 1;
        }
        assert(positions@ =~= stream_positions(position_data@));
        assert(attributes@ =~= stream_uvs(uv_data@, vertex_count as nat));
        let index_count = triangle_count * 3;
        let mut indices: Vec<usize> = Vec::new();
        let ghost wanted = draw_indices(vertices.spec_indices(), triangle_count as nat);
        let index_data = vertices.get_indices();
        let mut k: usize = 0;
        while k < index_count
            invariant
                index_count == 3 * triangle_count,
                index_count <= INDEX_LIMIT,
                k <= index_count,
                wanted == draw_indices(vertices.spec_indices(), triangle_count as nat),
                match index_data {
                    Some(s) => vertices.spec_indices() == Some(s@) && index_count <= s@.len(),
                    None => vertices.spec_indices() is None,
                },
                indices@ == wanted.subrange(0, k as int),
            decreases index_count - k,
        {
            let index = match index_data {
                Some(s) => s[k] as usize,
                None => k,
            };
            indices.push(index);
            assert(indices@ =~= wanted.subrange(0, k + 1));
            k += 1;
        }
        assert(indices@ =~= wanted);
        let input = VertexInput { positions, attributes };
        assert(input.wf()) by {
            assert forall|i: int| 0 <= i < input.positions.len() implies #[trigger] input.positions[i].in_range() by {
                assert(-POSITION_LIMIT <= position_data@[3 * i] <= POSITION_LIMIT);
                assert(-POSITION_LIMIT <= position_data@[3 * i + 1] <= POSITION_LIMIT);
                assert(-POSITION_LIMIT <= position_data@[3 * i + 2] <= POSITION_LIMIT);
            }
            assert forall|i: int| 0 <= i < input.attributes.len() implies #[trigger] input.attributes[i].wf() by {
                assert(0 <= uv_data@[2 * i] <= ATTRIBUTE_LIMIT);
                assert(0 <= uv_data@[2 * i + 1] <= ATTRIBUTE_LIMIT);
            }
        }
        assert forall|i: int| 0 <= i < indices@.len() implies #[trigger] indices@[i] < input.positions.len() by {
            match vertices.spec_indices() {
                Some(ix) => {
                    assert(ix[i] < vertex_count);
                },
                None => {},
            }
        }
        let shader = VertexShader { view_projection: mvp };
        let index_slice = indices.as_slice();
        assert(index_slice@ == indices@);
        let (output, triangles) = shader.dispatch(&input, index_slice);
        let fragments = FragmentShader { winding: self.winding };
        fragments.dispatch(surface, &output, triangles.as_slice(), &self.texture_slots[0]);
        Some(())
    }

    /// Rasterizes one screen-space triangle whose attributes are texture
    /// coordinates, shading through the diffuse sampler.
    pub fn raster_triangle(&self, surface: &mut Surface, triangle: &RasterTriangle) -> (r: Option<()>)
        requires
            self.wf(),
            old(surface).wf(),
            triangle.wf(),
            self.spec_sampler() matches Some(s) && s.ready(),
        ensures
            final(surface).wf(),
            final(surface).spec_width() == old(surface).spec_width(),
            final(surface).spec_height() == old(surface).spec_height(),
            final(surface).depths() == rasterized_depths(
                *triangle,
                old(surface).spec_width() as int,
                old(surface).spec_height() as int,
                old(surface).depths(),
            ),
            final(surface).colours() == rasterized_colours(
                *triangle,
                old(surface).spec_width() as int,
                old(surface).spec_height() as int,
                old(surface).depths(),
                old(surface).colours(),
                self.spec_sampler(),
            ),
            r is None <==> triangle.bounds().spec_intersect(
                BoundingBox {
                    start: UVec2 { x: 0, y: 0 },
                    end: UVec2 {
                        x: old(surface).spec_width() as u32,
                        y: old(surface).spec_height() as u32,
                    },
                },
            ) is None,
    {
        rasterize_triangle(surface, triangle, &self.texture_slots[0])
    }
}

} // verus!
