//! A software triangle rasterizer in fixed-point arithmetic.
//!
//! Triangles are transformed to homogeneous clip space (`shader`), clipped
//! against the six planes of the view volume with the provenance of every
//! clipped vertex (`clip`), fan-triangulated, and rasterized with
//! perspective-correct attributes, nearest-neighbour texture sampling and a
//! depth test into a colour and depth buffer (`raster`, `sampler`, `surface`).
//!
//! All arithmetic is on integers. Clip-space coordinates are integers (scaling
//! a homogeneous point does not move it, so a transformed position is scaled
//! down by `shader::CLIP_SCALE` into range); screen positions carry
//! `raster::SUBPIXEL` steps per pixel; depth is NDC `z` scaled by
//! `raster::DEPTH_ONE`, compared with `<=`, and cleared to
//! `surface::DEPTH_CLEAR`; coverage follows the top-left fill rule, and a
//! triangle that does not run the front-face way round (`raster::Winding`) on
//! the screen is culled, by the same sign test that decides coverage.

pub mod bounding_box;
pub mod buffer;
pub mod clip;
pub mod color;
pub mod debug_line;
pub mod fixed;
pub mod raster;
pub mod renderer;
pub mod sampler;
pub mod shader;
pub mod surface;
pub mod vertex_set;
