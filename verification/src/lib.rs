//! The core of a CPU-only software 3D renderer, verified with Verus.
//!
//! A draw call runs each triangle of a mesh through a vertex stage, drops
//! back faces, chooses a mip level, and fills the triangle row by row with
//! perspective-correct interpolation and a depth test; each covered pixel
//! gets its colour from a pixel stage.
//!
//! The library computes with any number type that implements
//! [`scalar::Scalar`] and contains no floating-point arithmetic itself. What
//! a routine computes is stated over the scalar's operations: which pixels a
//! triangle visits, with what depth and what colour, what a texture lookup
//! blends, what a draw call hands to the rasterizer. No operation fails,
//! whatever the arithmetic returns.
//!
//! The frame changes only through depth-tested writes of fragments. Of
//! fragment lists [`framebuffer`] proves that drawing a list a second time
//! changes nothing, that lists of different depths can be drawn in either
//! order, and that fragments outside the frame leave it untouched.
//! [`unique`] carries the first two over to triangles, on the condition that
//! the scalar's operations are functions of their operands: then a triangle
//! visits the same pixels at the same depths whenever it is drawn. The
//! condition is part of those laws; nothing else here assumes it.
//!
//! Everything that works on integers and bytes has an exact contract: colour
//! packing, the frame's display format, image decoding, the shape of mipmap
//! pyramids, texel addressing, the shader's registers, index lists and the
//! readers of model files.
//!
//! Depths are kept as unsigned keys with the order of the inverse depths
//! they stand for; the scalar type supplies the key.

pub mod color;
pub mod fps;
pub mod framebuffer;
pub mod generator;
pub mod header3ds;
pub mod importobj;
pub mod material;
pub mod mesh;
pub mod raster;
pub mod reader;
pub mod scalar;
pub mod shader;
pub mod texture;
pub mod unique;
