//! The colours and textures of a surface.

use vstd::prelude::*;
use crate::texture::{decoded, is_loaded, is_pyramid, Texture, TextureCube};
use crate::scalar::Scalar;

verus! {

/// Why an image could not become a texture.
#[derive(Clone, Copy, Debug, PartialEq, Eq, Structural)]
pub enum TextureError {
    /// A size is 0, or the bytes are not four per pixel.
    BadImage,
}

/// What a surface looks like: three colours, how strongly the ambient one
/// shows, and the textures it has, if any.
pub struct Material<N> {
    pub ambient: [N; 3],
    pub diffuse: [N; 3],
    pub specular: [N; 3],
    pub ambient_intensity: N,
    pub texture: Option<Texture<N>>,
    pub texture_cube: Option<TextureCube<N>>,
}

impl<N: Copy> Material<N> {
    /// A material without textures in which every number is `zero`.
    pub fn new(zero: N) -> (m: Material<N>)
        ensures
            m.ambient@ == seq![zero, zero, zero],
            m.diffuse@ == seq![zero, zero, zero],
            m.specular@ == seq![zero, zero, zero],
            m.ambient_intensity == zero,
            m.texture is None,
            m.texture_cube is None,
    {
        let m = Material {
            ambient: [zero; 3],
            diffuse: [zero; 3],
            specular: [zero; 3],
            ambient_intensity: zero,
            texture: None,
            texture_cube: None,
        };
        assert(m.ambient@ =~= seq![zero, zero, zero]);
        assert(m.diffuse@ =~= seq![zero, zero, zero]);
        assert(m.specular@ =~= seq![zero, zero, zero]);
        m
    }

    /// Gives the material an environment map.
    pub fn add_texture_cube(&mut self, texture: TextureCube<N>)
        ensures
            *final(self) == (Material { texture_cube: Some(texture), ..*old(self) }),
    {
        self.texture_cube = Some(texture);
    }
}

impl<N: Scalar> Material<N> {
    /// Gives the material a texture made from a decoded ARGB8888 image of
    /// `size_x` by `size_y` pixels. Fails, and leaves the material as it is,
    /// unless both sizes are at least 1 and `bytes` holds four bytes per pixel.
    pub fn create_texture(&mut self, bytes: &Vec<u8>, size_x: usize, size_y: usize) -> (r: Result<
        (),
        TextureError,
    >)
        ensures
            r is Ok <==> size_x >= 1 && size_y >= 1 && bytes@.len() == 4 * size_x * size_y,
            r is Err ==> *final(self) == *old(self),
            r is Ok ==> {
                &&& final(self).texture matches Some(t)
                &&& is_pyramid(t.levels())
                &&& t.levels()[0].width() == size_x
                &&& t.levels()[0].height() == size_y
                &&& is_loaded(decoded(bytes@, size_x as nat, size_y as nat), t.levels()[0])
                &&& *final(self) == (Material { texture: final(self).texture, ..*old(self) })
            },
    {
        match Texture::new(bytes, size_x, size_y) {
            Some(t) => {
                self.texture = Some(t);
                Ok(())
            },
            None => Err(TextureError::BadImage),
        }
    }
}

} // verus!
