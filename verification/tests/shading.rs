use soft_render::framebuffer::FrameBuffer;
use soft_render::material::{Material, TextureError};
use soft_render::mesh::{Mesh, Model, Program, Vertex};
use soft_render::raster::MAX_OUT_VALUES;
use soft_render::scalar::{single_depth_key, Scalar};
use soft_render::shader::{
    Shader, ShaderType, Slots, StagePair, IN_VS_LEN, IN_VS_VEC_EYE_POS, IN_VS_VEC_NEG_LIGHT, IN_VS_VEC_NORM,
    IN_VS_VEC_POS, IN_VS_VEC_TEX, MATRIX_PROJ_VIEW_WORLD, MATRIX_WORLD,
};
use soft_render::texture::{Surface, Texture, TextureCube};
use std::cell::Cell;

#[derive(Clone, Copy, Debug, PartialEq)]
struct Real(f32);

impl Scalar for Real {
    fn from_index(v: usize) -> Self {
        Real(v as f32)
    }

    fn plus(self, rhs: Self) -> Self {
        Real(self.0 + rhs.0)
    }

    fn minus(self, rhs: Self) -> Self {
        Real(self.0 - rhs.0)
    }

    fn times(self, rhs: Self) -> Self {
        Real(self.0 * rhs.0)
    }

    fn over(self, rhs: Self) -> Self {
        Real(self.0 / rhs.0)
    }

    fn less(self, rhs: Self) -> bool {
        self.0 < rhs.0
    }

    fn negated(self) -> Self {
        Real(-self.0)
    }

    fn abs(self) -> Self {
        Real(self.0.abs())
    }

    fn is_sign_positive(self) -> bool {
        self.0.is_sign_positive()
    }

    fn sqrt(self) -> Self {
        Real(self.0.sqrt())
    }

    fn log2(self) -> Self {
        Real(self.0.log2())
    }

    fn trunc(self) -> i32 {
        self.0 as i32
    }

    fn to_index(self) -> usize {
        self.0 as usize
    }

    fn depth_key(self) -> u32 {
        single_depth_key(self.0.to_bits())
    }
}


fn reals<const K: usize>(values: [f32; K]) -> [Real; K] {
    values.map(Real)
}

fn new_shader(shader_type: ShaderType) -> Shader<Real> {
    Shader::new(shader_type, Real(0.0))
}

#[test]
fn a_new_shader_is_all_zero() {
    let s = new_shader(ShaderType::Lambert);
    assert_eq!(s.shader_type(), ShaderType::Lambert);
    assert!(!s.textured());
    assert_eq!(s.vertex_out_len(), 0);
    assert_eq!(s.matrix(MATRIX_PROJ_VIEW_WORLD), [Real(0.0); 16]);
    assert_eq!(s.matrix(MATRIX_WORLD), [Real(0.0); 16]);
    for sm in 0..=IN_VS_LEN - 2 {
        assert_eq!(s.read_vec2(sm), reals([0.0, 0.0]));
    }
    assert_eq!(s.ambient(), reals([0.0; 3]));
    assert_eq!(s.diffuse(), reals([0.0; 3]));
    assert_eq!(s.specular(), reals([0.0; 3]));
    assert_eq!(s.ambient_intensity(), Real(0.0));
}

#[test]
fn a_new_shader_is_filled_with_the_given_number() {
    let s = Shader::new(ShaderType::Default, Real(7.0));
    assert_eq!(s.matrix(1), [Real(7.0); 16]);
    assert_eq!(s.read_vec4(14), reals([7.0; 4]));
    assert_eq!(s.out_vertex_data(), [Real(7.0); 16]);
    assert_eq!(s.ambient_intensity(), Real(7.0));
}

#[test]
fn input_positions() {
    assert_eq!(IN_VS_VEC_POS, 0);
    assert_eq!(IN_VS_VEC_NORM, 4);
    assert_eq!(IN_VS_VEC_TEX, 8);
    assert_eq!(IN_VS_VEC_NEG_LIGHT, 10);
    assert_eq!(IN_VS_VEC_EYE_POS, 14);
    assert_eq!(IN_VS_LEN, 18);
    assert_eq!(MAX_OUT_VALUES, 16);
}

#[test]
fn inputs_are_written_and_read_back() {
    let mut s = new_shader(ShaderType::Default);
    s.set_vec4(IN_VS_VEC_NEG_LIGHT, reals([1.0, 2.0, 3.0, 4.0]));
    s.set_vec4(IN_VS_VEC_EYE_POS, reals([5.0, 6.0, 7.0, 8.0]));
    s.set_vec2(IN_VS_VEC_TEX, reals([0.25, 0.75]));
    assert_eq!(s.read_vec4(IN_VS_VEC_NEG_LIGHT), reals([1.0, 2.0, 3.0, 4.0]));
    assert_eq!(s.read_vec3(IN_VS_VEC_NEG_LIGHT), reals([1.0, 2.0, 3.0]));
    assert_eq!(s.read_vec4(IN_VS_VEC_EYE_POS), reals([5.0, 6.0, 7.0, 8.0]));
    assert_eq!(s.read_vec2(IN_VS_VEC_TEX), reals([0.25, 0.75]));
    assert_eq!(s.read_vec4(IN_VS_VEC_TEX), reals([0.25, 0.75, 1.0, 2.0]));
    assert_eq!(s.read_vec4(IN_VS_VEC_POS), reals([0.0; 4]));
    assert_eq!(s.read_vec2(16), reals([7.0, 8.0]));
}

#[test]
fn reset_loads_the_vertex_and_forgets_the_outputs() {
    let mut s = new_shader(ShaderType::Normal);
    s.set_vec4(IN_VS_VEC_NEG_LIGHT, reals([9.0, 9.0, 9.0, 9.0]));
    s.out_f32(Real(3.0));
    s.out_f32(Real(4.0));
    assert_eq!(s.vertex_out_len(), 2);
    s.reset(reals([1.0, 2.0, 3.0, 1.0]), reals([0.0, 1.0, 0.0, 1.0]), reals([0.5, 0.25]));
    assert_eq!(s.vertex_out_len(), 0);
    assert_eq!(s.read_vec4(IN_VS_VEC_POS), reals([1.0, 2.0, 3.0, 1.0]));
    assert_eq!(s.read_vec4(IN_VS_VEC_NORM), reals([0.0, 1.0, 0.0, 1.0]));
    assert_eq!(s.read_vec2(IN_VS_VEC_TEX), reals([0.5, 0.25]));
    assert_eq!(s.read_vec4(IN_VS_VEC_NEG_LIGHT), reals([9.0, 9.0, 9.0, 9.0]));
}

#[test]
fn outputs_are_appended_in_order() {
    let mut s = new_shader(ShaderType::PhongBlinn);
    s.out_vec2(&reals([0.5, 0.25]));
    assert_eq!(s.vertex_out_len(), 2);
    s.out_vec3_from4(&reals([1.0, 2.0, 3.0, 99.0]));
    assert_eq!(s.vertex_out_len(), 5);
    s.out_f32(Real(7.0));
    assert_eq!(s.vertex_out_len(), 6);
    let out = s.out_vertex_data();
    assert_eq!(out[..6], reals([0.5, 0.25, 1.0, 2.0, 3.0, 7.0]));
}

#[test]
fn sixteen_outputs_fit() {
    let mut s = new_shader(ShaderType::Default);
    for i in 0..16 {
        s.out_f32(Real(i as f32));
    }
    assert_eq!(s.vertex_out_len(), 16);
    let out = s.out_vertex_data();
    for i in 0..16 {
        assert_eq!(out[i], Real(i as f32));
    }
}

#[test]
fn matrices_are_kept_by_slot() {
    let mut s = new_shader(ShaderType::Default);
    let mut m = [Real(0.0); 16];
    for (i, v) in m.iter_mut().enumerate() {
        *v = Real(i as f32);
    }
    s.set_matrix(MATRIX_WORLD, m);
    assert_eq!(s.matrix(MATRIX_WORLD), m);
    assert_eq!(s.matrix(MATRIX_PROJ_VIEW_WORLD), [Real(0.0); 16]);
    s.set_matrix(MATRIX_PROJ_VIEW_WORLD, [Real(2.0); 16]);
    assert_eq!(s.matrix(MATRIX_PROJ_VIEW_WORLD), [Real(2.0); 16]);
    assert_eq!(s.matrix(MATRIX_WORLD), m);
}

#[test]
fn varying_counts_of_the_lighting_models() {
    assert_eq!(ShaderType::Default.varying_count(false), 0);
    assert_eq!(ShaderType::Default.varying_count(true), 0);
    assert_eq!(ShaderType::Normal.varying_count(false), 3);
    assert_eq!(ShaderType::Normal.varying_count(true), 3);
    assert_eq!(ShaderType::Lambert.varying_count(false), 1);
    assert_eq!(ShaderType::Lambert.varying_count(true), 3);
    assert_eq!(ShaderType::PhongBlinn.varying_count(false), 6);
    assert_eq!(ShaderType::PhongBlinn.varying_count(true), 8);
    assert_eq!(ShaderType::CookTorrance.varying_count(false), 6);
    assert_eq!(ShaderType::CookTorrance.varying_count(true), 8);
}

#[test]
fn stage_pairs_of_the_lighting_models() {
    assert_eq!(ShaderType::Default.stage_pair(false), StagePair::DefaultColor);
    assert_eq!(ShaderType::Default.stage_pair(true), StagePair::DefaultColor);
    assert_eq!(ShaderType::Normal.stage_pair(false), StagePair::NormalColor);
    assert_eq!(ShaderType::Normal.stage_pair(true), StagePair::NormalColor);
    assert_eq!(ShaderType::Lambert.stage_pair(false), StagePair::LambertColor);
    assert_eq!(ShaderType::Lambert.stage_pair(true), StagePair::LambertTexture);
    assert_eq!(ShaderType::PhongBlinn.stage_pair(false), StagePair::PhongBlinnColor);
    assert_eq!(ShaderType::PhongBlinn.stage_pair(true), StagePair::PhongBlinnTexture);
    assert_eq!(ShaderType::CookTorrance.stage_pair(false), StagePair::CookTorranceColor);
    assert_eq!(ShaderType::CookTorrance.stage_pair(true), StagePair::CookTorranceTexture);
    let mut s = new_shader(ShaderType::Lambert);
    assert_eq!(s.stage_pair(), StagePair::LambertColor);
    let mut m = Material::new(Real(0.0));
    m.create_texture(&plain_image(1, 1), 1, 1).unwrap();
    s.set_material(&m);
    assert_eq!(s.stage_pair(), StagePair::LambertTexture);
}

/// A program whose vertex stage writes one value, after the shader held
/// more, and whose pixel stage paints the value behind it.
struct Short;

impl Program<Real> for Short {
    fn vertex(&self, mut shader: Shader<Real>) -> (Shader<Real>, [Real; 4]) {
        let p = shader.read_vec4(IN_VS_VEC_POS);
        shader.out_f32(Real(9.0));
        shader.out_f32(Real(200.0));
        shader.out_f32(Real(77.0));
        let n = shader.read_vec4(IN_VS_VEC_NORM);
        let t = shader.read_vec2(IN_VS_VEC_TEX);
        shader.reset(p, n, t);
        shader.out_f32(Real(50.0));
        (shader, [p[0], p[1], p[2], Real(1.0)])
    }

    fn pixel(
        &self,
        _shader: &Shader<Real>,
        _material: &Material<Real>,
        _texture: Option<&Surface<Real>>,
        varyings: &[Real; 16],
    ) -> [Real; 3] {
        [varyings[0], Real(varyings[1].0 + 1.0), Real(varyings[2].0 + 2.0)]
    }
}

#[test]
fn the_values_behind_those_of_the_vertex_stage_are_zero() {
    let (vertices, mesh) = lower_left_half();
    let mut fb = FrameBuffer::new(8, 8);
    let mut shader = new_shader(ShaderType::Default);
    let material = Material::new(Real(0.0));
    assert_eq!(mesh.draw(&mut shader, &Short, &material, &vertices, &mut fb), 1);
    assert_eq!(fb.colors()[0], (50 << 16) | (1 << 8) | 2);
    assert_eq!(shader.vertex_out_len(), 1);
}

#[test]
fn slots_of_the_lighting_models() {
    let none = Slots { tex: None, cos_nl: None, view: None, normal: None, reflection: None, len: 0 };
    assert_eq!(ShaderType::Default.layout(false, false), none);
    assert_eq!(ShaderType::Default.layout(true, false), none);
    assert_eq!(ShaderType::Normal.layout(false, false), Slots { normal: Some(0), len: 3, ..none });
    assert_eq!(ShaderType::Normal.layout(true, false), Slots { normal: Some(0), len: 3, ..none });
    assert_eq!(ShaderType::Lambert.layout(false, false), Slots { cos_nl: Some(0), len: 1, ..none });
    assert_eq!(
        ShaderType::Lambert.layout(true, false),
        Slots { tex: Some(0), cos_nl: Some(2), len: 3, ..none }
    );
    for model in [ShaderType::PhongBlinn, ShaderType::CookTorrance] {
        assert_eq!(
            model.layout(false, false),
            Slots { view: Some(0), normal: Some(3), len: 6, ..none }
        );
        assert_eq!(
            model.layout(true, false),
            Slots { tex: Some(0), view: Some(2), normal: Some(5), len: 8, ..none }
        );
    }
}

#[test]
fn the_reflection_follows_the_other_values() {
    let none = Slots { tex: None, cos_nl: None, view: None, normal: None, reflection: None, len: 0 };
    assert_eq!(
        ShaderType::Default.layout(false, true),
        Slots { reflection: Some(0), len: 3, ..none }
    );
    assert_eq!(
        ShaderType::Lambert.layout(true, true),
        Slots { tex: Some(0), cos_nl: Some(2), reflection: Some(3), len: 6, ..none }
    );
    assert_eq!(
        ShaderType::CookTorrance.layout(true, true),
        Slots { tex: Some(0), view: Some(2), normal: Some(5), reflection: Some(8), len: 11, ..none }
    );
    for model in [
        ShaderType::Default,
        ShaderType::Normal,
        ShaderType::Lambert,
        ShaderType::PhongBlinn,
        ShaderType::CookTorrance,
    ] {
        for textured in [false, true] {
            let plain = model.layout(textured, false);
            let shiny = model.layout(textured, true);
            assert_eq!(plain.len, model.varying_count(textured));
            assert_eq!(shiny.len, plain.len + 3);
            assert_eq!(shiny.reflection, Some(plain.len));
            assert_eq!(Slots { reflection: None, len: plain.len, ..shiny }, plain);
        }
    }
}

fn plain_image(size_x: usize, size_y: usize) -> Vec<u8> {
    vec![0x80; 4 * size_x * size_y]
}

#[test]
fn a_new_material_is_black_and_plain() {
    let m = Material::new(Real(0.0));
    assert_eq!(m.ambient, reals([0.0; 3]));
    assert_eq!(m.diffuse, reals([0.0; 3]));
    assert_eq!(m.specular, reals([0.0; 3]));
    assert_eq!(m.ambient_intensity, Real(0.0));
    assert!(m.texture.is_none());
    assert!(m.texture_cube.is_none());
}

#[test]
fn a_material_gets_its_texture_from_an_image() {
    let mut m = Material::new(Real(0.0));
    m.diffuse = reals([1.0, 2.0, 3.0]);
    assert_eq!(m.create_texture(&plain_image(4, 2), 4, 2), Ok(()));
    let t = m.texture.as_ref().unwrap();
    assert_eq!(t.level_count(), 2);
    assert_eq!(t.get_surface(0).size_x(), 4);
    assert_eq!(t.get_surface(0).data()[0], reals([128.0; 3]));
    assert_eq!(m.diffuse, reals([1.0, 2.0, 3.0]));
}

#[test]
fn a_bad_image_leaves_the_material_as_it_is() {
    let mut m = Material::new(Real(0.0));
    assert_eq!(m.create_texture(&plain_image(4, 2), 4, 3), Err(TextureError::BadImage));
    assert_eq!(m.create_texture(&Vec::new(), 0, 0), Err(TextureError::BadImage));
    assert!(m.texture.is_none());
    assert_eq!(m.create_texture(&plain_image(1, 1), 1, 1), Ok(()));
    assert_eq!(m.create_texture(&plain_image(1, 1), 2, 1), Err(TextureError::BadImage));
    assert_eq!(m.texture.as_ref().unwrap().get_surface(0).size_x(), 1);
}

#[test]
fn a_material_takes_an_environment_map() {
    let face = |v: f32| {
        Texture::from_surface(Surface::from_texels(1, 1, vec![reals([v; 3])]).unwrap())
    };
    let cube = TextureCube::new((0..6).map(|i| face(i as f32)).collect()).unwrap();
    let mut m = Material::new(Real(0.0));
    m.add_texture_cube(cube);
    let cube = m.texture_cube.as_ref().unwrap();
    assert_eq!(cube.get_texture(5).get_surface(0).data(), &vec![reals([5.0; 3])]);
    assert!(m.texture.is_none());
}

#[test]
fn a_shader_takes_the_colours_of_a_material() {
    let mut m = Material::new(Real(0.0));
    m.ambient = reals([1.0, 2.0, 3.0]);
    m.diffuse = reals([4.0, 5.0, 6.0]);
    m.specular = reals([7.0, 8.0, 9.0]);
    m.ambient_intensity = Real(0.5);
    let mut s = new_shader(ShaderType::CookTorrance);
    s.out_f32(Real(1.0));
    s.set_material(&m);
    assert_eq!(s.ambient(), reals([1.0, 2.0, 3.0]));
    assert_eq!(s.diffuse(), reals([4.0, 5.0, 6.0]));
    assert_eq!(s.specular(), reals([7.0, 8.0, 9.0]));
    assert_eq!(s.ambient_intensity(), Real(0.5));
    assert!(!s.textured());
    assert_eq!(s.vertex_out_len(), 1);
    assert_eq!(s.shader_type(), ShaderType::CookTorrance);

    assert!(!s.reflective());
    assert_eq!(s.expected_varyings(), 6);
    assert_eq!(s.slots(), ShaderType::CookTorrance.layout(false, false));

    m.create_texture(&plain_image(2, 2), 2, 2).unwrap();
    s.set_material(&m);
    assert!(s.textured());
    assert_eq!(s.expected_varyings(), 8);

    let face = |v: f32| {
        Texture::from_surface(Surface::from_texels(1, 1, vec![reals([v; 3])]).unwrap())
    };
    m.add_texture_cube(TextureCube::new((0..6).map(|i| face(i as f32)).collect()).unwrap());
    s.set_material(&m);
    assert!(s.reflective());
    assert_eq!(s.expected_varyings(), 11);
    assert_eq!(s.slots(), ShaderType::CookTorrance.layout(true, true));
}

/// A program that takes the vertex position as the clip position, hands the
/// texture coordinate on, and paints the width of the texture level in red
/// and the first interpolated value, times 100, in blue.
struct Probe {
    w: f32,
    pixels: Cell<usize>,
}

impl Probe {
    fn new() -> Probe {
        Probe { w: 1.0, pixels: Cell::new(0) }
    }
}

impl Program<Real> for Probe {
    fn vertex(&self, mut shader: Shader<Real>) -> (Shader<Real>, [Real; 4]) {
        let p = shader.read_vec4(IN_VS_VEC_POS);
        let t = shader.read_vec2(IN_VS_VEC_TEX);
        shader.out_vec2(&t);
        (shader, [Real(p[0].0 * self.w), Real(p[1].0 * self.w), p[2], Real(self.w)])
    }

    fn pixel(
        &self,
        _shader: &Shader<Real>,
        _material: &Material<Real>,
        texture: Option<&Surface<Real>>,
        varyings: &[Real; 16],
    ) -> [Real; 3] {
        self.pixels.set(self.pixels.get() + 1);
        let level = match texture {
            Some(s) => s.size_x() as f32,
            None => 255.0,
        };
        [Real(level), Real(1.0), Real(varyings[0].0 * 100.0)]
    }
}

fn vertex(x: f32, y: f32, u: f32, v: f32) -> Vertex<Real> {
    Vertex::new(&reals([x, y, 0.0]), &reals([u, v]), &reals([0.0, 0.0, 1.0]))
}

#[test]
fn a_vertex_keeps_its_parts() {
    let v = Vertex::new(&reals([1.0, 2.0, 3.0]), &reals([0.5, 0.25]), &reals([0.0, 1.0, 0.0]));
    assert_eq!(v.position, reals([1.0, 2.0, 3.0]));
    assert_eq!(v.tex, reals([0.5, 0.25]));
    assert_eq!(v.normal, reals([0.0, 1.0, 0.0]));
}

#[test]
fn a_new_mesh_is_empty() {
    let m = Mesh::new();
    assert!(m.index_buffer.is_empty());
    assert_eq!(m.material_id, 0);
    assert!(m.check(0));
}

#[test]
fn a_mesh_is_checked_against_its_vertices() {
    let mut m = Mesh::new();
    m.index_buffer = vec![0, 1, 2, 2, 1, 3];
    assert!(m.check(4));
    assert!(m.check(100));
    assert!(!m.check(3));
    m.index_buffer = vec![0, 1, 2, 2];
    assert!(!m.check(4));
    m.index_buffer = vec![0, 1];
    assert!(!m.check(4));
    m.index_buffer = vec![0, 0, u32::MAX];
    assert!(!m.check(u32::MAX as usize));
    assert!(m.check(u32::MAX as usize + 1));
}

fn lower_left_half() -> (Vec<Vertex<Real>>, Mesh) {
    let vertices = vec![
        vertex(-1.0, -1.0, 0.0, 0.0),
        vertex(1.0, -1.0, 1.0, 0.0),
        vertex(-1.0, 1.0, 0.0, 1.0),
    ];
    let mut mesh = Mesh::new();
    mesh.index_buffer = vec![0, 1, 2];
    (vertices, mesh)
}

#[test]
fn a_mesh_draws_its_triangles() {
    let (vertices, mesh) = lower_left_half();
    let mut fb = FrameBuffer::new(8, 8);
    let mut shader = new_shader(ShaderType::Default);
    let program = Probe::new();
    let material = Material::new(Real(0.0));
    assert_eq!(mesh.draw(&mut shader, &program, &material, &vertices, &mut fb), 1);
    // The triangle covers the pixels whose centres lie below the diagonal.
    let mut filled = 0;
    for y in 0..8 {
        for x in 0..8 {
            let c = fb.colors()[y * 8 + x];
            if x + y < 7 {
                assert_eq!(c >> 8, 0xFF01, "x = {} y = {}", x, y);
                // The first value is the texture coordinate u at the pixel's centre.
                let u = (x as f32 + 0.5) / 8.0 * 100.0;
                assert!(((c & 0xFF) as f32 - u).abs() <= 1.0);
                assert_eq!(fb.depths()[y * 8 + x], 1.0f32.to_bits());
                filled += 1;
            } else if x + y > 7 {
                assert_eq!(c, 0);
            }
        }
    }
    assert_eq!(program.pixels.get() >= filled, true);
    assert!(!shader.textured());
}

#[test]
fn vertices_are_divided_by_their_depth() {
    // The vertex stage scales x, y and w by 4: the triangle lands where it
    // did, four times as far away, and its values are still interpolated
    // as they are on the surface.
    let (vertices, mesh) = lower_left_half();
    let mut fb = FrameBuffer::new(8, 8);
    let mut shader = new_shader(ShaderType::Default);
    let program = Probe { w: 4.0, pixels: Cell::new(0) };
    let material = Material::new(Real(0.0));
    assert_eq!(mesh.draw(&mut shader, &program, &material, &vertices, &mut fb), 1);
    for y in 0..8 {
        for x in 0..8 {
            let c = fb.colors()[y * 8 + x];
            if x + y < 7 {
                assert_eq!(fb.depths()[y * 8 + x], 0.25f32.to_bits());
                let u = (x as f32 + 0.5) / 8.0 * 100.0;
                assert!(((c & 0xFF) as f32 - u).abs() <= 1.0);
            } else if x + y > 7 {
                assert_eq!(c, 0);
            }
        }
    }
    // The vertex that was drawn last is still loaded.
    assert_eq!(shader.read_vec4(IN_VS_VEC_POS), reals([-1.0, 1.0, 0.0, 1.0]));
    assert_eq!(shader.read_vec4(IN_VS_VEC_NORM), reals([0.0, 0.0, 1.0, 1.0]));
    assert_eq!(shader.read_vec2(IN_VS_VEC_TEX), reals([0.0, 1.0]));
    assert_eq!(shader.vertex_out_len(), 2);
}

#[test]
fn a_frame_of_another_shape_is_filled_to_its_corners() {
    let (vertices, mut mesh) = lower_left_half();
    mesh.index_buffer = vec![0, 1, 2, 1, 3, 2];
    let mut vertices = vertices;
    vertices.push(vertex(1.0, 1.0, 1.0, 1.0));
    let mut fb = FrameBuffer::new(20, 6);
    let mut shader = new_shader(ShaderType::Default);
    let material = Material::new(Real(0.0));
    assert_eq!(mesh.draw(&mut shader, &Probe::new(), &material, &vertices, &mut fb), 2);
    assert_eq!(fb.depths().iter().filter(|d| **d == 0).count(), 0);
    // The texture coordinate u runs from 0 at the left to 1 at the right.
    assert!((fb.colors()[0] & 0xFF) <= 3);
    assert!((fb.colors()[19] & 0xFF) >= 97);
    assert!((fb.colors()[5 * 20 + 10] & 0xFF).abs_diff(52) <= 1);
}

#[test]
fn a_clockwise_triangle_is_dropped_but_counted() {
    let (vertices, mut mesh) = lower_left_half();
    mesh.index_buffer = vec![0, 2, 1, 0, 2, 1];
    let mut fb = FrameBuffer::new(8, 8);
    let mut shader = new_shader(ShaderType::Default);
    let program = Probe::new();
    let material = Material::new(Real(0.0));
    assert_eq!(mesh.draw(&mut shader, &program, &material, &vertices, &mut fb), 2);
    assert_eq!(program.pixels.get(), 0);
    assert_eq!(fb.colors(), &vec![0u32; 64]);
}

#[test]
fn an_empty_mesh_draws_nothing() {
    let mesh = Mesh::new();
    let mut fb = FrameBuffer::new(4, 4);
    let mut shader = new_shader(ShaderType::Default);
    let material = Material::new(Real(0.0));
    assert_eq!(mesh.draw(&mut shader, &Probe::new(), &material, &Vec::new(), &mut fb), 0);
    assert_eq!(fb.colors(), &vec![0u32; 16]);
}

/// Draws the lower left half of an 8 by 8 frame with a 16 by 16 texture
/// whose coordinates span `span` repeats, and gives the width of the level
/// that the pixel stage was handed.
fn level_width_for(span: f32) -> u32 {
    let (mut vertices, mesh) = lower_left_half();
    vertices[1].tex = reals([span, 0.0]);
    vertices[2].tex = reals([0.0, span]);
    let mut material = Material::new(Real(0.0));
    material.create_texture(&plain_image(16, 16), 16, 16).unwrap();
    let mut fb = FrameBuffer::new(8, 8);
    let mut shader = new_shader(ShaderType::Lambert);
    assert_eq!(mesh.draw(&mut shader, &Probe::new(), &material, &vertices, &mut fb), 1);
    assert!(shader.textured());
    fb.colors()[0] >> 16
}

#[test]
fn the_mip_level_follows_the_texel_density() {
    // 16 texels across 8 pixels: two texels per pixel each way.
    assert_eq!(level_width_for(1.0), 8);
    // One texel per pixel, and fewer.
    assert_eq!(level_width_for(0.5), 16);
    assert_eq!(level_width_for(0.1), 16);
    assert_eq!(level_width_for(2.0), 4);
    assert_eq!(level_width_for(4.0), 2);
    assert_eq!(level_width_for(8.0), 1);
    // Beyond the smallest level the smallest is used.
    assert_eq!(level_width_for(1000.0), 1);
}

#[test]
fn the_mip_level_ignores_the_winding_of_the_texture() {
    // Mirrored texture coordinates give a negative texel area.
    let (mut vertices, mesh) = lower_left_half();
    vertices[1].tex = reals([-2.0, 0.0]);
    vertices[2].tex = reals([0.0, 2.0]);
    let mut material = Material::new(Real(0.0));
    material.create_texture(&plain_image(16, 16), 16, 16).unwrap();
    let mut fb = FrameBuffer::new(8, 8);
    let mut shader = new_shader(ShaderType::Lambert);
    mesh.draw(&mut shader, &Probe::new(), &material, &vertices, &mut fb);
    assert_eq!(fb.colors()[0] >> 16, 4);
}

#[test]
fn a_triangle_without_texture_area_uses_the_full_image() {
    assert_eq!(level_width_for(0.0), 16);
}

#[test]
fn the_mip_level_never_gets_finer_as_the_density_grows() {
    let mut last = 16;
    let mut span = 0.05f32;
    while span < 64.0 {
        let width = level_width_for(span);
        assert!(width <= last);
        last = width;
        span *= 1.17;
    }
    assert_eq!(last, 1);
}

fn model_of_two_meshes() -> Model<Real> {
    let mut model = Model::new(Real(0.0));
    model.vertex_buffer = vec![
        vertex(-1.0, -1.0, 0.0, 0.0),
        vertex(1.0, -1.0, 1.0, 0.0),
        vertex(-1.0, 1.0, 0.0, 1.0),
        vertex(1.0, 1.0, 1.0, 1.0),
    ];
    model.material_list.push(Material::new(Real(0.0)));
    let mut textured = Material::new(Real(0.0));
    textured.create_texture(&plain_image(2, 2), 2, 2).unwrap();
    model.material_list.push(textured);
    let mut lower = Mesh::new();
    lower.index_buffer = vec![0, 1, 2];
    let mut upper = Mesh::new();
    upper.index_buffer = vec![1, 3, 2, 2, 3, 1];
    upper.material_id = 1;
    model.mesh_list.push(lower);
    model.mesh_list.push(upper);
    model
}

#[test]
fn a_new_model_is_empty() {
    let model = Model::new(Real(0.0));
    assert!(model.vertex_buffer.is_empty());
    assert!(model.material_list.is_empty());
    assert!(model.mesh_list.is_empty());
    assert_eq!(model.bounds(), None);
    assert!(model.check());
    let model = Model::with_normalize(reals([-1.0, -2.0, -3.0]), reals([1.0, 2.0, 3.0]));
    assert_eq!(model.bounds(), Some((reals([-1.0, -2.0, -3.0]), reals([1.0, 2.0, 3.0]))));
    assert!(model.mesh_list.is_empty());
}

#[test]
fn a_model_is_checked_before_it_is_drawn() {
    let mut model = model_of_two_meshes();
    assert!(model.check());
    model.mesh_list[1].material_id = 2;
    assert!(!model.check());
    model.mesh_list[1].material_id = 0;
    assert!(model.check());
    model.mesh_list[0].index_buffer.push(0);
    assert!(!model.check());
    model.mesh_list[0].index_buffer = vec![0, 1, 4];
    assert!(!model.check());
    model.mesh_list[0].index_buffer = vec![0, 1, 3];
    assert!(model.check());
}

#[test]
fn a_model_draws_every_mesh_with_its_material() {
    let model = model_of_two_meshes();
    let mut fb = FrameBuffer::new(8, 8);
    let mut shader = new_shader(ShaderType::Default);
    let program = Probe::new();
    assert_eq!(model.draw(&mut shader, &program, &mut fb), 3);
    // The lower left half is plain, the upper right half textured; the
    // clockwise copy of the upper triangle is dropped.
    assert_eq!(fb.colors()[0] >> 16, 255);
    assert_eq!(fb.colors()[7 * 8 + 7] >> 16, 2);
    assert!(shader.textured());
    assert_eq!(fb.depths().iter().filter(|d| **d == 0).count(), 0);
}
