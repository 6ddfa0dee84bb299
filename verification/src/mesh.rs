//! Vertices, indexed triangle lists, and the draw call that runs each
//! triangle through the vertex stage, culling, mip selection and the
//! rasterizer.

use vstd::prelude::*;
use crate::framebuffer::{all_inside, lemma_draw_concat, Fragment, FrameBuffer, FrameView};
use crate::material::Material;
use crate::raster::{
    is_cover, is_painted, is_rasterized, triangle, Candidate, PixelStage, ScreenPoint,
    MAX_OUT_VALUES,
};
use crate::scalar::{
    half, is_from_index, is_less, is_minus, is_over, is_plus, is_ratio, is_times, one, Scalar,
};
use crate::shader::{Shader, ShaderView, IN_VS_VEC_NORM, IN_VS_VEC_POS, IN_VS_VEC_TEX};
use crate::texture::{is_level_of_detail, level_of_detail, selected_level, Surface};

verus! {

/// A corner of a triangle as a model stores it.
pub struct Vertex<N> {
    pub position: [N; 3],
    pub normal: [N; 3],
    pub tex: [N; 2],
}

impl<N: Copy> Vertex<N> {
    /// A vertex from its position, texture coordinate and normal.
    pub fn new(position: &[N; 3], tex: &[N; 2], normal: &[N; 3]) -> (v: Vertex<N>)
        ensures
            v.position == *position,
            v.normal == *normal,
            v.tex == *tex,
    {
        Vertex { position: *position, normal: *normal, tex: *tex }
    }
}

/// A pair of shading stages: the vertex stage projects a vertex and leaves
/// values to interpolate, the pixel stage turns interpolated values into a
/// colour.
pub trait Program<N: Scalar> {
    /// Projects the vertex loaded into `shader` and hands values on with the
    /// shader's `out_` methods. Returns the shader and the clip-space
    /// position `x, y, z, w`.
    fn vertex(&self, shader: Shader<N>) -> (Shader<N>, [N; 4]);

    /// The red, green and blue of a pixel, not yet clamped, from the
    /// interpolated values in the order the vertex stage wrote them.
    /// `material` is the material being drawn and `texture` the mip level
    /// of its texture chosen for the triangle, where it has a texture.
    fn pixel(
        &self,
        shader: &Shader<N>,
        material: &Material<N>,
        texture: Option<&Surface<N>>,
        varyings: &[N; 16],
    ) -> [N; 3];
}

/// A pixel stage with the state, the material and the texture level it runs
/// on.
pub struct BoundPixel<'a, N, P> {
    pub program: &'a P,
    pub shader: &'a Shader<N>,
    pub material: &'a Material<N>,
    pub texture: Option<&'a Surface<N>>,
}

impl<'a, N: Scalar, P: Program<N>> PixelStage<N> for BoundPixel<'a, N, P> {
    fn pixel(&self, varyings: &[N; 16]) -> (color: [N; 3])
        ensures
            call_ensures(
                P::pixel,
                (self.program, self.shader, self.material, self.texture, varyings),
                color,
            ),
    {
        self.program.pixel(self.shader, self.material, self.texture, varyings)
    }
}

/// `r` is `ax * by - ay * bx`, the cross product of `(ax, ay)` and
/// `(bx, by)`.
pub open spec fn is_cross<N: Scalar>(ax: N, ay: N, bx: N, by: N, r: N) -> bool {
    exists|m: N, n: N| is_times(ax, by, m) && is_times(ay, bx, n) && #[trigger] is_minus(m, n, r)
}

/// `r` is `x * (a - b)`.
pub open spec fn is_times_difference<N: Scalar>(x: N, a: N, b: N, r: N) -> bool {
    exists|d: N| is_minus(a, b, d) && #[trigger] is_times(x, d, r)
}

/// `r` is `(b - a) * s`.
pub open spec fn is_scaled_difference<N: Scalar>(b: N, a: N, s: N, r: N) -> bool {
    exists|d: N| is_minus(b, a, d) && #[trigger] is_times(d, s, r)
}

/// `r` is `x0 * (y1 - y2) - y0 * (x1 - x2) + (x1 * y2 - y1 * x2)`, twice
/// the signed area of the triangle with these corners.
pub open spec fn is_signed_area<N: Scalar>(points: [ScreenPoint<N>; 3], r: N) -> bool {
    exists|s: N, t: N, u: N, c: N|
        #![trigger is_minus(s, t, u), is_plus(u, c, r)]
        {
            &&& is_times_difference(points@[0].x, points@[1].y, points@[2].y, s)
            &&& is_times_difference(points@[0].y, points@[1].x, points@[2].x, t)
            &&& is_minus(s, t, u)
            &&& is_cross(points@[1].x, points@[1].y, points@[2].x, points@[2].y, c)
            &&& is_plus(u, c, r)
        }
}

/// `r` is the cross product of the edges `b - a` and `c - a`, each
/// coordinate scaled by that of `size`.
pub open spec fn is_scaled_cross<N: Scalar>(a: [N; 2], b: [N; 2], c: [N; 2], size: [N; 2], r: N) -> bool {
    exists|ba_x: N, ba_y: N, ca_x: N, ca_y: N|
        {
            &&& is_scaled_difference(b@[0], a@[0], size@[0], ba_x)
            &&& is_scaled_difference(b@[1], a@[1], size@[1], ba_y)
            &&& is_scaled_difference(c@[0], a@[0], size@[0], ca_x)
            &&& is_scaled_difference(c@[1], a@[1], size@[1], ca_y)
            &&& #[trigger] is_cross(ba_x, ba_y, ca_x, ca_y, r)
        }
}

/// `r` is the cross product of the screen edges from the first corner to
/// the second and to the third.
pub open spec fn is_screen_cross<N: Scalar>(points: [ScreenPoint<N>; 3], r: N) -> bool {
    exists|ba_x: N, ba_y: N, ca_x: N, ca_y: N|
        {
            &&& is_minus(points@[1].x, points@[0].x, ba_x)
            &&& is_minus(points@[1].y, points@[0].y, ba_y)
            &&& is_minus(points@[2].x, points@[0].x, ca_x)
            &&& is_minus(points@[2].y, points@[0].y, ca_y)
            &&& #[trigger] is_cross(ba_x, ba_y, ca_x, ca_y, r)
        }
}

/// Twice the signed area of a triangle in the screen plane;
/// negative where the corners run clockwise.
fn signed_area<N: Scalar>(points: &[ScreenPoint<N>; 3]) -> (r: N)
    ensures
        is_signed_area(*points, r),
{
    let x0: N = points[0].x;
    let x1: N = points[1].x;
    let x2: N = points[2].x;
    let y0: N = points[0].y;
    let y1: N = points[1].y;
    let y2: N = points[2].y;
    let dy: N = y1.minus(y2);
    let s: N = x0.times(dy);
    let dx: N = x1.minus(x2);
    let t: N = y0.times(dx);
    let u: N = s.minus(t);
    let m: N = x1.times(y2);
    let n: N = y1.times(x2);
    let c: N = m.minus(n);
    let r: N = u.plus(c);
    proof {
        assert(is_minus(y1, y2, dy) && is_times(x0, dy, s));
        assert(is_minus(x1, x2, dx) && is_times(y0, dx, t));
        assert(is_times(x1, y2, m) && is_times(y1, x2, n) && is_minus(m, n, c));
        assert(is_cross(x1, y1, x2, y2, c));
        assert(is_minus(s, t, u) && is_plus(u, c, r));
    }
    r
}

/// The cross product of the edges `b - a` and `c - a`, both scaled by `size`.
fn scaled_cross<N: Scalar>(a: &[N; 2], b: &[N; 2], c: &[N; 2], size: &[N; 2]) -> (r: N)
    ensures
        is_scaled_cross(*a, *b, *c, *size, r),
{
    let ba_dx: N = b[0].minus(a[0]);
    let ba_x: N = ba_dx.times(size[0]);
    let ba_dy: N = b[1].minus(a[1]);
    let ba_y: N = ba_dy.times(size[1]);
    let ca_dx: N = c[0].minus(a[0]);
    let ca_x: N = ca_dx.times(size[0]);
    let ca_dy: N = c[1].minus(a[1]);
    let ca_y: N = ca_dy.times(size[1]);
    let m: N = ba_x.times(ca_y);
    let n: N = ba_y.times(ca_x);
    let r: N = m.minus(n);
    proof {
        assert(is_minus(b@[0], a@[0], ba_dx) && is_times(ba_dx, size@[0], ba_x));
        assert(is_minus(b@[1], a@[1], ba_dy) && is_times(ba_dy, size@[1], ba_y));
        assert(is_minus(c@[0], a@[0], ca_dx) && is_times(ca_dx, size@[0], ca_x));
        assert(is_minus(c@[1], a@[1], ca_dy) && is_times(ca_dy, size@[1], ca_y));
        assert(is_times(ba_x, ca_y, m) && is_times(ba_y, ca_x, n) && is_minus(m, n, r));
        assert(is_cross(ba_x, ba_y, ca_x, ca_y, r));
    }
    r
}

/// The cross product of the screen edges from the first corner to the
/// second and to the third.
fn screen_cross<N: Scalar>(points: &[ScreenPoint<N>; 3]) -> (r: N)
    ensures
        is_screen_cross(*points, r),
{
    let ba_x: N = points[1].x.minus(points[0].x);
    let ba_y: N = points[1].y.minus(points[0].y);
    let ca_x: N = points[2].x.minus(points[0].x);
    let ca_y: N = points[2].y.minus(points[0].y);
    let m: N = ba_x.times(ca_y);
    let n: N = ba_y.times(ca_x);
    let r: N = m.minus(n);
    proof {
        assert(is_times(ba_x, ca_y, m) && is_times(ba_y, ca_x, n) && is_minus(m, n, r));
        assert(is_cross(ba_x, ba_y, ca_x, ca_y, r));
    }
    r
}

/// A vertex after its vertex stage: where it lands on the screen, and the
/// values of the stage divided by the vertex's depth.
pub struct Projected<N> {
    pub point: ScreenPoint<N>,
    pub varyings: [N; 16],
    pub len: usize,
}

/// `clip` is what the vertex stage of `program` returns for the shader
/// `before`, and `after` is the shader as the stage leaves it.
pub open spec fn is_vertex_stage<N: Scalar, P: Program<N>>(
    program: &P,
    before: Shader<N>,
    after: Shader<N>,
    clip: [N; 4],
) -> bool {
    call_ensures(P::vertex, (program, before), (after, clip))
}

/// What the shader holds when a vertex has been loaded: nothing written by
/// a vertex stage, and the position and the normal, each with `unit` as
/// fourth value, and the texture coordinate among the inputs.
pub open spec fn loaded_view<N>(v: ShaderView<N>, vertex: Vertex<N>, unit: N) -> ShaderView<N> {
    (ShaderView { outputs: Seq::<N>::empty(), ..v }).with_inputs(
        IN_VS_VEC_POS as int,
        seq![vertex.position@[0], vertex.position@[1], vertex.position@[2], unit],
    ).with_inputs(
        IN_VS_VEC_NORM as int,
        seq![vertex.normal@[0], vertex.normal@[1], vertex.normal@[2], unit],
    ).with_inputs(IN_VS_VEC_TEX as int, vertex.tex@)
}

/// `r` is `(c * inverse_w + 1) * size * half`: the clip coordinate `c`
/// after the perspective divide, brought from `-1 ..= 1` to `0 ..= size`.
pub open spec fn is_screen_coord<N: Scalar>(
    c: N,
    inverse_w: N,
    unit: N,
    size: usize,
    half: N,
    r: N,
) -> bool {
    exists|q: N, s: N, n: N, m: N|
        #![trigger is_plus(q, unit, s), is_times(s, n, m)]
        {
            &&& is_times(c, inverse_w, q)
            &&& is_plus(q, unit, s)
            &&& is_from_index(size, n)
            &&& is_times(s, n, m)
            &&& is_times(m, half, r)
        }
}

/// `out` is the vertex after its vertex stage, and `after` the shader as
/// the stage leaves it: the vertex is loaded into the shader `before`, the
/// stage runs, and its clip position `x, y, z, w` gives the inverse depth
/// `1 / w` and the screen point; the values that the stage wrote are each
/// multiplied by the inverse depth, and the values behind them are zero.
pub open spec fn is_projected<N: Scalar, P: Program<N>>(
    program: &P,
    before: Shader<N>,
    vertex: Vertex<N>,
    width: usize,
    height: usize,
    out: Projected<N>,
    after: Shader<N>,
) -> bool {
    exists|loaded: Shader<N>, unit: N, zero: N, half: N, clip: [N; 4]|
        #![trigger is_vertex_stage(program, loaded, after, clip), is_from_index(1, unit), is_from_index(0, zero), is_ratio(1, 2, half)]
        {
            &&& is_from_index(1, unit)
            &&& is_from_index(0, zero)
            &&& is_ratio(1, 2, half)
            &&& loaded@ == loaded_view(before@, vertex, unit)
            &&& is_vertex_stage(program, loaded, after, clip)
            &&& out.len == after@.outputs.len()
            &&& out.len <= MAX_OUT_VALUES
            &&& is_over(unit, clip@[3], out.point.inv_w)
            &&& is_screen_coord(clip@[0], out.point.inv_w, unit, width, half, out.point.x)
            &&& is_screen_coord(clip@[1], out.point.inv_w, unit, height, half, out.point.y)
            &&& forall|i: int|
                0 <= i < out.len ==> is_times(
                    after@.outputs[i],
                    out.point.inv_w,
                    #[trigger] out.varyings@[i],
                )
            &&& forall|i: int| out.len <= i < 16 ==> #[trigger] out.varyings@[i] == zero
        }
}

/// Runs the vertex stage on one vertex and maps the result to a frame of
/// `width` by `height` pixels.
fn project_vertex<N: Scalar, P: Program<N>>(
    before: Shader<N>,
    program: &P,
    vertex: &Vertex<N>,
    width: usize,
    height: usize,
) -> (result: (Shader<N>, Projected<N>))
    ensures
        result.1.len <= MAX_OUT_VALUES,
        is_projected(program, before, *vertex, width, height, result.1, result.0),
{
    let unit: N = one();
    let zero: N = N::from_index(0);
    let v = &vertex.position;
    let n = &vertex.normal;
    let mut loaded = before;
    loaded.reset([v[0], v[1], v[2], unit], [n[0], n[1], n[2], unit], vertex.tex);
    let ghost handed = loaded;
    let (shader, p_screen) = program.vertex(loaded);
    let len: usize = shader.vertex_out_len();
    let inverse_w: N = unit.over(p_screen[3]);
    let written: [N; 16] = shader.out_vertex_data();
    let mut varyings: [N; 16] = [zero; 16];
    let mut i: usize = 0;
    while i < len
        invariant
            i <= len <= 16,
            forall|j: int| 0 <= j < i ==> is_times(written@[j], inverse_w, #[trigger] varyings@[j]),
            forall|j: int| i <= j < 16 ==> #[trigger] varyings@[j] == zero,
        decreases len - i,
    {
        varyings[i] = written[i].times(inverse_w);
        i += 1;
    }
    let h: N = half();
    let qx: N = p_screen[0].times(inverse_w);
    let sx: N = qx.plus(unit);
    let wn: N = N::from_index(width);
    let mx: N = sx.times(wn);
    let x: N = mx.times(h);
    let qy: N = p_screen[1].times(inverse_w);
    let sy: N = qy.plus(unit);
    let hn: N = N::from_index(height);
    let my: N = sy.times(hn);
    let y: N = my.times(h);
    let out = Projected { point: ScreenPoint { x, y, inv_w: inverse_w }, varyings, len };
    proof {
        assert(seq![v@[0], v@[1], v@[2], unit] =~= [v[0], v[1], v[2], unit]@);
        assert(seq![n@[0], n@[1], n@[2], unit] =~= [n[0], n[1], n[2], unit]@);
        assert(handed@ == loaded_view(before@, *vertex, unit));
        assert(is_vertex_stage(program, handed, shader, p_screen));
        assert(is_times(p_screen@[0], inverse_w, qx) && is_plus(qx, unit, sx) && is_from_index(
            width,
            wn,
        ) && is_times(sx, wn, mx) && is_times(mx, h, x));
        assert(is_screen_coord(p_screen@[0], inverse_w, unit, width, h, x));
        assert(is_times(p_screen@[1], inverse_w, qy) && is_plus(qy, unit, sy) && is_from_index(
            height,
            hn,
        ) && is_times(sy, hn, my) && is_times(my, h, y));
        assert(is_screen_coord(p_screen@[1], inverse_w, unit, height, h, y));
        assert forall|j: int| 0 <= j < len implies is_times(
            shader@.outputs[j],
            inverse_w,
            #[trigger] out.varyings@[j],
        ) by {
            assert(written@.subrange(0, len as int)[j] == shader@.outputs[j]);
        }
        assert(is_from_index(1, unit) && is_from_index(0, zero) && is_ratio(1, 2, h)
            && is_over(unit, p_screen@[3], inverse_w));
    }
    (shader, out)
}

/// A list of triangles, three vertex indices each, that share one material.
pub struct Mesh {
    pub index_buffer: Vec<u32>,
    pub material_id: usize,
}

impl Mesh {
    /// A mesh without triangles that uses material 0.
    pub fn new() -> (mesh: Mesh)
        ensures
            mesh.index_buffer@ == Seq::<u32>::empty(),
            mesh.material_id == 0,
    {
        Mesh { index_buffer: Vec::new(), material_id: 0 }
    }

    /// The indices come in threes and each names one of `vertices` vertices.
    pub open spec fn fits(&self, vertices: nat) -> bool {
        &&& self.index_buffer@.len() % 3 == 0
        &&& self.index_buffer@.len() / 3 <= u32::MAX
        &&& forall|i: int|
            0 <= i < self.index_buffer@.len() ==> (#[trigger] self.index_buffer@[i]) < vertices
    }

    /// Checks that the indices come in threes and each names one of
    /// `vertices` vertices.
    pub fn check(&self, vertices: usize) -> (ok: bool)
        ensures
            ok == self.fits(vertices as nat),
    {
        let n: usize = self.index_buffer.len();
        if n % 3 != 0 || n / 3 > 0xFFFF_FFFF {
            return false;
        }
        let mut i: usize = 0;
        while i < n
            invariant
                i <= n,
                n == self.index_buffer@.len(),
                forall|j: int| 0 <= j < i ==> (#[trigger] self.index_buffer@[j]) < vertices,
            decreases n - i,
        {
            if self.index_buffer[i] as usize >= vertices {
                return false;
            }
            i += 1;
        }
        true
    }

    /// Draws the triangles of the mesh and returns their number.
    ///
    /// Each vertex goes through the vertex stage; a triangle whose corners
    /// run clockwise on the screen is dropped; for a textured material the
    /// mip level is chosen once per triangle from the ratio of the triangle's
    /// area in texels to its area in pixels; then the triangle is rasterized.
    pub fn draw<N: Scalar, P: Program<N>>(
        &self,
        shader: &mut Shader<N>,
        program: &P,
        material: &Material<N>,
        vertex_buffer: &Vec<Vertex<N>>,
        fb: &mut FrameBuffer,
    ) -> (count: u32)
        requires
            self.fits(vertex_buffer@.len()),
            old(fb).wf(),
            old(fb)@.width > 0,
            old(fb)@.height > 0,
        ensures
            count == self.index_buffer@.len() / 3,
            final(fb).wf(),
            final(fb)@.width == old(fb)@.width,
            final(fb)@.height == old(fb)@.height,
            is_mesh_drawn(
                *self,
                program,
                material,
                vertex_buffer@,
                #[verifier::truncate]
                (old(fb)@.width as usize),
                #[verifier::truncate]
                (old(fb)@.height as usize),
                *old(shader),
                *final(shader),
                old(fb)@,
                final(fb)@,
            ),
            exists|frags: Seq<Fragment>|
                {
                    &&& all_inside(frags, old(fb)@.width, old(fb)@.height)
                    &&& final(fb)@ == old(fb)@.draw(frags)
                },
    {
        let width: usize = fb.width();
        let height: usize = fb.height();
        let n: usize = self.index_buffer.len();
        let ghost mut frags: Seq<Fragment> = Seq::empty();
        shader.set_material(material);
        let mut local: Shader<N> = Shader::new(shader.shader_type(), N::from_index(0));
        core::mem::swap(&mut local, shader);
        let ghost mut shaders: Seq<Shader<N>> = seq![local];
        let ghost mut frames: Seq<FrameView> = seq![fb@];
        let mut at: usize = 0;
        while at < n
            invariant
                at <= n,
                at % 3 == 0,
                n == self.index_buffer@.len(),
                self.fits(vertex_buffer@.len()),
                fb.wf(),
                width == old(fb)@.width,
                height == old(fb)@.height,
                width > 0,
                height > 0,
                fb@.width == old(fb)@.width,
                fb@.height == old(fb)@.height,
                all_inside(frags, old(fb)@.width, old(fb)@.height),
                fb@ == old(fb)@.draw(frags),
                shaders.len() == at / 3 + 1,
                frames.len() == at / 3 + 1,
                shaders.last() == local,
                frames.last() == fb@,
                shaders[0]@ == material_view(old(shader)@, material),
                frames[0] == old(fb)@,
                forall|t: int|
                    0 <= t < at / 3 ==> #[trigger] is_mesh_step(
                        *self,
                        program,
                        material,
                        vertex_buffer@,
                        width,
                        height,
                        shaders,
                        frames,
                        t,
                    ),
            decreases n - at,
        {
            let v0 = &vertex_buffer[self.index_buffer[at] as usize];
            let v1 = &vertex_buffer[self.index_buffer[at + 1] as usize];
            let v2 = &vertex_buffer[self.index_buffer[at + 2] as usize];
            let ghost before = fb@;
            let ghost shader_before = local;
            local = draw_triangle(local, program, material, v0, v1, v2, width, height, fb);
            proof {
                let drawn = choose|drawn: Seq<Fragment>|
                    all_inside(drawn, before.width, before.height) && fb@ == before.draw(drawn);
                lemma_draw_concat(old(fb)@, frags, drawn);
                frags = frags + drawn;
                let t = (at / 3) as int;
                let new_shaders = shaders.push(local);
                let new_frames = frames.push(fb@);
                assert(3 * t == at);
                assert forall|u: int| 0 <= u < t + 1 implies #[trigger] is_mesh_step(
                    *self,
                    program,
                    material,
                    vertex_buffer@,
                    width,
                    height,
                    new_shaders,
                    new_frames,
                    u,
                ) by {
                    if u < t {
                        assert(is_mesh_step(
                            *self,
                            program,
                            material,
                            vertex_buffer@,
                            width,
                            height,
                            shaders,
                            frames,
                            u,
                        ));
                    }
                }
                shaders = new_shaders;
                frames = new_frames;
            }
            at += 3;
        }
        core::mem::swap(&mut local, shader);
        proof {
            assert(is_mesh_steps(
                *self,
                program,
                material,
                vertex_buffer@,
                width,
                height,
                shaders,
                frames,
            ));
        }
        (n / 3) as u32
    }
}

/// What the shader holds when it has taken over a material: its colours,
/// the variant for textured materials if it has a texture, and the
/// reflection if it has an environment map.
pub open spec fn material_view<N>(v: ShaderView<N>, material: &Material<N>) -> ShaderView<N> {
    ShaderView {
        ambient: material.ambient,
        diffuse: material.diffuse,
        specular: material.specular,
        ambient_intensity: material.ambient_intensity,
        textured: material.texture is Some,
        reflective: material.texture_cube is Some,
        ..v
    }
}

/// `texture` is the mip level for a triangle: none for a material without
/// texture, else the level of detail for the ratio of the triangle's area
/// in texels, its texture coordinates scaled by the size of the full image,
/// to its area in pixels, or the smallest level where the pyramid has fewer.
pub open spec fn is_texture_choice<N: Scalar>(
    material: &Material<N>,
    points: [ScreenPoint<N>; 3],
    t0: [N; 2],
    t1: [N; 2],
    t2: [N; 2],
    texture: Option<&Surface<N>>,
) -> bool {
    match material.texture {
        None => texture is None,
        Some(t) => exists|size: [N; 2], sq_pixel: N, sq_texel: N, lod: usize|
            #![trigger is_scaled_cross(t0, t1, t2, size, sq_texel), is_level_of_detail(sq_texel, sq_pixel, lod)]
            {
                &&& t.levels().len() >= 1
                &&& is_from_index(t.levels()[0].width() as usize, size@[0])
                &&& is_from_index(t.levels()[0].height() as usize, size@[1])
                &&& is_screen_cross(points, sq_pixel)
                &&& is_scaled_cross(t0, t1, t2, size, sq_texel)
                &&& is_level_of_detail(sq_texel, sq_pixel, lod)
                &&& (texture matches Some(s) && *s == t.levels()[selected_level(
                    t.levels().len(),
                    lod as nat,
                )])
            },
    }
}

/// `after` is the frame `before` with the projected triangle drawn on it:
/// unchanged where the scalar answers that twice the signed area of the
/// triangle is less than zero, so that its corners run clockwise; else
/// rasterized with the pixel stage of `program`, bound to the shader, the
/// material and the chosen mip level.
pub open spec fn is_triangle_result<'a, N: Scalar, P: Program<N>>(
    program: &'a P,
    material: &'a Material<N>,
    shader: Shader<N>,
    points: [ScreenPoint<N>; 3],
    varyings: [[N; 16]; 3],
    k: usize,
    t0: [N; 2],
    t1: [N; 2],
    t2: [N; 2],
    width: usize,
    height: usize,
    before: FrameView,
    after: FrameView,
) -> bool {
    exists|area: N, zero: N, culled: bool|
        #![trigger is_signed_area(points, area), is_less(area, zero, culled)]
        {
            &&& is_signed_area(points, area)
            &&& is_from_index(0, zero)
            &&& is_less(area, zero, culled)
            &&& if culled {
                after == before
            } else {
                exists|stage: BoundPixel<'a, N, P>|
                    {
                        &&& stage.program == program
                        &&& *stage.shader == shader
                        &&& stage.material == material
                        &&& is_texture_choice(material, points, t0, t1, t2, stage.texture)
                        &&& #[trigger] is_rasterized(
                            points,
                            varyings,
                            k,
                            &stage,
                            width,
                            height,
                            before,
                            after,
                        )
                    }
            }
        }
}

/// One triangle is drawn: its three vertices go through the vertex stage
/// one after the other, which takes the shader from `shader_before` to
/// `shader_after`, and the projected triangle, with as many interpolated
/// values as the stage wrote for the last vertex, takes the frame from
/// `before` to `after`.
pub open spec fn is_triangle_drawn<'a, N: Scalar, P: Program<N>>(
    program: &'a P,
    material: &'a Material<N>,
    v0: Vertex<N>,
    v1: Vertex<N>,
    v2: Vertex<N>,
    width: usize,
    height: usize,
    shader_before: Shader<N>,
    shader_after: Shader<N>,
    before: FrameView,
    after: FrameView,
) -> bool {
    exists|
        a: Projected<N>,
        b: Projected<N>,
        c: Projected<N>,
        s1: Shader<N>,
        s2: Shader<N>,
        points: [ScreenPoint<N>; 3],
        varyings: [[N; 16]; 3],
    |
        #![trigger is_projected(program, shader_before, v0, width, height, a, s1), is_projected(program, s1, v1, width, height, b, s2), is_projected(program, s2, v2, width, height, c, shader_after), is_triangle_result(program, material, shader_after, points, varyings, c.len, v0.tex, v1.tex, v2.tex, width, height, before, after)]
        {
            &&& is_projected(program, shader_before, v0, width, height, a, s1)
            &&& is_projected(program, s1, v1, width, height, b, s2)
            &&& is_projected(program, s2, v2, width, height, c, shader_after)
            &&& points@ =~= seq![a.point, b.point, c.point]
            &&& varyings@ =~= seq![a.varyings, b.varyings, c.varyings]
            &&& is_triangle_result(
                program,
                material,
                shader_after,
                points,
                varyings,
                c.len,
                v0.tex,
                v1.tex,
                v2.tex,
                width,
                height,
                before,
                after,
            )
        }
}

/// Triangle `t` of the mesh takes the shader from `shaders[t]` to
/// `shaders[t + 1]` and the frame from `frames[t]` to `frames[t + 1]`.
pub open spec fn is_mesh_step<'a, N: Scalar, P: Program<N>>(
    mesh: Mesh,
    program: &'a P,
    material: &'a Material<N>,
    vertices: Seq<Vertex<N>>,
    width: usize,
    height: usize,
    shaders: Seq<Shader<N>>,
    frames: Seq<FrameView>,
    t: int,
) -> bool {
    is_triangle_drawn(
        program,
        material,
        vertices[mesh.index_buffer@[3 * t] as int],
        vertices[mesh.index_buffer@[3 * t + 1] as int],
        vertices[mesh.index_buffer@[3 * t + 2] as int],
        width,
        height,
        shaders[t],
        shaders[t + 1],
        frames[t],
        frames[t + 1],
    )
}

/// The triangles of the mesh are drawn one after the other, each from the
/// shader and the frame that the one before left.
pub open spec fn is_mesh_steps<'a, N: Scalar, P: Program<N>>(
    mesh: Mesh,
    program: &'a P,
    material: &'a Material<N>,
    vertices: Seq<Vertex<N>>,
    width: usize,
    height: usize,
    shaders: Seq<Shader<N>>,
    frames: Seq<FrameView>,
) -> bool {
    &&& shaders.len() == mesh.index_buffer@.len() / 3 + 1
    &&& frames.len() == shaders.len()
    &&& forall|t: int|
        0 <= t < mesh.index_buffer@.len() / 3 ==> #[trigger] is_mesh_step(
            mesh,
            program,
            material,
            vertices,
            width,
            height,
            shaders,
            frames,
            t,
        )
}

/// The mesh is drawn: the shader takes over the material, then the
/// triangles are drawn one after the other, which takes the shader from
/// `shader_before` to `shader_after` and the frame from `before` to `after`.
pub open spec fn is_mesh_drawn<'a, N: Scalar, P: Program<N>>(
    mesh: Mesh,
    program: &'a P,
    material: &'a Material<N>,
    vertices: Seq<Vertex<N>>,
    width: usize,
    height: usize,
    shader_before: Shader<N>,
    shader_after: Shader<N>,
    before: FrameView,
    after: FrameView,
) -> bool {
    exists|shaders: Seq<Shader<N>>, frames: Seq<FrameView>|
        {
            &&& #[trigger] is_mesh_steps(
                mesh,
                program,
                material,
                vertices,
                width,
                height,
                shaders,
                frames,
            )
            &&& shaders[0]@ == material_view(shader_before@, material)
            &&& frames[0] == before
            &&& shaders.last() == shader_after
            &&& frames.last() == after
        }
}

/// Draws one triangle: runs the vertex stage on its three vertices, drops
/// it if its corners run clockwise on the screen, else chooses the mip
/// level and rasterizes it.
fn draw_triangle<N: Scalar, P: Program<N>>(
    shader: Shader<N>,
    program: &P,
    material: &Material<N>,
    v0: &Vertex<N>,
    v1: &Vertex<N>,
    v2: &Vertex<N>,
    width: usize,
    height: usize,
    fb: &mut FrameBuffer,
) -> (after: Shader<N>)
    requires
        old(fb).wf(),
        width == old(fb)@.width,
        height == old(fb)@.height,
        width > 0,
        height > 0,
    ensures
        final(fb).wf(),
        final(fb)@.width == old(fb)@.width,
        final(fb)@.height == old(fb)@.height,
        is_triangle_drawn(
            program,
            material,
            *v0,
            *v1,
            *v2,
            width,
            height,
            shader,
            after,
            old(fb)@,
            final(fb)@,
        ),
        exists|frags: Seq<Fragment>|
            {
                &&& all_inside(frags, old(fb)@.width, old(fb)@.height)
                &&& final(fb)@ == old(fb)@.draw(frags)
            },
{
    let (s1, first) = project_vertex(shader, program, v0, width, height);
    let (s2, second) = project_vertex(s1, program, v1, width, height);
    let (s3, third) = project_vertex(s2, program, v2, width, height);
    let ghost a = first;
    let ghost b = second;
    let ghost c = third;
    let vertex_out_len: usize = third.len;
    let points: [ScreenPoint<N>; 3] = [first.point, second.point, third.point];
    let vertex_out: [[N; 16]; 3] = [first.varyings, second.varyings, third.varyings];
    let area: N = signed_area(&points);
    let zero: N = N::from_index(0);
    let culled: bool = area.less(zero);
    if culled {
        proof {
            let none = Seq::<Fragment>::empty();
            assert(all_inside(none, old(fb)@.width, old(fb)@.height) && fb@ == old(fb)@.draw(none));
            assert(is_signed_area(points, area) && is_less(area, zero, culled));
            assert(is_triangle_result(
                program,
                material,
                s3,
                points,
                vertex_out,
                c.len,
                v0.tex,
                v1.tex,
                v2.tex,
                width,
                height,
                old(fb)@,
                fb@,
            ));
            assert(points@ =~= seq![a.point, b.point, c.point]);
            assert(vertex_out@ =~= seq![a.varyings, b.varyings, c.varyings]);
        }
        return s3;
    }
    let texture: Option<&Surface<N>> = match &material.texture {
        Some(t) => {
            let last: usize = t.level_count() - 1;
            let level0 = t.get_surface(0);
            let size: [N; 2] = [N::from_index(level0.size_x()), N::from_index(level0.size_y())];
            let sq_pixel: N = screen_cross(&points);
            let sq_texel: N = scaled_cross(&v0.tex, &v1.tex, &v2.tex, &size);
            let lod: usize = level_of_detail(sq_texel, sq_pixel);
            let chosen = t.get_surface(if lod < last { lod } else { last });
            proof {
                assert(is_from_index(t.levels()[0].width() as usize, size@[0]));
                assert(is_from_index(t.levels()[0].height() as usize, size@[1]));
                assert(is_scaled_cross(v0.tex, v1.tex, v2.tex, size, sq_texel)
                    && is_level_of_detail(sq_texel, sq_pixel, lod));
                assert(is_texture_choice(material, points, v0.tex, v1.tex, v2.tex, Some(chosen)));
            }
            Some(chosen)
        },
        None => None,
    };
    let stage = BoundPixel { program, shader: &s3, material, texture };
    triangle(fb, &points, &vertex_out, vertex_out_len, &stage);
    proof {
        let drawn = choose|cands: Seq<Candidate<N>>, drawn: Seq<Fragment>|
            #![trigger is_painted(old(fb)@, cands, drawn, &stage, vertex_out_len)]
            {
                &&& is_cover(points, vertex_out, vertex_out_len, width, height, cands)
                &&& is_painted(old(fb)@, cands, drawn, &stage, vertex_out_len)
                &&& crate::framebuffer::scan_ordered(drawn)
                &&& all_inside(drawn, width as nat, height as nat)
                &&& fb@ == old(fb)@.draw(drawn)
            };
        crate::framebuffer::lemma_draw_monotone(old(fb)@, drawn.1);
        assert(is_rasterized(
            points,
            vertex_out,
            vertex_out_len,
            &stage,
            width,
            height,
            old(fb)@,
            fb@,
        ));
        assert(is_signed_area(points, area) && is_less(area, zero, culled));
        assert(is_triangle_result(
            program,
            material,
            s3,
            points,
            vertex_out,
            c.len,
            v0.tex,
            v1.tex,
            v2.tex,
            width,
            height,
            old(fb)@,
            fb@,
        ));
        assert(points@ =~= seq![a.point, b.point, c.point]);
        assert(vertex_out@ =~= seq![a.varyings, b.varyings, c.varyings]);
    }
    s3
}

/// The number of triangles in the first `n` meshes.
pub open spec fn triangles_in(meshes: Seq<Mesh>, n: int) -> int
    decreases n,
{
    if n <= 0 {
        0
    } else {
        triangles_in(meshes, n - 1) + meshes[n - 1].index_buffer@.len() / 3
    }
}

/// The triangle count never shrinks as more meshes are counted.
pub proof fn lemma_triangles_monotone(meshes: Seq<Mesh>, m: int, n: int)
    requires
        0 <= m <= n,
    ensures
        0 <= triangles_in(meshes, m) <= triangles_in(meshes, n),
    decreases n,
{
    if n > 0 {
        if m < n {
            lemma_triangles_monotone(meshes, m, n - 1);
        } else {
            lemma_triangles_monotone(meshes, m - 1, n - 1);
        }
    }
}

/// Vertices, materials and the meshes that use them.
pub struct Model<N> {
    pub vertex_buffer: Vec<Vertex<N>>,
    pub material_list: Vec<Material<N>>,
    pub mesh_list: Vec<Mesh>,
    pub min: [N; 3],
    pub max: [N; 3],
    pub normalize: bool,
}

impl<N: Copy> Model<N> {
    /// An empty model that is drawn where it stands. `zero` fills its unused
    /// bounding box.
    pub fn new(zero: N) -> (model: Model<N>)
        ensures
            model.vertex_buffer@.len() == 0,
            model.material_list@.len() == 0,
            model.mesh_list@.len() == 0,
            model.bounding_box() is None,
    {
        Model {
            vertex_buffer: Vec::new(),
            material_list: Vec::new(),
            mesh_list: Vec::new(),
            min: [zero; 3],
            max: [zero; 3],
            normalize: false,
        }
    }

    /// An empty model that is to be centred and scaled to unit size, given
    /// the corners of its bounding box.
    pub fn with_normalize(min: [N; 3], max: [N; 3]) -> (model: Model<N>)
        ensures
            model.vertex_buffer@.len() == 0,
            model.material_list@.len() == 0,
            model.mesh_list@.len() == 0,
            model.bounding_box() == Some((min, max)),
    {
        Model {
            vertex_buffer: Vec::new(),
            material_list: Vec::new(),
            mesh_list: Vec::new(),
            min,
            max,
            normalize: true,
        }
    }

    /// The corners of the bounding box, for a model that is to be normalized.
    pub fn bounds(&self) -> (b: Option<([N; 3], [N; 3])>)
        ensures
            b == self.bounding_box(),
    {
        if self.normalize {
            Some((self.min, self.max))
        } else {
            None
        }
    }
}

impl<N> Model<N> {
    /// The corners of the bounding box, for a model that is to be normalized.
    pub open spec fn bounding_box(&self) -> Option<([N; 3], [N; 3])> {
        if self.normalize {
            Some((self.min, self.max))
        } else {
            None
        }
    }

    /// Every mesh names a material of the model and vertices of the model,
    /// and the triangles can be counted in 32 bits.
    pub open spec fn wf(&self) -> bool {
        &&& forall|i: int|
            0 <= i < self.mesh_list@.len() ==> {
                &&& (#[trigger] self.mesh_list@[i]).fits(self.vertex_buffer@.len())
                &&& self.mesh_list@[i].material_id < self.material_list@.len()
            }
        &&& triangles_in(self.mesh_list@, self.mesh_list@.len() as int) <= u32::MAX
    }

    /// Checks that every mesh names a material of the model and vertices of
    /// the model, and that the triangles can be counted in 32 bits.
    pub fn check(&self) -> (ok: bool)
        ensures
            ok == self.wf(),
    {
        let n: usize = self.mesh_list.len();
        let mut total: u32 = 0;
        let mut i: usize = 0;
        while i < n
            invariant
                i <= n,
                n == self.mesh_list@.len(),
                total == triangles_in(self.mesh_list@, i as int),
                forall|j: int|
                    0 <= j < i ==> {
                        &&& (#[trigger] self.mesh_list@[j]).fits(self.vertex_buffer@.len())
                        &&& self.mesh_list@[j].material_id < self.material_list@.len()
                    },
            decreases n - i,
        {
            let mesh = &self.mesh_list[i];
            if !mesh.check(self.vertex_buffer.len()) || mesh.material_id
                >= self.material_list.len() {
                return false;
            }
            let triangles: u32 = (mesh.index_buffer.len() / 3) as u32;
            match total.checked_add(triangles) {
                Some(sum) => {
                    total = sum;
                },
                None => {
                    proof {
                        lemma_triangles_monotone(self.mesh_list@, i + 1, n as int);
                    }
                    return false;
                },
            }
            i += 1;
        }
        true
    }
}

impl<N: Scalar> Model<N> {
    /// Draws every mesh with its material and returns the number of
    /// triangles handed to the pipeline.
    pub fn draw<P: Program<N>>(&self, shader: &mut Shader<N>, program: &P, fb: &mut FrameBuffer) -> (count: u32)
        requires
            self.wf(),
            old(fb).wf(),
            old(fb)@.width > 0,
            old(fb)@.height > 0,
        ensures
            count == triangles_in(self.mesh_list@, self.mesh_list@.len() as int),
            final(fb).wf(),
            is_model_drawn(
                *self,
                program,
                #[verifier::truncate]
                (old(fb)@.width as usize),
                #[verifier::truncate]
                (old(fb)@.height as usize),
                *old(shader),
                *final(shader),
                old(fb)@,
                final(fb)@,
            ),
            exists|frags: Seq<Fragment>|
                {
                    &&& all_inside(frags, old(fb)@.width, old(fb)@.height)
                    &&& final(fb)@ == old(fb)@.draw(frags)
                },
    {
        let n: usize = self.mesh_list.len();
        let width: usize = fb.width();
        let height: usize = fb.height();
        let ghost mut frags: Seq<Fragment> = Seq::empty();
        let ghost mut shaders: Seq<Shader<N>> = seq![*shader];
        let ghost mut frames: Seq<FrameView> = seq![fb@];
        let mut triangle_cnt: u32 = 0;
        let mut i: usize = 0;
        while i < n
            invariant
                i <= n,
                n == self.mesh_list@.len(),
                self.wf(),
                triangle_cnt == triangles_in(self.mesh_list@, i as int),
                fb.wf(),
                fb@.width == old(fb)@.width,
                fb@.height == old(fb)@.height,
                width == old(fb)@.width,
                height == old(fb)@.height,
                old(fb)@.width > 0,
                old(fb)@.height > 0,
                all_inside(frags, old(fb)@.width, old(fb)@.height),
                fb@ == old(fb)@.draw(frags),
                shaders.len() == i + 1,
                frames.len() == i + 1,
                shaders[0] == *old(shader),
                frames[0] == old(fb)@,
                shaders.last() == *shader,
                frames.last() == fb@,
                forall|j: int|
                    0 <= j < i ==> #[trigger] is_model_step(
                        *self,
                        program,
                        width,
                        height,
                        shaders,
                        frames,
                        j,
                    ),
            decreases n - i,
        {
            let mesh = &self.mesh_list[i];
            let ghost before = fb@;
            let drawn: u32 = mesh.draw(
                shader,
                program,
                &self.material_list[mesh.material_id],
                &self.vertex_buffer,
                fb,
            );
            proof {
                let more = choose|more: Seq<Fragment>|
                    {
                        &&& all_inside(more, before.width, before.height)
                        &&& fb@ == before.draw(more)
                    };
                lemma_draw_concat(old(fb)@, frags, more);
                frags = frags + more;
                lemma_triangles_monotone(self.mesh_list@, i + 1, n as int);
                let new_shaders = shaders.push(*shader);
                let new_frames = frames.push(fb@);
                assert forall|j: int| 0 <= j < i + 1 implies #[trigger] is_model_step(
                    *self,
                    program,
                    width,
                    height,
                    new_shaders,
                    new_frames,
                    j,
                ) by {
                    if j < i {
                        assert(is_model_step(*self, program, width, height, shaders, frames, j));
                    }
                }
                shaders = new_shaders;
                frames = new_frames;
            }
            triangle_cnt += drawn;
            i += 1;
        }
        proof {
            assert(is_model_steps(*self, program, width, height, shaders, frames));
        }
        triangle_cnt
    }
}

/// Mesh `i` of the model, drawn with its material, takes the shader from
/// `shaders[i]` to `shaders[i + 1]` and the frame from `frames[i]` to
/// `frames[i + 1]`.
pub open spec fn is_model_step<'a, N: Scalar, P: Program<N>>(
    model: Model<N>,
    program: &'a P,
    width: usize,
    height: usize,
    shaders: Seq<Shader<N>>,
    frames: Seq<FrameView>,
    i: int,
) -> bool {
    is_mesh_drawn(
        model.mesh_list@[i],
        program,
        &model.material_list@[model.mesh_list@[i].material_id as int],
        model.vertex_buffer@,
        width,
        height,
        shaders[i],
        shaders[i + 1],
        frames[i],
        frames[i + 1],
    )
}

/// The meshes of the model are drawn one after the other, each from the
/// shader and the frame that the one before left.
pub open spec fn is_model_steps<'a, N: Scalar, P: Program<N>>(
    model: Model<N>,
    program: &'a P,
    width: usize,
    height: usize,
    shaders: Seq<Shader<N>>,
    frames: Seq<FrameView>,
) -> bool {
    &&& shaders.len() == model.mesh_list@.len() + 1
    &&& frames.len() == shaders.len()
    &&& forall|i: int|
        0 <= i < model.mesh_list@.len() ==> #[trigger] is_model_step(
            model,
            program,
            width,
            height,
            shaders,
            frames,
            i,
        )
}

/// The model is drawn: its meshes one after the other, which takes the
/// shader from `shader_before` to `shader_after` and the frame from `before`
/// to `after`.
pub open spec fn is_model_drawn<'a, N: Scalar, P: Program<N>>(
    model: Model<N>,
    program: &'a P,
    width: usize,
    height: usize,
    shader_before: Shader<N>,
    shader_after: Shader<N>,
    before: FrameView,
    after: FrameView,
) -> bool {
    exists|shaders: Seq<Shader<N>>, frames: Seq<FrameView>|
        {
            &&& #[trigger] is_model_steps(model, program, width, height, shaders, frames)
            &&& shaders[0] == shader_before
            &&& frames[0] == before
            &&& shaders.last() == shader_after
            &&& frames.last() == after
        }
}

} // verus!
