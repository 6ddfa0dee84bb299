//! The state a shading program works on: three matrices, the inputs of the
//! current vertex, the material's colours, and the bounded buffer in which a
//! vertex stage leaves the values to interpolate.

use vstd::prelude::*;
use crate::material::Material;
use crate::raster::MAX_OUT_VALUES;

verus! {

/// The matrix slot that holds projection * view * world.
pub const MATRIX_PROJ_VIEW_WORLD: usize = 0;

/// The matrix slot that holds the world matrix.
pub const MATRIX_WORLD: usize = 1;

/// The matrix slot that holds view * world.
pub const MATRIX_VIEW_WORLD: usize = 2;

/// The number of matrix slots.
pub const MATRIX_COUNT: usize = 3;

/// Where the vertex position (4 values) starts among the inputs.
pub const IN_VS_VEC_POS: usize = 0;

/// Where the vertex normal (4 values) starts among the inputs.
pub const IN_VS_VEC_NORM: usize = 4;

/// Where the texture coordinate (2 values) starts among the inputs.
pub const IN_VS_VEC_TEX: usize = 8;

/// Where the negated light direction (4 values) starts among the inputs.
pub const IN_VS_VEC_NEG_LIGHT: usize = 10;

/// Where the eye position (4 values) starts among the inputs.
pub const IN_VS_VEC_EYE_POS: usize = 14;

/// The number of input values.
pub const IN_VS_LEN: usize = 18;

/// The lighting model of a shading program.
#[derive(Clone, Copy, Debug, PartialEq, Eq, Structural)]
pub enum ShaderType {
    Default,
    Normal,
    Lambert,
    PhongBlinn,
    CookTorrance,
}

/// A pair of a vertex stage and a pixel stage.
#[derive(Clone, Copy, Debug, PartialEq, Eq, Structural)]
pub enum StagePair {
    DefaultColor,
    NormalColor,
    LambertColor,
    LambertTexture,
    PhongBlinnColor,
    PhongBlinnTexture,
    CookTorranceColor,
    CookTorranceTexture,
}

/// Where each value of a variant starts among the values that its vertex
/// stage hands to its pixel stage, and how many values there are.
#[derive(Clone, Copy, Debug, PartialEq, Eq)]
pub struct Slots {
    /// The texture coordinate: 2 values.
    pub tex: Option<usize>,
    /// The cosine between normal and light: 1 value.
    pub cos_nl: Option<usize>,
    /// The vector to the viewer: 3 values.
    pub view: Option<usize>,
    /// The normal: 3 values.
    pub normal: Option<usize>,
    /// The reflected view vector: 3 values.
    pub reflection: Option<usize>,
    /// How many values the stages exchange.
    pub len: usize,
}

/// The values `start .. start + size` of a slot, or none for a missing slot.
pub open spec fn slot_range(start: Option<usize>, size: int) -> Set<int> {
    match start {
        Some(at) => Set::new(|i: int| at <= i < at + size),
        None => Set::empty(),
    }
}

impl Slots {
    /// The slots lie side by side: together they are exactly the values
    /// `0 .. len`, no value belongs to two of them, and there are at most as
    /// many values as the buffer holds.
    pub open spec fn wf(self) -> bool {
        let tex = slot_range(self.tex, 2);
        let cos_nl = slot_range(self.cos_nl, 1);
        let view = slot_range(self.view, 3);
        let normal = slot_range(self.normal, 3);
        let reflection = slot_range(self.reflection, 3);
        &&& self.len <= MAX_OUT_VALUES
        &&& tex + cos_nl + view + normal + reflection =~= Set::new(|i: int| 0 <= i < self.len)
        &&& tex.disjoint(cos_nl) && tex.disjoint(view) && tex.disjoint(normal) && tex.disjoint(
            reflection,
        )
        &&& cos_nl.disjoint(view) && cos_nl.disjoint(normal) && cos_nl.disjoint(reflection)
        &&& view.disjoint(normal) && view.disjoint(reflection)
        &&& normal.disjoint(reflection)
    }
}

impl ShaderType {
    /// How many values the vertex stage of this lighting model hands to its
    /// pixel stage, in the variant for textured or for plainly coloured
    /// materials.
    pub open spec fn varyings(self, textured: bool) -> nat {
        self.slots(textured, false).len as nat
    }

    /// The values that the stages of this lighting model exchange, in order.
    /// A textured variant carries the texture coordinate first, where the
    /// model uses one. The unlit model exchanges nothing, the normal view
    /// the normal, Lambert the cosine between normal and light, Phong-Blinn
    /// and Cook-Torrance the vector to the viewer and the normal. With the
    /// reflection on, the reflected view vector follows.
    pub open spec fn slots(self, textured: bool, reflective: bool) -> Slots {
        let none = Slots {
            tex: None,
            cos_nl: None,
            view: None,
            normal: None,
            reflection: None,
            len: 0,
        };
        let base = match self {
            ShaderType::Default => none,
            ShaderType::Normal => Slots { normal: Some(0usize), len: 3, ..none },
            ShaderType::Lambert => if textured {
                Slots { tex: Some(0usize), cos_nl: Some(2usize), len: 3, ..none }
            } else {
                Slots { cos_nl: Some(0usize), len: 1, ..none }
            },
            ShaderType::PhongBlinn | ShaderType::CookTorrance => if textured {
                Slots { tex: Some(0usize), view: Some(2usize), normal: Some(5usize), len: 8, ..none }
            } else {
                Slots { view: Some(0usize), normal: Some(3usize), len: 6, ..none }
            },
        };
        if reflective {
            Slots { reflection: Some(base.len), len: (base.len + 3) as usize, ..base }
        } else {
            base
        }
    }

    /// The pair of stages that draws a material with this lighting model:
    /// the pair for textured materials where the material has a texture and
    /// the model has such a pair, else the pair for plain colours.
    pub open spec fn stages(self, textured: bool) -> StagePair {
        match self {
            ShaderType::Default => StagePair::DefaultColor,
            ShaderType::Normal => StagePair::NormalColor,
            ShaderType::Lambert => if textured {
                StagePair::LambertTexture
            } else {
                StagePair::LambertColor
            },
            ShaderType::PhongBlinn => if textured {
                StagePair::PhongBlinnTexture
            } else {
                StagePair::PhongBlinnColor
            },
            ShaderType::CookTorrance => if textured {
                StagePair::CookTorranceTexture
            } else {
                StagePair::CookTorranceColor
            },
        }
    }

    /// Chooses the pair of stages for a material.
    pub fn stage_pair(self, textured: bool) -> (pair: StagePair)
        ensures
            pair == self.stages(textured),
    {
        match self {
            ShaderType::Default => StagePair::DefaultColor,
            ShaderType::Normal => StagePair::NormalColor,
            ShaderType::Lambert => if textured {
                StagePair::LambertTexture
            } else {
                StagePair::LambertColor
            },
            ShaderType::PhongBlinn => if textured {
                StagePair::PhongBlinnTexture
            } else {
                StagePair::PhongBlinnColor
            },
            ShaderType::CookTorrance => if textured {
                StagePair::CookTorranceTexture
            } else {
                StagePair::CookTorranceColor
            },
        }
    }

    /// The number of values that the paired vertex and pixel stages of this
    /// lighting model exchange.
    pub fn varying_count(self, textured: bool) -> (k: usize)
        ensures
            k == self.varyings(textured),
            k <= MAX_OUT_VALUES,
    {
        self.layout(textured, false).len
    }

    /// Where each value stands that the paired vertex and pixel stages of
    /// this lighting model exchange.
    pub fn layout(self, textured: bool, reflective: bool) -> (slots: Slots)
        ensures
            slots == self.slots(textured, reflective),
            slots.wf(),
            slots.len == self.varyings(textured) + if reflective { 3nat } else { 0nat },
    {
        let none = Slots {
            tex: None,
            cos_nl: None,
            view: None,
            normal: None,
            reflection: None,
            len: 0,
        };
        let base = match self {
            ShaderType::Default => none,
            ShaderType::Normal => Slots { normal: Some(0), len: 3, ..none },
            ShaderType::Lambert => if textured {
                Slots { tex: Some(0), cos_nl: Some(2), len: 3, ..none }
            } else {
                Slots { cos_nl: Some(0), len: 1, ..none }
            },
            ShaderType::PhongBlinn | ShaderType::CookTorrance => if textured {
                Slots { tex: Some(0), view: Some(2), normal: Some(5), len: 8, ..none }
            } else {
                Slots { view: Some(0), normal: Some(3), len: 6, ..none }
            },
        };
        if reflective {
            Slots { reflection: Some(base.len), len: base.len + 3, ..base }
        } else {
            base
        }
    }
}

/// The mathematical content of a shader's state.
pub struct ShaderView<N> {
    /// The three 4 by 4 matrices, each as 16 values.
    pub matrices: Seq<Seq<N>>,
    /// The 18 input values.
    pub inputs: Seq<N>,
    /// The values written by the vertex stage since the last reset.
    pub outputs: Seq<N>,
    pub ambient: [N; 3],
    pub diffuse: [N; 3],
    pub specular: [N; 3],
    pub ambient_intensity: N,
    pub shader_type: ShaderType,
    /// Whether the variant for textured materials is selected.
    pub textured: bool,
    /// Whether the stages add a reflection of the environment.
    pub reflective: bool,
}

/// The state of a shading program.
pub struct Shader<N> {
    matrix_arr: [[N; 16]; 3],
    in_vertex_data: [N; 18],
    out_vertex_data: [N; 16],
    vertex_out_len: usize,
    ambient: [N; 3],
    diffuse: [N; 3],
    specular: [N; 3],
    ambient_intensity: N,
    shader_type: ShaderType,
    textured: bool,
    reflective: bool,
}

impl<N> Shader<N> {
    #[verifier::type_invariant]
    spec fn well_formed(self) -> bool {
        self.vertex_out_len <= 16
    }
}

impl<N> View for Shader<N> {
    type V = ShaderView<N>;

    closed spec fn view(&self) -> ShaderView<N> {
        ShaderView {
            matrices: seq![self.matrix_arr@[0]@, self.matrix_arr@[1]@, self.matrix_arr@[2]@],
            inputs: self.in_vertex_data@,
            outputs: self.out_vertex_data@.subrange(0, self.vertex_out_len as int),
            ambient: self.ambient,
            diffuse: self.diffuse,
            specular: self.specular,
            ambient_intensity: self.ambient_intensity,
            shader_type: self.shader_type,
            textured: self.textured,
            reflective: self.reflective,
        }
    }
}

impl<N> ShaderView<N> {
    /// The sizes that every shader state has.
    pub open spec fn wf(self) -> bool {
        &&& self.matrices.len() == MATRIX_COUNT
        &&& forall|i: int| 0 <= i < MATRIX_COUNT ==> (#[trigger] self.matrices[i]).len() == 16
        &&& self.inputs.len() == IN_VS_LEN
        &&& self.outputs.len() <= MAX_OUT_VALUES
    }

    /// The inputs with `values` written from position `sm` on.
    pub open spec fn with_inputs(self, sm: int, values: Seq<N>) -> ShaderView<N> {
        ShaderView {
            inputs: Seq::new(
                self.inputs.len(),
                |i: int|
                    if sm <= i < sm + values.len() {
                        values[i - sm]
                    } else {
                        self.inputs[i]
                    },
            ),
            ..self
        }
    }

    /// How many values the selected vertex stage hands on: those of the
    /// lighting model, then the three of the reflection vector if the
    /// reflection is on.
    pub open spec fn expected_varyings(self) -> nat {
        self.shader_type.varyings(self.textured) + if self.reflective { 3nat } else { 0nat }
    }

    /// The state with `values` appended to the outputs.
    pub open spec fn with_outputs(self, values: Seq<N>) -> ShaderView<N> {
        ShaderView { outputs: self.outputs + values, ..self }
    }
}

impl<N: Copy> Shader<N> {
    /// A shader of the given lighting model in which every number is `zero`,
    /// nothing has been written by a vertex stage, and the variant for
    /// plainly coloured materials is selected.
    pub fn new(shader_type: ShaderType, zero: N) -> (shader: Shader<N>)
        ensures
            shader@.wf(),
            forall|m: int|
                0 <= m < MATRIX_COUNT ==> #[trigger] shader@.matrices[m] == Seq::new(
                    16,
                    |i: int| zero,
                ),
            shader@.inputs == Seq::new(IN_VS_LEN as nat, |i: int| zero),
            shader@.outputs == Seq::<N>::empty(),
            shader@.ambient@ == seq![zero, zero, zero],
            shader@.diffuse@ == seq![zero, zero, zero],
            shader@.specular@ == seq![zero, zero, zero],
            shader@.ambient_intensity == zero,
            shader@.shader_type == shader_type,
            !shader@.textured,
            !shader@.reflective,
    {
        let shader = Shader {
            matrix_arr: [[zero; 16]; 3],
            in_vertex_data: [zero; 18],
            out_vertex_data: [zero; 16],
            vertex_out_len: 0,
            ambient: [zero; 3],
            diffuse: [zero; 3],
            specular: [zero; 3],
            ambient_intensity: zero,
            shader_type,
            textured: false,
            reflective: false,
        };
        assert(shader@.matrices[0] =~= Seq::new(16, |i: int| zero));
        assert(shader@.matrices[1] =~= Seq::new(16, |i: int| zero));
        assert(shader@.matrices[2] =~= Seq::new(16, |i: int| zero));
        assert(shader@.inputs =~= Seq::new(IN_VS_LEN as nat, |i: int| zero));
        assert(shader@.outputs =~= Seq::<N>::empty());
        assert(shader@.ambient@ =~= seq![zero, zero, zero]);
        assert(shader@.diffuse@ =~= seq![zero, zero, zero]);
        assert(shader@.specular@ =~= seq![zero, zero, zero]);
        shader
    }

    /// Starts a new vertex: forgets what the vertex stage wrote and loads the
    /// position, the normal and the texture coordinate into the inputs.
    pub fn reset(&mut self, position: [N; 4], normal: [N; 4], tex: [N; 2])
        ensures
            final(self)@.wf(),
            final(self)@ == (ShaderView { outputs: Seq::<N>::empty(), ..old(self)@ }).with_inputs(
                IN_VS_VEC_POS as int,
                position@,
            ).with_inputs(IN_VS_VEC_NORM as int, normal@).with_inputs(
                IN_VS_VEC_TEX as int,
                tex@,
            ),
    {
        self.vertex_out_len = 0;
        assert(self@.outputs =~= Seq::<N>::empty());
        self.set_vec4(IN_VS_VEC_POS, position);
        self.set_vec4(IN_VS_VEC_NORM, normal);
        self.set_vec2(IN_VS_VEC_TEX, tex);
    }

    /// Takes over the colours of a material, selects the variant for textured
    /// materials if it has a texture, else the one for plain colours, and
    /// turns the reflection on if it has an environment map.
    pub fn set_material(&mut self, material: &Material<N>)
        ensures
            final(self)@ == (ShaderView {
                ambient: material.ambient,
                diffuse: material.diffuse,
                specular: material.specular,
                ambient_intensity: material.ambient_intensity,
                textured: material.texture is Some,
                reflective: material.texture_cube is Some,
                ..old(self)@
            }),
    {
        proof {
            use_type_invariant(&*self);
        }
        self.ambient = material.ambient;
        self.diffuse = material.diffuse;
        self.specular = material.specular;
        self.ambient_intensity = material.ambient_intensity;
        self.textured = material.texture.is_some();
        self.reflective = material.texture_cube.is_some();
    }

    /// Replaces the matrix in slot `ind`.
    pub fn set_matrix(&mut self, ind: usize, matrix: [N; 16])
        requires
            ind < MATRIX_COUNT,
        ensures
            final(self)@ == (ShaderView {
                matrices: old(self)@.matrices.update(ind as int, matrix@),
                ..old(self)@
            }),
    {
        proof {
            use_type_invariant(&*self);
        }
        self.matrix_arr[ind] = matrix;
        assert(self@.matrices =~= old(self)@.matrices.update(ind as int, matrix@));
    }

    /// Writes four values into the inputs, from position `sm` on.
    pub fn set_vec4(&mut self, sm: usize, vector: [N; 4])
        requires
            sm + 4 <= IN_VS_LEN,
        ensures
            final(self)@.wf(),
            final(self)@ == old(self)@.with_inputs(sm as int, vector@),
    {
        proof {
            use_type_invariant(&*self);
        }
        self.in_vertex_data[sm] = vector[0];
        self.in_vertex_data[sm + 1] = vector[1];
        self.in_vertex_data[sm + 2] = vector[2];
        self.in_vertex_data[sm + 3] = vector[3];
        assert(self@.inputs =~= old(self)@.with_inputs(sm as int, vector@).inputs);
    }

    /// Writes two values into the inputs, from position `sm` on.
    pub fn set_vec2(&mut self, sm: usize, vector: [N; 2])
        requires
            sm + 2 <= IN_VS_LEN,
        ensures
            final(self)@.wf(),
            final(self)@ == old(self)@.with_inputs(sm as int, vector@),
    {
        proof {
            use_type_invariant(&*self);
        }
        self.in_vertex_data[sm] = vector[0];
        self.in_vertex_data[sm + 1] = vector[1];
        assert(self@.inputs =~= old(self)@.with_inputs(sm as int, vector@).inputs);
    }

    /// The two inputs from position `sm` on.
    pub fn read_vec2(&self, sm: usize) -> (v: [N; 2])
        requires
            sm + 2 <= IN_VS_LEN,
        ensures
            v@ == self@.inputs.subrange(sm as int, sm + 2),
    {
        let v = [self.in_vertex_data[sm], self.in_vertex_data[sm + 1]];
        assert(v@ =~= self@.inputs.subrange(sm as int, sm + 2));
        v
    }

    /// The three inputs from position `sm` on.
    pub fn read_vec3(&self, sm: usize) -> (v: [N; 3])
        requires
            sm + 3 <= IN_VS_LEN,
        ensures
            v@ == self@.inputs.subrange(sm as int, sm + 3),
    {
        let v = [self.in_vertex_data[sm], self.in_vertex_data[sm + 1], self.in_vertex_data[sm + 2]];
        assert(v@ =~= self@.inputs.subrange(sm as int, sm + 3));
        v
    }

    /// The four inputs from position `sm` on.
    pub fn read_vec4(&self, sm: usize) -> (v: [N; 4])
        requires
            sm + 4 <= IN_VS_LEN,
        ensures
            v@ == self@.inputs.subrange(sm as int, sm + 4),
    {
        let v = [
            self.in_vertex_data[sm],
            self.in_vertex_data[sm + 1],
            self.in_vertex_data[sm + 2],
            self.in_vertex_data[sm + 3],
        ];
        assert(v@ =~= self@.inputs.subrange(sm as int, sm + 4));
        v
    }

    /// The matrix in slot `ind`.
    pub fn matrix(&self, ind: usize) -> (m: [N; 16])
        requires
            ind < MATRIX_COUNT,
        ensures
            m@ == self@.matrices[ind as int],
    {
        self.matrix_arr[ind]
    }

    /// Hands one value on to the pixel stage.
    pub fn out_f32(&mut self, val: N)
        requires
            old(self)@.outputs.len() + 1 <= MAX_OUT_VALUES,
        ensures
            final(self)@.wf(),
            final(self)@ == old(self)@.with_outputs(seq![val]),
    {
        proof {
            use_type_invariant(&*self);
        }
        let at: usize = self.vertex_out_len;
        self.out_vertex_data[at] = val;
        self.vertex_out_len = at + 1;
        assert(self@.outputs =~= old(self)@.outputs + seq![val]);
    }

    /// Hands two values on to the pixel stage.
    pub fn out_vec2(&mut self, val: &[N; 2])
        requires
            old(self)@.outputs.len() + 2 <= MAX_OUT_VALUES,
        ensures
            final(self)@.wf(),
            final(self)@ == old(self)@.with_outputs(val@),
    {
        proof {
            use_type_invariant(&*self);
        }
        let at: usize = self.vertex_out_len;
        self.out_vertex_data[at] = val[0];
        self.out_vertex_data[at + 1] = val[1];
        self.vertex_out_len = at + 2;
        assert(self@.outputs =~= old(self)@.outputs + val@);
    }

    /// Hands the first three of four values on to the pixel stage.
    pub fn out_vec3_from4(&mut self, val: &[N; 4])
        requires
            old(self)@.outputs.len() + 3 <= MAX_OUT_VALUES,
        ensures
            final(self)@.wf(),
            final(self)@ == old(self)@.with_outputs(val@.subrange(0, 3)),
    {
        proof {
            use_type_invariant(&*self);
        }
        let at: usize = self.vertex_out_len;
        self.out_vertex_data[at] = val[0];
        self.out_vertex_data[at + 1] = val[1];
        self.out_vertex_data[at + 2] = val[2];
        self.vertex_out_len = at + 3;
        assert(self@.outputs =~= old(self)@.outputs + val@.subrange(0, 3));
    }

    /// How many values the vertex stage has written since the last reset.
    pub fn vertex_out_len(&self) -> (k: usize)
        ensures
            k == self@.outputs.len(),
            k <= MAX_OUT_VALUES,
            self@.wf(),
    {
        proof {
            use_type_invariant(self);
        }
        self.vertex_out_len
    }

    /// The values written by the vertex stage, in a buffer of full size whose
    /// first `vertex_out_len()` entries are those values.
    pub fn out_vertex_data(&self) -> (values: [N; 16])
        ensures
            values@.subrange(0, self@.outputs.len() as int) == self@.outputs,
    {
        proof {
            use_type_invariant(self);
        }
        self.out_vertex_data
    }

    /// The ambient colour of the selected material.
    pub fn ambient(&self) -> (c: [N; 3])
        ensures
            c == self@.ambient,
    {
        self.ambient
    }

    /// The diffuse colour of the selected material.
    pub fn diffuse(&self) -> (c: [N; 3])
        ensures
            c == self@.diffuse,
    {
        self.diffuse
    }

    /// The specular colour of the selected material.
    pub fn specular(&self) -> (c: [N; 3])
        ensures
            c == self@.specular,
    {
        self.specular
    }

    /// How strongly the ambient colour shows.
    pub fn ambient_intensity(&self) -> (v: N)
        ensures
            v == self@.ambient_intensity,
    {
        self.ambient_intensity
    }

    /// The lighting model.
    pub fn shader_type(&self) -> (t: ShaderType)
        ensures
            t == self@.shader_type,
    {
        self.shader_type
    }

    /// Whether the variant for textured materials is selected.
    pub fn textured(&self) -> (t: bool)
        ensures
            t == self@.textured,
    {
        self.textured
    }

    /// Whether the stages add a reflection of the environment.
    pub fn reflective(&self) -> (r: bool)
        ensures
            r == self@.reflective,
    {
        self.reflective
    }

    /// How many values the selected vertex stage hands on: those of the
    /// lighting model, then the reflection vector if the reflection is on.
    pub fn expected_varyings(&self) -> (k: usize)
        ensures
            k == self@.expected_varyings(),
            k <= MAX_OUT_VALUES,
    {
        self.slots().len
    }

    /// The pair of stages that is selected.
    pub fn stage_pair(&self) -> (pair: StagePair)
        ensures
            pair == self@.shader_type.stages(self@.textured),
    {
        self.shader_type.stage_pair(self.textured)
    }

    /// Where each value stands that the selected vertex stage hands on.
    pub fn slots(&self) -> (slots: Slots)
        ensures
            slots == self@.shader_type.slots(self@.textured, self@.reflective),
            slots.wf(),
    {
        self.shader_type.layout(self.textured, self.reflective)
    }
}

} // verus!
