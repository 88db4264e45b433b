use vstd::prelude::*;

use crate::info::DrawMode;
use crate::shader::ShaderType;
use crate::storage::{LightType, Storage};

verus! {

/// A material/shader mismatch found when setting up or issuing a draw.
#[derive(Clone, Copy, Debug, PartialEq, Eq, Structural)]
pub enum DrawError {
    /// A single-color variant without a color.
    MissingColor,
    /// The vertex-color variant without vertex colors.
    MissingVertexColors,
    /// The texture variant without texture coordinates.
    MissingTexCoords,
}

/// What a material selects and which payloads it carries; the payloads
/// themselves stay with the caller.
#[derive(Clone, Copy, Debug, PartialEq, Eq, Structural)]
pub struct MaterialLayout {
    pub shader_type: ShaderType,
    pub flat_shade: bool,
    pub wire_overlay: bool,
    pub has_color: bool,
    pub has_vertex_colors: bool,
    pub has_tex_coords: bool,
}

/// The variants that draw with one uniform color.
pub open spec fn uses_color(shader: ShaderType) -> bool {
    shader == ShaderType::Simple || shader == ShaderType::Color || shader == ShaderType::Wireframe
}

impl MaterialLayout {
    /// The payload the shader variant needs is missing, if one is.
    pub open spec fn spec_check(self) -> Result<(), DrawError> {
        if uses_color(self.shader_type) && !self.has_color {
            Err(DrawError::MissingColor)
        } else if self.shader_type == ShaderType::VertexColor && !self.has_vertex_colors {
            Err(DrawError::MissingVertexColors)
        } else if self.shader_type == ShaderType::Texture && !self.has_tex_coords {
            Err(DrawError::MissingTexCoords)
        } else {
            Ok(())
        }
    }

    /// Whether the populated payload matches the shader variant.
    pub fn check(&self) -> (r: Result<(), DrawError>)
        ensures
            r == self.spec_check(),
    {
        let color_variant = match self.shader_type {
            ShaderType::Simple | ShaderType::Color | ShaderType::Wireframe => true,
            _ => false,
        };
        if color_variant && !self.has_color {
            Err(DrawError::MissingColor)
        } else if self.shader_type == ShaderType::VertexColor && !self.has_vertex_colors {
            Err(DrawError::MissingVertexColors)
        } else if self.shader_type == ShaderType::Texture && !self.has_tex_coords {
            Err(DrawError::MissingTexCoords)
        } else {
            Ok(())
        }
    }
}

/// How a vertex attribute is fed from the geometry.
#[derive(Clone, Copy, Debug, PartialEq, Eq, Structural)]
pub enum Feed {
    /// Not bound.
    Skip,
    /// The buffer as stored, shared by the triangles that index it.
    Shared,
    /// One copy per index, so that each triangle has its own three vertices.
    Unrolled,
}

/// The vertex buffers of a mesh's vertex array.
#[derive(Clone, Copy, Debug, PartialEq, Eq, Structural)]
pub struct AttributePlan {
    /// Positions (always bound): unrolled when a wire overlay needs
    /// per-triangle barycentric coordinates.
    pub positions: Feed,
    /// Barycentric coordinates, one triple per unrolled vertex.
    pub barycentric: bool,
    pub normals: Feed,
    pub vertex_colors: bool,
    pub tex_coords: bool,
}

impl MaterialLayout {
    /// The wireframe variant or a wire overlay draws edges from barycentric
    /// coordinates.
    pub open spec fn spec_wired(self) -> bool {
        self.wire_overlay || self.shader_type == ShaderType::Wireframe
    }

    pub open spec fn spec_attributes(self) -> AttributePlan {
        AttributePlan {
            positions: if self.spec_wired() { Feed::Unrolled } else { Feed::Shared },
            barycentric: self.spec_wired(),
            normals: if self.shader_type == ShaderType::Color && self.wire_overlay {
                Feed::Unrolled
            } else if self.shader_type != ShaderType::Simple && self.shader_type
                != ShaderType::Wireframe {
                Feed::Shared
            } else {
                Feed::Skip
            },
            vertex_colors: self.shader_type == ShaderType::VertexColor,
            tex_coords: self.has_tex_coords,
        }
    }

    /// The buffers to bind when building the vertex array of a mesh with
    /// this material; an error where the material lacks what its variant
    /// needs.
    pub fn attributes(&self) -> (r: Result<AttributePlan, DrawError>)
        ensures
            r == match self.spec_check() {
                Ok(_) => Ok(self.spec_attributes()),
                Err(e) => Err::<AttributePlan, DrawError>(e),
            },
    {
        match self.check() {
            Err(e) => Err(e),
            Ok(()) => {
                let wired = self.wire_overlay || self.shader_type == ShaderType::Wireframe;
                let normals = if self.shader_type == ShaderType::Color && self.wire_overlay {
                    Feed::Unrolled
                } else if self.shader_type != ShaderType::Simple && self.shader_type
                    != ShaderType::Wireframe {
                    Feed::Shared
                } else {
                    Feed::Skip
                };
                Ok(
                    AttributePlan {
                        positions: if wired { Feed::Unrolled } else { Feed::Shared },
                        barycentric: wired,
                        normals,
                        vertex_colors: self.shader_type == ShaderType::VertexColor,
                        tex_coords: self.has_tex_coords,
                    },
                )
            },
        }
    }
}

/// The per-draw uniforms besides the model matrix.
#[derive(Clone, Copy, Debug, PartialEq, Eq, Structural)]
pub struct UniformPlan {
    pub color: bool,
    /// `flat_shade`, `wire_overlay` and `has_albedo`: the shaded color variant only.
    pub shading_flags: bool,
    /// A texture is bound as albedo.
    pub albedo: bool,
    /// Alpha-to-coverage smoothing, for the wireframe variant.
    pub alpha_to_coverage: bool,
}

impl MaterialLayout {
    pub open spec fn spec_uniforms(self) -> UniformPlan {
        UniformPlan {
            color: uses_color(self.shader_type),
            shading_flags: self.shader_type == ShaderType::Color,
            albedo: self.shader_type == ShaderType::Color && self.has_tex_coords,
            alpha_to_coverage: self.shader_type == ShaderType::Wireframe,
        }
    }

    /// The uniforms to upload when drawing with this material; an error where
    /// the material lacks what its variant needs.
    pub fn uniforms(&self) -> (r: Result<UniformPlan, DrawError>)
        ensures
            r == match self.spec_check() {
                Ok(_) => Ok(self.spec_uniforms()),
                Err(e) => Err::<UniformPlan, DrawError>(e),
            },
    {
        match self.check() {
            Err(e) => Err(e),
            Ok(()) => {
                let color = match self.shader_type {
                    ShaderType::Simple | ShaderType::Color | ShaderType::Wireframe => true,
                    _ => false,
                };
                let shaded = self.shader_type == ShaderType::Color;
                Ok(
                    UniformPlan {
                        color,
                        shading_flags: shaded,
                        albedo: shaded && self.has_tex_coords,
                        alpha_to_coverage: self.shader_type == ShaderType::Wireframe,
                    },
                )
            },
        }
    }
}

/// The primitive a draw call emits.
#[derive(Clone, Copy, Debug, PartialEq, Eq, Structural)]
pub enum Primitive {
    Points,
    Lines,
    Triangles,
}

/// A draw call: the primitive, and whether it reads the index buffer
/// (else it draws the vertex array in order).
#[derive(Clone, Copy, Debug, PartialEq, Eq, Structural)]
pub struct DrawCall {
    pub primitive: Primitive,
    pub indexed: bool,
}

/// The draw call of each draw mode: indexed points, lines or triangles, or
/// triangles straight from the vertex array.
pub open spec fn spec_draw_call(mode: DrawMode) -> DrawCall {
    match mode {
        DrawMode::Points => DrawCall { primitive: Primitive::Points, indexed: true },
        DrawMode::Lines => DrawCall { primitive: Primitive::Lines, indexed: true },
        DrawMode::Triangle => DrawCall { primitive: Primitive::Triangles, indexed: true },
        DrawMode::Arrays => DrawCall { primitive: Primitive::Triangles, indexed: false },
    }
}

pub fn draw_call(mode: DrawMode) -> (r: DrawCall)
    ensures
        r == spec_draw_call(mode),
{
    match mode {
        DrawMode::Points => DrawCall { primitive: Primitive::Points, indexed: true },
        DrawMode::Lines => DrawCall { primitive: Primitive::Lines, indexed: true },
        DrawMode::Triangle => DrawCall { primitive: Primitive::Triangles, indexed: true },
        DrawMode::Arrays => DrawCall { primitive: Primitive::Triangles, indexed: false },
    }
}

/// A triangle index buffer over `vertex_count` vertices: whole triangles,
/// and every index names a vertex.
pub open spec fn spec_valid_indices(vertex_count: nat, indices: Seq<u16>) -> bool {
    &&& indices.len() % 3 == 0
    &&& forall|k: int| 0 <= k < indices.len() ==> (#[trigger] indices[k]) < vertex_count
}

pub fn valid_indices(vertex_count: usize, indices: &Vec<u16>) -> (r: bool)
    ensures
        r == spec_valid_indices(vertex_count as nat, indices@),
{
    if indices.len() % 3 != 0 {
        return false;
    }
    let mut k: usize = 0;
    while k < indices.len()
        invariant
            0 <= k <= indices@.len(),
            forall|i: int| 0 <= i < k ==> (#[trigger] indices@[i]) < vertex_count,
        decreases indices.len() - k,
    {
        if indices[k] as usize >= vertex_count {
            return false;
        }
        k += 1;
    }
    true
}

/// Copies, for each index, the three components of the vertex it names: the
/// unrolled buffer of a wired mesh (positions or normals).
pub fn unroll<T: Copy>(data: &Vec<T>, indices: &Vec<u16>) -> (r: Vec<T>)
    requires
        forall|k: int| 0 <= k < indices@.len() ==> 3 * (#[trigger] indices@[k]) + 2 < data@.len(),
        3 * indices@.len() <= usize::MAX,
    ensures
        r@.len() == 3 * indices@.len(),
        forall|k: int, c: int|
            0 <= k < indices@.len() && 0 <= c < 3 ==> #[trigger] r@[3 * k + c] == data@[3
                * indices@[k] + c],
{
    let mut out: Vec<T> = Vec::new();
    let mut k: usize = 0;
    while k < indices.len()
        invariant
            0 <= k <= indices@.len(),
            3 * indices@.len() <= usize::MAX,
            forall|k: int| 0 <= k < indices@.len() ==> 3 * (#[trigger] indices@[k]) + 2 < data@.len(),
            out@.len() == 3 * k,
            forall|j: int, c: int|
                0 <= j < k && 0 <= c < 3 ==> #[trigger] out@[3 * j + c] == data@[3 * indices@[j]
                    + c],
        decreases indices.len() - k,
    {
        let i = 3 * (indices[k] as usize);
        out.push(data[i]);
        out.push(data[i + 1]);
        out.push(data[i + 2]);
        proof {
            assert forall|j: int, c: int| 0 <= j < k + 1 && 0 <= c < 3 implies #[trigger] out@[3 * j
                + c] == data@[3 * indices@[j] + c] by {
                if j == k {
                    assert(3 * j + c == 3 * k + c);
                }
            }
        }
        k += 1;
    }
    out
}

/// Where a light's parameters go in the lighting shader: the uniform array
/// of its kind, at the index counting the earlier lights of that kind.
#[derive(Clone, Copy, Debug, PartialEq, Eq, Structural)]
pub struct LightSlot {
    pub id: usize,
    pub kind: LightType,
    pub index: usize,
}

/// Lights of kind `kind` among `lights`.
pub open spec fn count_kind(lights: Seq<(usize, LightType)>, kind: LightType) -> nat
    decreases lights.len(),
{
    if lights.len() == 0 {
        0
    } else {
        count_kind(lights.drop_last(), kind) + if lights.last().1 == kind {
            1nat
        } else {
            0nat
        }
    }
}

proof fn lemma_count_bound(lights: Seq<(usize, LightType)>, kind: LightType)
    ensures
        count_kind(lights, kind) <= lights.len(),
    decreases lights.len(),
{
    if lights.len() > 0 {
        lemma_count_bound(lights.drop_last(), kind);
    }
}

/// The uniform slot of each registered light, in registration order:
/// ambient, point, directional and spot lights each fill their own array
/// from index 0.
pub fn light_slots<T: Copy, M>(s: &Storage<T, M>) -> (r: Vec<LightSlot>)
    ensures
        r@.len() == s.light_seq().len(),
        forall|k: int|
            0 <= k < r@.len() ==> #[trigger] r@[k] == (LightSlot {
                id: s.light_seq()[k].0,
                kind: s.light_seq()[k].1,
                index: count_kind(s.light_seq().take(k), s.light_seq()[k].1) as usize,
            }),
{
    let lights = s.lights();
    let mut out: Vec<LightSlot> = Vec::new();
    let mut n_amb: usize = 0;
    let mut n_point: usize = 0;
    let mut n_dir: usize = 0;
    let mut n_spot: usize = 0;
    let mut k: usize = 0;
    while k < lights.len()
        invariant
            lights@ == s.light_seq(),
            0 <= k <= lights@.len(),
            out@.len() == k,
            n_amb == count_kind(lights@.take(k as int), LightType::Ambient),
            n_point == count_kind(lights@.take(k as int), LightType::Point),
            n_dir == count_kind(lights@.take(k as int), LightType::Directional),
            n_spot == count_kind(lights@.take(k as int), LightType::Spot),
            forall|j: int|
                0 <= j < k ==> #[trigger] out@[j] == (LightSlot {
                    id: lights@[j].0,
                    kind: lights@[j].1,
                    index: count_kind(lights@.take(j), lights@[j].1) as usize,
                }),
        decreases lights.len() - k,
    {
        let (id, kind) = lights[k];
        proof {
            let t = lights@.take(k as int);
            let t1 = lights@.take(k + 1);
            assert(t1.drop_last() =~= t);
            assert(t1.last() == lights@[k as int]);
            lemma_count_bound(t, kind);
        }
        let index = match kind {
            LightType::Ambient => {
                n_amb += 1;
                n_amb - 1
            },
            LightType::Point => {
                n_point += 1;
                n_point - 1
            },
            LightType::Directional => {
                n_dir += 1;
                n_dir - 1
            },
            LightType::Spot => {
                n_spot += 1;
                n_spot - 1
            },
        };
        out.push(LightSlot { id, kind, index });
        k += 1;
    }
    out
}

} // verus!
