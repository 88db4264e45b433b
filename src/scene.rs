use vstd::prelude::*;
use vstd::string::StringExecFns;

use crate::info::{DrawMode, ObjectInfo, RenderFlags};
use crate::shader::ShaderType;
use crate::storage::{LightType, Storage};

verus! {

/// The display name of a light kind.
pub open spec fn light_name(kind: LightType) -> Seq<char> {
    match kind {
        LightType::Ambient => "Ambient"@,
        LightType::Point => "Point"@,
        LightType::Directional => "Directional"@,
        LightType::Spot => "Spot"@,
    }
}

impl LightType {
    /// The display name of the kind.
    pub fn name(&self) -> (r: String)
        ensures
            r@ == light_name(*self),
    {
        match self {
            LightType::Ambient => String::from_str("Ambient"),
            LightType::Point => String::from_str("Point"),
            LightType::Directional => String::from_str("Directional"),
            LightType::Spot => String::from_str("Spot"),
        }
    }
}

/// How the default gizmo of a light is drawn: an icosphere subdivided
/// `subdivisions` times, with this shader, draw mode and flags.
#[derive(Clone, Copy, Debug, PartialEq, Eq, Structural)]
pub struct GizmoStyle {
    pub subdivisions: u32,
    pub shader: ShaderType,
    pub draw_mode: DrawMode,
    pub flags: RenderFlags,
}

/// The default gizmo of each light kind: a wireframe icosphere for an
/// ambient light, a solid unshaded icosphere drawn without depth test for a
/// point light, and none (an empty placeholder object) for the others.
pub open spec fn spec_gizmo_style(kind: LightType) -> Option<GizmoStyle> {
    match kind {
        LightType::Ambient => Some(
            GizmoStyle {
                subdivisions: 1,
                shader: ShaderType::Wireframe,
                draw_mode: DrawMode::Triangle,
                flags: RenderFlags::spec_default(),
            },
        ),
        LightType::Point => Some(
            GizmoStyle {
                subdivisions: 2,
                shader: ShaderType::Simple,
                draw_mode: DrawMode::Triangle,
                flags: RenderFlags { depth: false, ..RenderFlags::spec_default() },
            },
        ),
        _ => None,
    }
}

pub fn gizmo_style(kind: LightType) -> (r: Option<GizmoStyle>)
    ensures
        r == spec_gizmo_style(kind),
{
    match kind {
        LightType::Ambient => Some(
            GizmoStyle {
                subdivisions: 1,
                shader: ShaderType::Wireframe,
                draw_mode: DrawMode::Triangle,
                flags: RenderFlags::default(),
            },
        ),
        LightType::Point => Some(
            GizmoStyle {
                subdivisions: 2,
                shader: ShaderType::Simple,
                draw_mode: DrawMode::Triangle,
                flags: RenderFlags::no_depth(),
            },
        ),
        _ => None,
    }
}

/// A scene: the storage of all objects and the root object (id 0, named
/// "Scene") that visible objects hang under. Every object is created here.
pub struct Scene<T, M> {
    storage: Storage<T, M>,
    root: usize,
}

impl<T, M> Scene<T, M> {
    pub closed spec fn store(&self) -> Storage<T, M> {
        self.storage
    }

    pub closed spec fn root_id(&self) -> usize {
        self.root
    }

    pub closed spec fn wf(&self) -> bool {
        &&& self.storage.wf()
        &&& self.root < self.storage.len()
    }

    /// Room for one more object.
    pub open spec fn has_room(&self) -> bool {
        self.store().len() < usize::MAX
    }
}

impl<T: Copy, M> Scene<T, M> {
    /// A scene holding only its root, an empty object named "Scene".
    pub fn new(identity: T) -> (r: Self)
        ensures
            r.wf(),
            r.root_id() == 0,
            r.store().len() == 1,
            r.store().identity_value() == identity,
            r.store().local(0) == identity,
            r.store().accum(0) == identity,
            r.store().info_of(0).name@ == "Scene"@,
            r.store().mesh_of(0) is None,
            r.store().parent_of(0) is None,
    {
        let mut storage = Storage::new(identity);
        let root = storage.add(None, None, identity, ObjectInfo::named("Scene"));
        Scene { storage, root }
    }

    pub fn root(&self) -> (r: usize)
        ensures
            r == self.root_id(),
    {
        self.root
    }

    pub fn storage(&self) -> (r: &Storage<T, M>)
        ensures
            *r == self.store(),
    {
        &self.storage
    }

    /// Marks `id` and all its descendants visible.
    pub fn show(&mut self, id: usize)
        requires
            old(self).wf(),
            id < old(self).store().len(),
        ensures
            final(self).wf(),
            final(self).root_id() == old(self).root_id(),
            final(self).store().same_but_info(&old(self).store()),
            forall|j: int|
                #![trigger final(self).store().info_of(j)]
                0 <= j < old(self).store().len() ==> final(self).store().info_of(j) == if old(
                    self,
                ).store().in_subtree(id as int, j) {
                    old(self).store().info_of(j).shown()
                } else {
                    old(self).store().info_of(j)
                },
    {
        self.storage.show(id);
    }

    /// Marks the subtree of `id` visible, then attaches `id` under the root
    /// (see `Storage::attach` for when that is refused).
    pub fn add<F: Fn(T, T) -> T>(&mut self, id: usize, compose: &F) -> (r: bool)
        requires
            old(self).wf(),
            id < old(self).store().len(),
            forall|a: T, b: T| compose.requires((a, b)),
        ensures
            final(self).wf(),
            final(self).root_id() == old(self).root_id(),
            r == (old(self).store().parent_of(id as int) is None && !old(self).store().in_subtree(
                id as int,
                old(self).root_id() as int,
            )),
            r ==> final(self).store().parent_of(id as int) == Some(old(self).root_id()),
            forall|j: int|
                #![trigger final(self).store().info_of(j)]
                0 <= j < old(self).store().len() && old(self).store().in_subtree(id as int, j)
                    ==> final(self).store().info_of(j).render_flags.render,
            old(self).store().consistent(*compose) ==> final(self).store().consistent(*compose),
    {
        let ghost s0 = self.storage;
        self.storage.show(id);
        let ghost s1 = self.storage;
        proof {
            assert forall|j: int| 0 <= j < s0.len() implies #[trigger] s1.in_subtree(id as int, j)
                == s0.in_subtree(id as int, j) by {
                s0.lemma_in_subtree_frame(&s1, id as int, j);
            }
            s0.lemma_in_subtree_frame(&s1, id as int, id as int);
            s0.lemma_in_subtree_frame(&s1, id as int, self.root as int);
            s0.lemma_info_keeps_consistency(&s1, *compose);
        }
        let root = self.root;
        let r = self.storage.attach(root, id, compose);
        proof {
            if r {
                assert forall|j: int| 0 <= j < s0.len() && s0.in_subtree(id as int, j) implies
                    #[trigger] self.storage.info_of(j).render_flags.render by {
                    assert(s1.info_of(j).render_flags.render);
                    s1.lemma_attached_info(&self.storage, root as int, id as int, j);
                }
            }
        }
        r
    }

    /// A new object without mesh, with the identity transform and the
    /// default info under `name`.
    pub fn empty_w_name(&mut self, name: &str) -> (r: usize)
        requires
            old(self).wf(),
            old(self).has_room(),
        ensures
            final(self).wf(),
            final(self).root_id() == old(self).root_id(),
            final(self).store().extends(&old(self).store()),
            r == old(self).store().len(),
            final(self).store().len() == old(self).store().len() + 1,
            final(self).store().mesh_of(r as int) is None,
            final(self).store().shader_of(r as int) is None,
            final(self).store().local(r as int) == old(self).store().identity_value(),
            final(self).store().info_of(r as int).name@ == name@,
            final(self).store().info_of(r as int).draw_mode == DrawMode::Triangle,
            final(self).store().info_of(r as int).render_flags == RenderFlags::spec_default(),
            final(self).store().parent_of(r as int) is None,
    {
        let identity = self.storage.identity();
        self.storage.add(None, None, identity, ObjectInfo::named(name))
    }

    /// A new empty object named "Empty".
    pub fn empty(&mut self) -> (r: usize)
        requires
            old(self).wf(),
            old(self).has_room(),
        ensures
            final(self).wf(),
            final(self).root_id() == old(self).root_id(),
            final(self).store().extends(&old(self).store()),
            r == old(self).store().len(),
            final(self).store().len() == old(self).store().len() + 1,
            final(self).store().mesh_of(r as int) is None,
            final(self).store().info_of(r as int).name@ == "Empty"@,
            final(self).store().parent_of(r as int) is None,
    {
        self.empty_w_name("Empty")
    }

    /// A new object with `mesh`, whose material selects `shader`, the
    /// identity transform and `info`.
    pub fn object_from_mesh_and_info(&mut self, mesh: M, shader: ShaderType, info: ObjectInfo) -> (r:
        usize)
        requires
            old(self).wf(),
            old(self).has_room(),
        ensures
            final(self).wf(),
            final(self).root_id() == old(self).root_id(),
            final(self).store().extends(&old(self).store()),
            final(self).store().light_seq() == old(self).store().light_seq(),
            r == old(self).store().len(),
            final(self).store().len() == old(self).store().len() + 1,
            final(self).store().mesh_of(r as int) == Some(mesh),
            final(self).store().shader_of(r as int) == Some(shader),
            final(self).store().local(r as int) == old(self).store().identity_value(),
            final(self).store().info_of(r as int) == info,
            final(self).store().parent_of(r as int) is None,
    {
        let identity = self.storage.identity();
        self.storage.add(Some(mesh), Some(shader), identity, info)
    }

    /// As `object_from_mesh_and_info`, with the default info under `name`
    /// and `draw_mode`.
    pub fn object_from_mesh_name_and_mode(
        &mut self,
        mesh: M,
        shader: ShaderType,
        name: &str,
        draw_mode: DrawMode,
    ) -> (r: usize)
        requires
            old(self).wf(),
            old(self).has_room(),
        ensures
            final(self).wf(),
            final(self).root_id() == old(self).root_id(),
            final(self).store().extends(&old(self).store()),
            final(self).store().light_seq() == old(self).store().light_seq(),
            r == old(self).store().len(),
            final(self).store().len() == old(self).store().len() + 1,
            final(self).store().mesh_of(r as int) == Some(mesh),
            final(self).store().shader_of(r as int) == Some(shader),
            final(self).store().info_of(r as int).name@ == name@,
            final(self).store().info_of(r as int).draw_mode == draw_mode,
            final(self).store().info_of(r as int).render_flags == RenderFlags::spec_default(),
            final(self).store().parent_of(r as int) is None,
    {
        self.object_from_mesh_and_info(mesh, shader, ObjectInfo::with_mode(name, draw_mode))
    }

    /// As `object_from_mesh_and_info`, with the default info under `name`.
    pub fn object_from_mesh_and_name(&mut self, mesh: M, shader: ShaderType, name: &str) -> (r:
        usize)
        requires
            old(self).wf(),
            old(self).has_room(),
        ensures
            final(self).wf(),
            final(self).root_id() == old(self).root_id(),
            final(self).store().extends(&old(self).store()),
            r == old(self).store().len(),
            final(self).store().len() == old(self).store().len() + 1,
            final(self).store().mesh_of(r as int) == Some(mesh),
            final(self).store().shader_of(r as int) == Some(shader),
            final(self).store().info_of(r as int).name@ == name@,
            final(self).store().info_of(r as int).draw_mode == DrawMode::Triangle,
            final(self).store().parent_of(r as int) is None,
    {
        self.object_from_mesh_and_info(mesh, shader, ObjectInfo::named(name))
    }

    /// As `object_from_mesh_and_info`, with the default info ("node").
    pub fn object_from_mesh(&mut self, mesh: M, shader: ShaderType) -> (r: usize)
        requires
            old(self).wf(),
            old(self).has_room(),
        ensures
            final(self).wf(),
            final(self).root_id() == old(self).root_id(),
            final(self).store().extends(&old(self).store()),
            r == old(self).store().len(),
            final(self).store().len() == old(self).store().len() + 1,
            final(self).store().mesh_of(r as int) == Some(mesh),
            final(self).store().shader_of(r as int) == Some(shader),
            final(self).store().info_of(r as int).name@ == "node"@,
            final(self).store().parent_of(r as int) is None,
    {
        self.object_from_mesh_and_name(mesh, shader, "node")
    }

    /// A light of kind `kind` with its default gizmo: `gizmo` is the
    /// icosphere mesh that `gizmo_style(kind)` describes, or `None` where it
    /// describes none. The object is named after the kind and registered as
    /// a light.
    pub fn light(&mut self, kind: LightType, gizmo: Option<M>) -> (r: usize)
        requires
            old(self).wf(),
            old(self).has_room(),
            gizmo is Some == spec_gizmo_style(kind) is Some,
        ensures
            final(self).wf(),
            final(self).root_id() == old(self).root_id(),
            r == old(self).store().len(),
            final(self).store().len() == old(self).store().len() + 1,
            final(self).store().info_of(r as int).name@ == light_name(kind),
            final(self).store().mesh_of(r as int) == gizmo,
            final(self).store().parent_of(r as int) is None,
            match spec_gizmo_style(kind) {
                Some(style) => {
                    &&& final(self).store().shader_of(r as int) == Some(style.shader)
                    &&& final(self).store().info_of(r as int).draw_mode == style.draw_mode
                    &&& final(self).store().info_of(r as int).render_flags == style.flags
                },
                None => final(self).store().shader_of(r as int) is None,
            },
            final(self).store().light_seq() == old(self).store().light_seq().push((r, kind)),
    {
        let identity = self.storage.identity();
        let name = kind.name();
        let id = match gizmo_style(kind) {
            Some(style) => {
                let info = ObjectInfo {
                    name,
                    draw_mode: style.draw_mode,
                    render_flags: style.flags,
                };
                self.storage.add(gizmo, Some(style.shader), identity, info)
            },
            None => {
                let info = ObjectInfo {
                    name,
                    draw_mode: DrawMode::Triangle,
                    render_flags: RenderFlags::default(),
                };
                self.storage.add(None, None, identity, info)
            },
        };
        self.storage.add_light(id, kind);
        id
    }

    /// A light of kind `kind` drawn with a mesh of the caller's, as
    /// triangles; named after the kind and registered as a light.
    pub fn light_w_config(&mut self, kind: LightType, mesh: M, shader: ShaderType) -> (r: usize)
        requires
            old(self).wf(),
            old(self).has_room(),
        ensures
            final(self).wf(),
            final(self).root_id() == old(self).root_id(),
            r == old(self).store().len(),
            final(self).store().len() == old(self).store().len() + 1,
            final(self).store().info_of(r as int).name@ == light_name(kind),
            final(self).store().info_of(r as int).draw_mode == DrawMode::Triangle,
            final(self).store().mesh_of(r as int) == Some(mesh),
            final(self).store().shader_of(r as int) == Some(shader),
            final(self).store().parent_of(r as int) is None,
            final(self).store().light_seq() == old(self).store().light_seq().push((r, kind)),
    {
        let name = kind.name();
        let id = self.object_from_mesh_name_and_mode(mesh, shader, name.as_str(), DrawMode::Triangle);
        self.storage.add_light(id, kind);
        id
    }

    /// Replaces the local transform of `id` and brings its descendants'
    /// parent transforms up to date (see `Storage::set_transform`).
    pub fn set_transform<F: Fn(T, T) -> T>(&mut self, id: usize, transform: T, compose: &F)
        requires
            old(self).wf(),
            id < old(self).store().len(),
            forall|a: T, b: T| compose.requires((a, b)),
        ensures
            final(self).wf(),
            final(self).root_id() == old(self).root_id(),
            final(self).store().same_shape(&old(self).store()),
            final(self).store().same_payload(&old(self).store()),
            final(self).store().local(id as int) == transform,
            forall|j: int|
                #![trigger final(self).store().local(j)]
                0 <= j < old(self).store().len() && j != id ==> final(self).store().local(j)
                    == old(self).store().local(j),
            old(self).store().consistent(*compose) ==> final(self).store().consistent(*compose),
    {
        self.storage.set_transform(id, transform, compose);
    }
}

impl<T: Copy, M: Clone> Scene<T, M> {
    /// A copy of `id` (mesh, local transform, info) as a new, unattached
    /// object that shares nothing with `id`.
    pub fn duplicate_node(&mut self, id: usize) -> (r: usize)
        requires
            old(self).wf(),
            id < old(self).store().len(),
            old(self).has_room(),
        ensures
            final(self).wf(),
            final(self).root_id() == old(self).root_id(),
            final(self).store().extends(&old(self).store()),
            r == old(self).store().len(),
            final(self).store().len() == old(self).store().len() + 1,
            final(self).store().local(r as int) == old(self).store().local(id as int),
            final(self).store().info_of(r as int) == old(self).store().info_of(id as int),
            final(self).store().shader_of(r as int) == old(self).store().shader_of(id as int),
            final(self).store().mesh_of(r as int) is Some == old(self).store().mesh_of(id as int) is Some,
            final(self).store().parent_of(r as int) is None,
    {
        self.storage.duplicate(id)
    }
}

} // verus!
