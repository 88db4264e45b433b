use vstd::prelude::*;
use vstd::string::StringExecFns;

verus! {

/// Primitive topology used for a draw call.
#[derive(Clone, Copy, Debug, PartialEq, Eq, Structural)]
pub enum DrawMode {
    Points,
    Lines,
    Triangle,
    Arrays,
}

/// Per-object toggles: drawn at all, depth-tested, blended, back faces culled.
#[derive(Clone, Copy, Debug, PartialEq, Eq, Structural)]
pub struct RenderFlags {
    pub render: bool,
    pub depth: bool,
    pub blend: bool,
    pub cull_face: bool,
}

impl RenderFlags {
    /// Hidden, depth-tested, opaque, culled.
    pub open spec fn spec_default() -> RenderFlags {
        RenderFlags { render: false, depth: true, blend: false, cull_face: true }
    }

    /// The default flags with the depth test switched off.
    pub fn no_depth() -> (r: RenderFlags)
        ensures
            r == (RenderFlags { depth: false, ..RenderFlags::spec_default() }),
    {
        RenderFlags { render: false, depth: false, blend: false, cull_face: true }
    }

    /// Blended, without depth test or culling.
    pub fn no_depth_blend_cull() -> (r: RenderFlags)
        ensures
            r == (RenderFlags {
                blend: true,
                depth: false,
                cull_face: false,
                ..RenderFlags::spec_default()
            }),
    {
        RenderFlags { render: false, depth: false, blend: true, cull_face: false }
    }

    /// The default flags with culling switched off.
    pub fn no_cull() -> (r: RenderFlags)
        ensures
            r == (RenderFlags { cull_face: false, ..RenderFlags::spec_default() }),
    {
        RenderFlags { render: false, depth: true, blend: false, cull_face: false }
    }

    /// Blended and depth-tested, without culling.
    pub fn blend_cull() -> (r: RenderFlags)
        ensures
            r == (RenderFlags { blend: true, cull_face: false, ..RenderFlags::spec_default() }),
    {
        RenderFlags { render: false, depth: true, blend: true, cull_face: false }
    }
}

impl Default for RenderFlags {
    fn default() -> (r: RenderFlags)
        ensures
            r == RenderFlags::spec_default(),
    {
        RenderFlags { render: false, depth: true, blend: false, cull_face: true }
    }
}

/// What the engine knows of an object besides its geometry: a display name
/// (not necessarily unique), the draw mode and the render flags.
#[derive(Debug)]
pub struct ObjectInfo {
    pub name: String,
    pub draw_mode: DrawMode,
    pub render_flags: RenderFlags,
}

impl ObjectInfo {
    /// Named `name`, drawn as triangles, with the default flags.
    pub fn named(name: &str) -> (r: ObjectInfo)
        ensures
            r.name@ == name@,
            r.draw_mode == DrawMode::Triangle,
            r.render_flags == RenderFlags::spec_default(),
    {
        ObjectInfo {
            name: String::from_str(name),
            draw_mode: DrawMode::Triangle,
            render_flags: RenderFlags::default(),
        }
    }

    /// Named `name` and drawn with `draw_mode`, with the default flags.
    pub fn with_mode(name: &str, draw_mode: DrawMode) -> (r: ObjectInfo)
        ensures
            r.name@ == name@,
            r.draw_mode == draw_mode,
            r.render_flags == RenderFlags::spec_default(),
    {
        ObjectInfo {
            name: String::from_str(name),
            draw_mode,
            render_flags: RenderFlags::default(),
        }
    }

    /// The same info, marked visible.
    pub open spec fn shown(self) -> ObjectInfo {
        ObjectInfo {
            render_flags: RenderFlags { render: true, ..self.render_flags },
            ..self
        }
    }

    /// An independent copy with equal fields.
    pub fn duplicate(&self) -> (r: ObjectInfo)
        ensures
            r == *self,
    {
        ObjectInfo {
            name: self.name.clone(),
            draw_mode: self.draw_mode,
            render_flags: self.render_flags,
        }
    }
}

impl Default for ObjectInfo {
    fn default() -> (r: ObjectInfo)
        ensures
            r.name@ == "node"@,
            r.draw_mode == DrawMode::Triangle,
            r.render_flags == RenderFlags::spec_default(),
    {
        ObjectInfo::named("node")
    }
}

} // verus!
