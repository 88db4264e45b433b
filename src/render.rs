use vstd::prelude::*;

use crate::shader::ShaderType;
use crate::storage::Storage;

verus! {

/// The three draw stages of a frame, in the order they run.
#[derive(Clone, Copy, Debug, PartialEq, Eq, Structural)]
pub enum Stage {
    /// Depth-tested content, the wireframe variant excepted.
    Depth,
    /// The wireframe variant, drawn over the depth-tested content.
    Deferred,
    /// Content drawn without depth test (gizmos, markers), last.
    Depthless,
}

/// Object `i` is drawn in stage `stage`: it is visible, has a mesh, and its
/// depth flag and shader variant select that stage.
pub open spec fn in_stage<T, M>(s: &Storage<T, M>, i: int, stage: Stage) -> bool {
    let flags = s.info_of(i).render_flags;
    &&& flags.render
    &&& s.mesh_of(i) is Some
    &&& match stage {
        Stage::Depth => flags.depth && s.shader_of(i) != Some(ShaderType::Wireframe),
        Stage::Deferred => flags.depth && s.shader_of(i) == Some(ShaderType::Wireframe),
        Stage::Depthless => !flags.depth,
    }
}

/// The ids below `n` drawn in `stage`, in increasing order.
pub open spec fn stage_upto<T, M>(s: &Storage<T, M>, stage: Stage, n: int) -> Seq<usize>
    decreases n,
{
    if n <= 0 {
        Seq::empty()
    } else if in_stage(s, n - 1, stage) {
        stage_upto(s, stage, n - 1).push((n - 1) as usize)
    } else {
        stage_upto(s, stage, n - 1)
    }
}

/// Every draw of a frame, in order: the depth stage, then the deferred
/// stage, then the depthless stage, each in id order.
pub open spec fn draw_sequence<T, M>(s: &Storage<T, M>) -> Seq<usize> {
    stage_upto(s, Stage::Depth, s.len() as int) + stage_upto(s, Stage::Deferred, s.len() as int)
        + stage_upto(s, Stage::Depthless, s.len() as int)
}

/// Whether object `i` is drawn in `stage`.
pub fn drawn_in<T: Copy, M>(s: &Storage<T, M>, i: usize, stage: Stage) -> (r: bool)
    requires
        i < s.len(),
    ensures
        r == in_stage(s, i as int, stage),
{
    let flags = s.info(i).render_flags;
    if !flags.render || s.mesh(i).is_none() {
        return false;
    }
    let wire = match s.shader(i) {
        Some(ShaderType::Wireframe) => true,
        _ => false,
    };
    match stage {
        Stage::Depth => flags.depth && !wire,
        Stage::Deferred => flags.depth && wire,
        Stage::Depthless => !flags.depth,
    }
}

/// Appends the ids drawn in `stage` to `out`, in id order.
fn collect_stage<T: Copy, M>(s: &Storage<T, M>, stage: Stage, out: &mut Vec<usize>)
    ensures
        final(out)@ == old(out)@ + stage_upto(s, stage, s.len() as int),
{
    let n = s.count();
    let mut i: usize = 0;
    while i < n
        invariant
            n == s.len(),
            0 <= i <= n,
            out@ == old(out)@ + stage_upto(s, stage, i as int),
        decreases n - i,
    {
        if drawn_in(s, i, stage) {
            out.push(i);
        }
        proof {
            assert(out@ =~= old(out)@ + stage_upto(s, stage, i + 1));
        }
        i += 1;
    }
}

/// The order in which a frame draws the objects: whatever the order they
/// were stored in, all depth-tested objects come first, the wireframe
/// variant second, the depthless objects last.
pub fn render_order<T: Copy, M>(s: &Storage<T, M>) -> (r: Vec<usize>)
    ensures
        r@ == draw_sequence(s),
{
    let mut out: Vec<usize> = Vec::new();
    collect_stage(s, Stage::Depth, &mut out);
    collect_stage(s, Stage::Deferred, &mut out);
    collect_stage(s, Stage::Depthless, &mut out);
    proof {
        assert(out@ =~= draw_sequence(s));
    }
    out
}

} // verus!
