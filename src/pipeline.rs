//! How a pass's graphics pipelines are described and built.
use vstd::prelude::*;
use crate::draw::PipelineKind;
use crate::pass::VertexLayout;

verus! {

/// The shader modules a pass loads to build its pipelines.
#[derive(Clone, Copy, Debug, PartialEq, Eq, Structural)]
pub enum ShaderStage {
    Vertex,
    SkinnedVertex,
    Fragment,
}

/// Fixed-function state and inputs of one graphics pipeline.
#[derive(Clone, Copy, Debug, PartialEq, Eq, Structural)]
pub struct PipelineDesc {
    pub kind: PipelineKind,
    /// Index of the pipeline this one derives from, among those built together.
    pub parent: Option<usize>,
    pub vertex_shader: ShaderStage,
    /// Per-vertex bindings; the per-instance buffer comes right after them.
    pub vertex_bindings: u32,
    pub cull_back_faces: bool,
    pub depth_test: bool,
    pub depth_write: bool,
    pub alpha_blend: bool,
}

/// The pipeline of `kind` for a pass: back faces culled, depth tested, depth
/// written and no blending when opaque, no depth write and alpha blending when
/// transparent. The skinned pipeline derives from the basic one.
pub open spec fn pipeline_desc(kind: PipelineKind, layout: VertexLayout, transparent: bool) -> PipelineDesc {
    PipelineDesc {
        kind,
        parent: if kind == PipelineKind::Skinned { Some(0usize) } else { None },
        vertex_shader: if kind == PipelineKind::Skinned { ShaderStage::SkinnedVertex } else { ShaderStage::Vertex },
        vertex_bindings: if kind == PipelineKind::Skinned { layout.skinned_formats } else { layout.base_formats },
        cull_back_faces: true,
        depth_test: true,
        depth_write: !transparent,
        alpha_blend: transparent,
    }
}

fn describe(kind: PipelineKind, layout: VertexLayout, transparent: bool) -> (r: PipelineDesc)
    ensures
        r == pipeline_desc(kind, layout, transparent),
{
    let skinned = match kind {
        PipelineKind::Skinned => true,
        PipelineKind::Basic => false,
    };
    PipelineDesc {
        kind,
        parent: if skinned { Some(0usize) } else { None },
        vertex_shader: if skinned { ShaderStage::SkinnedVertex } else { ShaderStage::Vertex },
        vertex_bindings: if skinned { layout.skinned_formats } else { layout.base_formats },
        cull_back_faces: true,
        depth_test: true,
        depth_write: !transparent,
        alpha_blend: transparent,
    }
}

/// The pipelines a pass builds, parent first: the basic one, then the skinned
/// one when skinning is on.
pub fn pipeline_descs(layout: VertexLayout, skinning: bool, transparent: bool) -> (r: Vec<PipelineDesc>)
    ensures
        r@ == if skinning {
            seq![
                pipeline_desc(PipelineKind::Basic, layout, transparent),
                pipeline_desc(PipelineKind::Skinned, layout, transparent),
            ]
        } else {
            seq![pipeline_desc(PipelineKind::Basic, layout, transparent)]
        },
{
    let mut r: Vec<PipelineDesc> = Vec::new();
    r.push(describe(PipelineKind::Basic, layout, transparent));
    if skinning {
        r.push(describe(PipelineKind::Skinned, layout, transparent));
    }
    r
}

/// One step of building a pass's pipelines once its pipeline layout exists.
#[derive(Clone, Copy, Debug, PartialEq, Eq, Structural)]
pub enum BuildStep {
    CreateShader(ShaderStage),
    BuildPipelines,
    DestroyShader(ShaderStage),
    DestroyPipelineLayout,
}

/// Shader modules live only while the pipelines are built and are destroyed
/// whatever the outcome; the pipeline layout is destroyed when building failed,
/// so that a failed build leaves nothing behind.
pub open spec fn build_steps(skinning: bool, built: bool) -> Seq<BuildStep> {
    let create = seq![BuildStep::CreateShader(ShaderStage::Vertex), BuildStep::CreateShader(ShaderStage::Fragment)];
    let skin_create = if skinning { seq![BuildStep::CreateShader(ShaderStage::SkinnedVertex)] } else { Seq::empty() };
    let skin_destroy = if skinning { seq![BuildStep::DestroyShader(ShaderStage::SkinnedVertex)] } else { Seq::empty() };
    let destroy = seq![BuildStep::DestroyShader(ShaderStage::Vertex), BuildStep::DestroyShader(ShaderStage::Fragment)];
    let cleanup = if built { Seq::empty() } else { seq![BuildStep::DestroyPipelineLayout] };
    create + skin_create + seq![BuildStep::BuildPipelines] + skin_destroy + destroy + cleanup
}

/// The steps up to building the pipelines.
pub fn steps_before_build(skinning: bool) -> (r: Vec<BuildStep>)
    ensures
        r@ == build_steps(skinning, true).take(if skinning { 4 } else { 3 }),
{
    let mut r: Vec<BuildStep> = Vec::new();
    r.push(BuildStep::CreateShader(ShaderStage::Vertex));
    r.push(BuildStep::CreateShader(ShaderStage::Fragment));
    if skinning {
        r.push(BuildStep::CreateShader(ShaderStage::SkinnedVertex));
    }
    r.push(BuildStep::BuildPipelines);
    assert(r@ =~= build_steps(skinning, true).take(if skinning { 4 } else { 3 }));
    r
}

/// The steps after building the pipelines, given whether that succeeded.
pub fn steps_after_build(skinning: bool, built: bool) -> (r: Vec<BuildStep>)
    ensures
        r@ == build_steps(skinning, built).skip(if skinning { 4 } else { 3 }),
{
    let mut r: Vec<BuildStep> = Vec::new();
    if skinning {
        r.push(BuildStep::DestroyShader(ShaderStage::SkinnedVertex));
    }
    r.push(BuildStep::DestroyShader(ShaderStage::Vertex));
    r.push(BuildStep::DestroyShader(ShaderStage::Fragment));
    if !built {
        r.push(BuildStep::DestroyPipelineLayout);
    }
    assert(r@ =~= build_steps(skinning, built).skip(if skinning { 4 } else { 3 }));
    r
}

/// Every shader module created is destroyed, after the pipelines are built; the
/// layout is destroyed exactly when the build failed.
pub proof fn law_build_cleans_up(skinning: bool, built: bool)
    ensures
        forall|s: ShaderStage, i: int| 0 <= i < build_steps(skinning, built).len()
            && build_steps(skinning, built)[i] == BuildStep::CreateShader(s)
            ==> exists|j: int| i < j < build_steps(skinning, built).len()
                && #[trigger] build_steps(skinning, built)[j] == BuildStep::DestroyShader(s),
        build_steps(skinning, built).contains(BuildStep::DestroyPipelineLayout) == !built,
{
    let st = build_steps(skinning, built);
    if skinning {
        assert(st[4] == BuildStep::DestroyShader(ShaderStage::SkinnedVertex));
        assert(st[5] == BuildStep::DestroyShader(ShaderStage::Vertex));
        assert(st[6] == BuildStep::DestroyShader(ShaderStage::Fragment));
    } else {
        assert(st[3] == BuildStep::DestroyShader(ShaderStage::Vertex));
        assert(st[4] == BuildStep::DestroyShader(ShaderStage::Fragment));
    }
    if !built {
        assert(st[st.len() - 1] == BuildStep::DestroyPipelineLayout);
    } else {
        assert forall|i: int| 0 <= i < st.len() implies st[i] != BuildStep::DestroyPipelineLayout by {}
    }
}


/// The shader modules created before `failed`, in creation order: the vertex
/// shader, the fragment shader, then the skinned vertex shader.
pub open spec fn shaders_before(failed: ShaderStage) -> Seq<ShaderStage> {
    match failed {
        ShaderStage::Vertex => Seq::empty(),
        ShaderStage::Fragment => seq![ShaderStage::Vertex],
        ShaderStage::SkinnedVertex => seq![ShaderStage::Vertex, ShaderStage::Fragment],
    }
}

/// When creating the shader module `failed` fails, the modules already created
/// are destroyed, then the pipeline layout, and the build reports the error.
pub open spec fn shader_failure_steps(failed: ShaderStage) -> Seq<BuildStep> {
    shaders_before(failed).map_values(|s: ShaderStage| BuildStep::DestroyShader(s)) + seq![BuildStep::DestroyPipelineLayout]
}

/// The cleanup after creating shader module `failed` failed: see
/// `shader_failure_steps`.
pub fn steps_after_shader_failure(skinning: bool, failed: ShaderStage) -> (r: Vec<BuildStep>)
    requires
        failed == ShaderStage::SkinnedVertex ==> skinning,
    ensures
        r@ == shader_failure_steps(failed),
{
    let mut r: Vec<BuildStep> = Vec::new();
    match failed {
        ShaderStage::Vertex => {},
        ShaderStage::Fragment => {
            r.push(BuildStep::DestroyShader(ShaderStage::Vertex));
        },
        ShaderStage::SkinnedVertex => {
            r.push(BuildStep::DestroyShader(ShaderStage::Vertex));
            r.push(BuildStep::DestroyShader(ShaderStage::Fragment));
        },
    }
    r.push(BuildStep::DestroyPipelineLayout);
    assert(r@ =~= shader_failure_steps(failed));
    r
}

/// A failed shader creation leaves nothing behind: each module created before it
/// is destroyed, and so is the pipeline layout, which comes last.
pub proof fn law_shader_failure_cleans_up(failed: ShaderStage)
    ensures
        forall|i: int| 0 <= i < shaders_before(failed).len()
            ==> #[trigger] shader_failure_steps(failed)[i] == BuildStep::DestroyShader(shaders_before(failed)[i]),
        shader_failure_steps(failed).last() == BuildStep::DestroyPipelineLayout,
        shader_failure_steps(failed).len() == shaders_before(failed).len() + 1,
{
}
} // verus!
