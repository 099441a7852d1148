//! The physically based mesh pass: grouping of consecutive entities into
//! instanced batches, layout of its uniform buffers, and its draw commands.
use vstd::prelude::*;
use crate::batch::{
    batch_data, batch_pruned, batch_runs_dropped, batch_total, buckets_model, insert_all,
    lemma_batch_data_pruned, lemma_batch_data_runs_dropped, lemma_insert_total, lemma_pruned_len,
    BucketModel, Insertion,
    TwoLevelBatch,
};
use crate::buffer::{align_size, buffer_growth, growth_of, round_up};
use crate::change::PrepareResult;
use crate::draw::{bucket_draws, record_buckets, DrawCommand};
use crate::frame::{IdSet, RenderEntity};
use crate::pipeline::ShaderStage;

verus! {

/// Runs of a material a new batch is compared with before a run is opened.
pub const PBM_SCAN_LIMIT: usize = 8;

pub const MAX_POINT_LIGHTS: u64 = 128;

pub const MAX_DIR_LIGHTS: u64 = 16;

pub const MAX_SPOT_LIGHTS: u64 = 128;

/// Largest uniform element size or offset alignment the pass accepts, in bytes.
pub const MAX_UNIFORM_SIZE: u64 = 0x1_0000;

#[derive(Clone, Copy, Debug, PartialEq, Eq, Structural)]
pub enum DescriptorType {
    UniformBuffer,
    CombinedImageSampler,
}

#[derive(Clone, Copy, Debug, PartialEq, Eq, Structural)]
pub enum ShaderStages {
    Graphics,
    Fragment,
}

/// One binding of a descriptor set layout.
#[derive(Clone, Copy, Debug, PartialEq, Eq, Structural)]
pub struct SetBinding {
    pub binding: u32,
    pub ty: DescriptorType,
    pub count: u32,
    pub stages: ShaderStages,
}

pub open spec fn binding(b: u32, ty: DescriptorType, stages: ShaderStages) -> SetBinding {
    SetBinding { binding: b, ty, count: 1, stages }
}

/// The pass's descriptor sets: 0 the per-object projection and view, 1 a
/// material's uniforms and its seven textures, 2 the environment's four uniform
/// blocks, and 3, when skinning, the joints.
pub open spec fn pbm_layout(skinning: bool) -> Seq<Seq<SetBinding>> {
    let objects = seq![binding(0, DescriptorType::UniformBuffer, ShaderStages::Graphics)];
    let material = Seq::new(8, |i: int| if i == 0 {
        binding(0, DescriptorType::UniformBuffer, ShaderStages::Fragment)
    } else {
        binding(i as u32, DescriptorType::CombinedImageSampler, ShaderStages::Fragment)
    });
    let environment = Seq::new(4, |i: int| binding(i as u32, DescriptorType::UniformBuffer, ShaderStages::Fragment));
    let sets = seq![objects, material, environment];
    if skinning {
        sets.push(seq![binding(0, DescriptorType::UniformBuffer, ShaderStages::Fragment)])
    } else {
        sets
    }
}

/// A vertex buffer binding of the pass.
#[derive(Clone, Copy, Debug, PartialEq, Eq, Structural)]
pub struct VertexInput {
    pub binding: u32,
    pub per_instance: bool,
}

/// Settings of the physically based mesh pass, before it is built. `C` and `D`
/// describe colour blending and depth-stencil state.
pub struct DrawPbmDesc<C, D> {
    skinning: bool,
    transparency: Option<(C, Option<D>)>,
}

impl<C, D> DrawPbmDesc<C, D> {
    pub closed spec fn is_skinning(&self) -> bool {
        self.skinning
    }

    pub closed spec fn transparency(&self) -> Option<(C, Option<D>)> {
        self.transparency
    }

    /// No skinning, no transparency.
    pub fn new() -> (r: Self)
        ensures
            !r.is_skinning(),
            r.transparency() is None,
    {
        DrawPbmDesc { skinning: false, transparency: None }
    }

    /// The same settings with vertex skinning.
    pub fn with_vertex_skinning(self) -> (r: Self)
        ensures
            r.is_skinning(),
            r.transparency() == self.transparency(),
    {
        DrawPbmDesc { skinning: true, transparency: self.transparency }
    }

    /// The same settings, blending with `color` and testing depth with `depth`.
    pub fn with_transparency(self, color: C, depth: Option<D>) -> (r: Self)
        ensures
            r.is_skinning() == self.is_skinning(),
            r.transparency() == Some((color, depth)),
    {
        DrawPbmDesc { skinning: self.skinning, transparency: Some((color, depth)) }
    }

    /// Per-vertex data at binding 0, per-instance transforms at binding 1.
    pub fn vertices(&self) -> (r: Vec<VertexInput>)
        ensures
            r@ == seq![VertexInput { binding: 0, per_instance: false }, VertexInput { binding: 1, per_instance: true }],
    {
        let mut r: Vec<VertexInput> = Vec::new();
        r.push(VertexInput { binding: 0, per_instance: false });
        r.push(VertexInput { binding: 1, per_instance: true });
        assert(r@ =~= seq![VertexInput { binding: 0, per_instance: false }, VertexInput { binding: 1, per_instance: true }]);
        r
    }

    /// The descriptor set layouts: see `pbm_layout`.
    pub fn layout(&self) -> (r: Vec<Vec<SetBinding>>)
        ensures
            r@.len() == pbm_layout(self.is_skinning()).len(),
            forall|i: int| 0 <= i < r@.len() ==> #[trigger] r@[i]@ == pbm_layout(self.is_skinning())[i],
    {
        let want = Ghost(pbm_layout(self.skinning));
        let mut sets: Vec<Vec<SetBinding>> = Vec::new();
        let mut objects: Vec<SetBinding> = Vec::new();
        objects.push(SetBinding { binding: 0, ty: DescriptorType::UniformBuffer, count: 1, stages: ShaderStages::Graphics });
        assert(objects@ =~= want@[0]);
        sets.push(objects);
        let mut material: Vec<SetBinding> = Vec::new();
        material.push(SetBinding { binding: 0, ty: DescriptorType::UniformBuffer, count: 1, stages: ShaderStages::Fragment });
        let mut i: u32 = 1;
        while i < 8
            invariant
                1 <= i <= 8,
                material@ =~= want@[1].take(i as int),
                want@ == pbm_layout(self.skinning),
            decreases 8 - i,
        {
            material.push(SetBinding { binding: i, ty: DescriptorType::CombinedImageSampler, count: 1, stages: ShaderStages::Fragment });
            assert(want@[1].take(i + 1) =~= want@[1].take(i as int).push(want@[1][i as int]));
            i += 1;
        }
        assert(want@[1].take(8) =~= want@[1]);
        sets.push(material);
        let mut environment: Vec<SetBinding> = Vec::new();
        let mut k: u32 = 0;
        while k < 4
            invariant
                k <= 4,
                environment@ =~= want@[2].take(k as int),
                want@ == pbm_layout(self.skinning),
            decreases 4 - k,
        {
            environment.push(SetBinding { binding: k, ty: DescriptorType::UniformBuffer, count: 1, stages: ShaderStages::Fragment });
            assert(want@[2].take(k + 1) =~= want@[2].take(k as int).push(want@[2][k as int]));
            k += 1;
        }
        assert(want@[2].take(4) =~= want@[2]);
        sets.push(environment);
        if self.skinning {
            let mut skin: Vec<SetBinding> = Vec::new();
            skin.push(SetBinding { binding: 0, ty: DescriptorType::UniformBuffer, count: 1, stages: ShaderStages::Fragment });
            assert(skin@ =~= want@[3]);
            sets.push(skin);
        }
        sets
    }

    /// The blend state of the colour target: the transparency's, else alpha
    /// blending given as `alpha`.
    pub fn colors(&self, alpha: C) -> (r: Vec<C>)
        where
            C: Copy,
        ensures
            r@ == match self.transparency() {
                Some((c, _)) => seq![c],
                None => seq![alpha],
            },
    {
        let mut r: Vec<C> = Vec::new();
        match &self.transparency {
            Some((c, _)) => r.push(*c),
            None => r.push(alpha),
        }
        assert(r@ =~= match self.transparency() {
            Some((c, _)) => seq![c],
            None => seq![alpha],
        });
        r
    }

    /// The vertex and fragment shaders: the skinned vertex shader when skinning.
    pub fn shader_set(&self) -> (r: (ShaderStage, ShaderStage))
        ensures
            r == (if self.is_skinning() { ShaderStage::SkinnedVertex } else { ShaderStage::Vertex }, ShaderStage::Fragment),
    {
        if self.skinning {
            (ShaderStage::SkinnedVertex, ShaderStage::Fragment)
        } else {
            (ShaderStage::Vertex, ShaderStage::Fragment)
        }
    }
}


/// Byte sizes of the pass's uniform records (as laid out for the shaders) and of
/// one per-instance transform.
#[derive(Clone, Copy, Debug, PartialEq, Eq, Structural)]
pub struct UniformSizes {
    pub environment: u64,
    pub point_light: u64,
    pub directional_light: u64,
    pub spot_light: u64,
    pub projview: u64,
    pub material: u64,
    pub transform: u64,
}

pub open spec fn sizes_ok(s: UniformSizes, align: u64) -> bool {
    &&& 0 < align <= MAX_UNIFORM_SIZE
    &&& s.environment <= MAX_UNIFORM_SIZE
    &&& s.point_light <= MAX_UNIFORM_SIZE
    &&& s.directional_light <= MAX_UNIFORM_SIZE
    &&& s.spot_light <= MAX_UNIFORM_SIZE
    &&& s.projview <= MAX_UNIFORM_SIZE
    &&& s.material <= MAX_UNIFORM_SIZE
    &&& s.transform <= MAX_UNIFORM_SIZE
}

/// Bytes `start..end` of a buffer.
#[derive(Clone, Copy, Debug, PartialEq, Eq, Structural)]
pub struct ByteRange {
    pub start: u64,
    pub end: u64,
}

/// Where each block of the environment buffer lies.
#[derive(Clone, Copy, Debug, PartialEq, Eq, Structural)]
pub struct EnvironmentLayout {
    pub environment: ByteRange,
    pub point_lights: ByteRange,
    pub directional_lights: ByteRange,
    pub spot_lights: ByteRange,
    pub projview: ByteRange,
}

/// The environment record, then room for the most point, directional and spot
/// lights, then the projection and view, each block aligned.
pub open spec fn environment_layout_of(s: UniformSizes, align: u64) -> EnvironmentLayout {
    let a = align as nat;
    let e = round_up(s.environment as nat, a);
    let p = e + round_up((s.point_light * MAX_POINT_LIGHTS) as nat, a);
    let d = p + round_up((s.directional_light * MAX_DIR_LIGHTS) as nat, a);
    let l = d + round_up((s.spot_light * MAX_SPOT_LIGHTS) as nat, a);
    let v = l + round_up(s.projview as nat, a);
    EnvironmentLayout {
        environment: ByteRange { start: 0, end: e as u64 },
        point_lights: ByteRange { start: e as u64, end: p as u64 },
        directional_lights: ByteRange { start: p as u64, end: d as u64 },
        spot_lights: ByteRange { start: d as u64, end: l as u64 },
        projview: ByteRange { start: l as u64, end: v as u64 },
    }
}

/// Lays the environment buffer out: see `environment_layout_of`.
pub fn environment_layout(s: UniformSizes, align: u64) -> (r: EnvironmentLayout)
    requires
        sizes_ok(s, align),
    ensures
        r == environment_layout_of(s, align),
        r.projview.end <= 0x1_0000_0000,
{
    let e = align_size(s.environment, align, 1);
    let p = e + align_size(s.point_light, align, MAX_POINT_LIGHTS);
    let d = p + align_size(s.directional_light, align, MAX_DIR_LIGHTS);
    let l = d + align_size(s.spot_light, align, MAX_SPOT_LIGHTS);
    let v = l + align_size(s.projview, align, 1);
    EnvironmentLayout {
        environment: ByteRange { start: 0, end: e },
        point_lights: ByteRange { start: e, end: p },
        directional_lights: ByteRange { start: p, end: d },
        spot_lights: ByteRange { start: d, end: l },
        projview: ByteRange { start: l, end: v },
    }
}

/// How many of `count` lights the environment buffer takes.
pub fn lights_taken(count: u64, max: u64) -> (r: u64)
    ensures
        r == if count < max { count } else { max },
{
    if count < max { count } else { max }
}

/// Light counts of a frame, before capping.
#[derive(Clone, Copy, Debug, PartialEq, Eq, Structural)]
pub struct LightCounts {
    pub point: u64,
    pub directional: u64,
    pub spot: u64,
}

/// Whether the pass draws entity `e`: it has a material, a mesh and a transform,
/// and is not hidden.
pub open spec fn pbm_picked<I>(e: RenderEntity<I>) -> bool {
    e.material is Some && e.mesh is Some && e.instance is Some && !e.hidden
}

/// The drawn entities, in id order, grouped into blocks of neighbours that share
/// material and mesh.
pub open spec fn pbm_blocks<I>(es: Seq<RenderEntity<I>>) -> Seq<Insertion<I>>
    decreases es.len(),
{
    if es.len() == 0 {
        Seq::empty()
    } else {
        let prev = pbm_blocks(es.drop_last());
        let e = es.last();
        if !pbm_picked(e) {
            prev
        } else if prev.len() > 0 && prev.last().0 == e.material->0 && prev.last().1 == e.mesh->0 {
            prev.update(prev.len() - 1, (prev.last().0, prev.last().1, prev.last().2.push(e.instance->0)))
        } else {
            prev.push((e.material->0, e.mesh->0, seq![e.instance->0]))
        }
    }
}

/// The blocks whose mesh is loaded.
pub open spec fn loaded_blocks<I>(blocks: Seq<Insertion<I>>, meshes: Set<u32>) -> Seq<Insertion<I>>
    decreases blocks.len(),
{
    if blocks.len() == 0 {
        Seq::empty()
    } else {
        let prev = loaded_blocks(blocks.drop_last(), meshes);
        if meshes.contains(blocks.last().1) { prev.push(blocks.last()) } else { prev }
    }
}

/// Inserts the blocks of `entities` whose mesh is loaded, in order.
fn insert_blocks<I: Copy>(batches: &mut TwoLevelBatch<I>, entities: &Vec<RenderEntity<I>>, meshes: &IdSet)
    requires
        old(batches).wf(),
        batch_total(old(batches)@) == 0,
    ensures
        final(batches).wf(),
        final(batches).limit() == old(batches).limit(),
        final(batches)@ == insert_all(old(batches)@, old(batches).limit(), loaded_blocks(pbm_blocks(entities@), meshes@)),
        batch_total(final(batches)@) <= entities@.len(),
{
    let ghost es = entities@;
    let ghost start = batches@;
    let ghost limit = batches.limit();
    let n = entities.len();
    let mut open = false;
    let mut cur_material: u32 = 0;
    let mut cur_mesh: u32 = 0;
    let mut cur_data: Vec<I> = Vec::new();
    let ghost mut closed: Seq<Insertion<I>> = Seq::empty();
    let mut i: usize = 0;
    assert(es.take(0) =~= Seq::<RenderEntity<I>>::empty());
    while i < n
        invariant
            i <= n,
            n == es.len(),
            es == entities@,
            batches.wf(),
            batches.limit() == limit,
            pbm_blocks(es.take(i as int)) == closed + if open {
                seq![(cur_material, cur_mesh, cur_data@)]
            } else {
                Seq::<Insertion<I>>::empty()
            },
            !open ==> closed.len() == 0,
            batches@ == insert_all(start, limit, loaded_blocks(closed, meshes@)),
            batch_total(batches@) + (if open { cur_data@.len() } else { 0 }) <= i,
        decreases n - i,
    {
        let e = entities[i];
        assert(es.take(i + 1).drop_last() =~= es.take(i as int));
        assert(es.take(i + 1).last() == e);
        let picked = e.material.is_some() && e.mesh.is_some() && e.instance.is_some() && !e.hidden;
        if picked {
            let material = e.material.unwrap();
            let mesh = e.mesh.unwrap();
            let inst = e.instance.unwrap();
            if open && cur_material == material && cur_mesh == mesh {
                let ghost prev = closed + seq![(cur_material, cur_mesh, cur_data@)];
                cur_data.push(inst);
                assert(closed + seq![(cur_material, cur_mesh, cur_data@)] =~= prev.update(
                    prev.len() - 1,
                    (prev.last().0, prev.last().1, prev.last().2.push(inst)),
                ));
            } else {
                if open {
                    let mut data: Vec<I> = Vec::new();
                    std::mem::swap(&mut data, &mut cur_data);
                    let ghost block = (cur_material, cur_mesh, data@);
                    let ghost before = loaded_blocks(closed, meshes@);
                    assert(closed.push(block).drop_last() =~= closed);
                    if meshes.contains(cur_mesh) {
                        proof {
                            lemma_insert_total(batches@, limit, cur_material, cur_mesh, data@);
                        }
                        batches.insert(cur_material, cur_mesh, data);
                        assert(loaded_blocks(closed.push(block), meshes@) =~= before.push(block));
                        assert(before.push(block).drop_last() =~= before);
                    } else {
                        assert(loaded_blocks(closed.push(block), meshes@) == before);
                    }
                    proof {
                        closed = closed.push(block);
                    }
                }
                let ghost prev = pbm_blocks(es.take(i as int));
                open = true;
                cur_material = material;
                cur_mesh = mesh;
                cur_data = Vec::new();
                cur_data.push(inst);
                assert(closed + seq![(cur_material, cur_mesh, cur_data@)] =~= prev.push((material, mesh, seq![inst])));
            }
        } else {
            assert(pbm_blocks(es.take(i + 1)) == pbm_blocks(es.take(i as int)));
        }
        i += 1;
    }
    assert(es.take(n as int) =~= es);
    if open {
        let block = Ghost((cur_material, cur_mesh, cur_data@));
        let ghost before = loaded_blocks(closed, meshes@);
        assert(closed.push(block@).drop_last() =~= closed);
        assert(closed + seq![block@] =~= closed.push(block@));
        if meshes.contains(cur_mesh) {
            proof {
                lemma_insert_total(batches@, limit, cur_material, cur_mesh, cur_data@);
            }
            batches.insert(cur_material, cur_mesh, cur_data);
            assert(before.push(block@).drop_last() =~= before);
        }
    } else {
        assert(closed + Seq::<Insertion<I>>::empty() =~= closed);
    }
}

/// The buffers and descriptor sets the pass holds for one frame slot: buffer
/// sizes in bytes (0 where none exists yet), and whether the environment and
/// object descriptor sets exist.
#[derive(Clone, Copy, Debug, PartialEq, Eq, Structural)]
pub struct PerImage {
    pub environment: u64,
    pub models: u64,
    pub material: u64,
    pub sets: bool,
}

pub open spec fn empty_image() -> PerImage {
    PerImage { environment: 0, models: 0, material: 0, sets: false }
}

impl PerImage {
    /// A slot with no buffer and no descriptor set yet.
    pub fn new() -> (r: Self)
        ensures
            r == empty_image(),
    {
        PerImage { environment: 0, models: 0, material: 0, sets: false }
    }
}


/// What the caller uploads after the pass prepared a frame slot.
pub struct PbmUpload<I> {
    /// The pass records its draw commands afresh every frame.
    pub result: PrepareResult,
    pub layout: EnvironmentLayout,
    /// New size of the environment buffer, when it must grow; the environment
    /// and object descriptor sets are then written anew.
    pub environment_growth: Option<u64>,
    pub point_lights: u64,
    pub directional_lights: u64,
    pub spot_lights: u64,
    /// Per-instance transforms, in draw order.
    pub models: Vec<I>,
    /// Materials in draw order; the `i`-th one's uniforms go at `i * material_step`.
    pub materials: Vec<u32>,
    pub material_step: u64,
    pub material_growth: Option<u64>,
    pub models_growth: Option<u64>,
}

/// The physically based mesh pass.
pub struct DrawPbm<I> {
    skinning: bool,
    per_image: Vec<PerImage>,
    batches: TwoLevelBatch<I>,
    ubo_offset_align: u64,
    sizes: UniformSizes,
}

impl<C, D> DrawPbmDesc<C, D> {
    /// The pass, for uniform offsets aligned to `ubo_offset_align`.
    pub fn build<I>(self, ubo_offset_align: u64, sizes: UniformSizes) -> (r: DrawPbm<I>)
        requires
            sizes_ok(sizes, ubo_offset_align),
        ensures
            r.wf(),
            r.is_skinning() == self.is_skinning(),
            r.align() == ubo_offset_align,
            r.sizes() == sizes,
            r.batches() == Seq::<BucketModel<I>>::empty(),
            r.images() == Seq::<PerImage>::empty(),
    {
        DrawPbm {
            skinning: self.skinning,
            per_image: Vec::new(),
            batches: TwoLevelBatch::with_scan_limit(PBM_SCAN_LIMIT),
            ubo_offset_align,
            sizes,
        }
    }
}

impl<I> DrawPbm<I> {
    pub closed spec fn is_skinning(&self) -> bool {
        self.skinning
    }

    pub closed spec fn align(&self) -> u64 {
        self.ubo_offset_align
    }

    pub closed spec fn sizes(&self) -> UniformSizes {
        self.sizes
    }

    pub closed spec fn batches(&self) -> Seq<BucketModel<I>> {
        self.batches@
    }

    pub closed spec fn images(&self) -> Seq<PerImage> {
        self.per_image@
    }

    pub open spec fn image_at(&self, slot: int) -> PerImage {
        if 0 <= slot < self.images().len() { self.images()[slot] } else { empty_image() }
    }

    pub closed spec fn wf(&self) -> bool {
        &&& self.batches.wf()
        &&& self.batches.limit() == PBM_SCAN_LIMIT
        &&& sizes_ok(self.sizes, self.ubo_offset_align)
    }

    /// Lays out the environment of slot `index` and regroups the frame's drawn
    /// entities: neighbours in id order that share material and mesh form one
    /// block; a block whose mesh is loaded joins the first run of its mesh among
    /// the first eight runs of its material, else opens a run.
    pub fn prepare(&mut self, entities: &Vec<RenderEntity<I>>, meshes: &IdSet, lights: LightCounts, index: usize) -> (r: PbmUpload<I>)
        where
            I: Copy,
        requires
            old(self).wf(),
            entities@.len() <= u32::MAX,
            index < usize::MAX,
        ensures
            final(self).wf(),
            final(self).is_skinning() == old(self).is_skinning(),
            final(self).align() == old(self).align(),
            final(self).sizes() == old(self).sizes(),
            final(self).batches() == batch_pruned(
                insert_all(
                    batch_runs_dropped(old(self).batches()),
                    PBM_SCAN_LIMIT as nat,
                    loaded_blocks(pbm_blocks(entities@), meshes@),
                ),
            ),
            r.result == PrepareResult::DrawRecord,
            r.layout == environment_layout_of(old(self).sizes(), old(self).align()),
            r.point_lights == if lights.point < MAX_POINT_LIGHTS { lights.point } else { MAX_POINT_LIGHTS },
            r.directional_lights == if lights.directional < MAX_DIR_LIGHTS { lights.directional } else { MAX_DIR_LIGHTS },
            r.spot_lights == if lights.spot < MAX_SPOT_LIGHTS { lights.spot } else { MAX_SPOT_LIGHTS },
            r.models@ == batch_data(final(self).batches()),
            r.materials@ == final(self).batches().map_values(|k: BucketModel<I>| k.0),
            r.material_step as nat == round_up(old(self).sizes().material as nat, old(self).align() as nat),
            final(self).images().len() == if index < old(self).images().len() { old(self).images().len() } else { (index + 1) as nat },
            forall|s: int| s != index ==> #[trigger] final(self).image_at(s) == old(self).image_at(s),
            growth_of(old(self).image_at(index as int).environment, r.layout.projview.end as nat, r.environment_growth, final(self).image_at(index as int).environment),
            growth_of(old(self).image_at(index as int).material, (r.materials@.len() * r.material_step) as nat, r.material_growth, final(self).image_at(index as int).material),
            growth_of(old(self).image_at(index as int).models, (r.models@.len() * old(self).sizes().transform) as nat, r.models_growth, final(self).image_at(index as int).models),
            final(self).image_at(index as int).sets == (old(self).image_at(index as int).sets || r.environment_growth is Some),
    {
        let ghost old_images = self.per_image@;
        while self.per_image.len() <= index
            invariant
                index < usize::MAX,
                self.per_image@.len() >= old_images.len(),
                forall|s: int| 0 <= s < old_images.len() ==> #[trigger] self.per_image@[s] == old_images[s],
                forall|s: int| old_images.len() <= s < self.per_image@.len() ==> #[trigger] self.per_image@[s] == empty_image(),
                self.per_image@.len() <= if index < old_images.len() { old_images.len() } else { (index + 1) as nat },
                old_images == old(self).per_image@,
                self.batches == old(self).batches,
                self.skinning == old(self).skinning,
                self.ubo_offset_align == old(self).ubo_offset_align,
                self.sizes == old(self).sizes,
            decreases index + 1 - self.per_image@.len(),
        {
            self.per_image.push(PerImage::new());
        }
        let mut image = self.per_image[index];
        assert(image == old(self).image_at(index as int));

        let layout = environment_layout(self.sizes, self.ubo_offset_align);
        let environment_growth = buffer_growth(Some(image.environment), layout.projview.end);
        if let Some(size) = environment_growth {
            image.environment = size;
            image.sets = true;
        }

        self.batches.clear_runs();
        proof {
            lemma_batch_data_runs_dropped(old(self).batches());
        }
        insert_blocks(&mut self.batches, entities, meshes);
        proof {
            lemma_batch_data_pruned(self.batches@);
            lemma_pruned_len(self.batches@);
        }
        self.batches.prune();
        let models = self.batches.data();
        let count = self.batches.count();
        let mut materials: Vec<u32> = Vec::new();
        let buckets = self.batches.buckets();
        let nb = buckets.len();
        let mut b: usize = 0;
        while b < nb
            invariant
                b <= nb,
                nb == buckets@.len(),
                buckets_model(buckets@) == self.batches@,
                materials@ =~= self.batches@.map_values(|k: BucketModel<I>| k.0).take(b as int),
            decreases nb - b,
        {
            materials.push(buckets[b].material);
            assert(self.batches@.map_values(|k: BucketModel<I>| k.0).take(b + 1) =~= self.batches@.map_values(
                |k: BucketModel<I>| k.0,
            ).take(b as int).push(buckets@[b as int].material));
            b += 1;
        }
        assert(self.batches@.map_values(|k: BucketModel<I>| k.0).take(nb as int) =~= self.batches@.map_values(
            |k: BucketModel<I>| k.0,
        ));
        let material_step = align_size(self.sizes.material, self.ubo_offset_align, 1);
        proof {
            assert(materials@.len() * material_step <= 0x1_0000_0000u64 * 0x2_0000u64) by (nonlinear_arith)
                requires
                    materials@.len() <= 0x1_0000_0000u64,
                    material_step <= 0x2_0000u64,
            ;
            assert(count * self.sizes.transform <= 0x1_0000_0000u64 * 0x1_0000u64) by (nonlinear_arith)
                requires
                    count <= 0x1_0000_0000u64,
                    self.sizes.transform <= 0x1_0000u64,
            ;
        }
        let material_growth = buffer_growth(Some(image.material), materials.len() as u64 * material_step);
        if let Some(size) = material_growth {
            image.material = size;
        }
        let models_growth = buffer_growth(Some(image.models), count as u64 * self.sizes.transform);
        if let Some(size) = models_growth {
            image.models = size;
        }
        self.per_image.set(index, image);
        PbmUpload {
            result: PrepareResult::DrawRecord,
            layout,
            environment_growth,
            point_lights: lights_taken(lights.point, MAX_POINT_LIGHTS),
            directional_lights: lights_taken(lights.directional, MAX_DIR_LIGHTS),
            spot_lights: lights_taken(lights.spot, MAX_SPOT_LIGHTS),
            models,
            materials,
            material_step,
            material_growth,
            models_growth,
        }
    }

    /// The commands that draw slot `index`, once its descriptor sets exist: the
    /// environment and objects, then each material and its runs. Materials are
    /// not checked for GPU data.
    pub fn draw(&self, index: usize) -> (r: Vec<DrawCommand>)
        requires
            self.wf(),
        ensures
            r@ == if self.image_at(index as int).sets {
                seq![DrawCommand::BindEnvironment, DrawCommand::BindObjects] + bucket_draws(self.batches(), Set::full(), 0)
            } else {
                Seq::empty()
            },
    {
        let mut cmds: Vec<DrawCommand> = Vec::new();
        if index < self.per_image.len() && self.per_image[index].sets {
            cmds.push(DrawCommand::BindEnvironment);
            cmds.push(DrawCommand::BindObjects);
            proof {
                self.batches.lemma_total_fits();
            }
            record_buckets(self.batches.buckets(), None, &mut cmds);
        }
        assert(cmds@ =~= if self.image_at(index as int).sets {
            seq![DrawCommand::BindEnvironment, DrawCommand::BindObjects] + bucket_draws(self.batches(), Set::full(), 0)
        } else {
            Seq::empty()
        });
        cmds
    }
}

/// Which texture a material binding samples: its own when loaded, else the
/// default material's when that is loaded, else none.
pub fn texture_source(texture: u32, fallback: u32, loaded: &IdSet) -> (r: Option<u32>)
    ensures
        r == if loaded@.contains(texture) {
            Some(texture)
        } else if loaded@.contains(fallback) {
            Some(fallback)
        } else {
            None
        },
{
    if loaded.contains(texture) {
        Some(texture)
    } else if loaded.contains(fallback) {
        Some(fallback)
    } else {
        None
    }
}

/// The camera the environment is computed from.
#[derive(Clone, Copy, Debug, PartialEq, Eq, Structural)]
pub enum CameraChoice {
    /// The camera of entity `id`; its transform is used when `transformed`,
    /// the identity otherwise.
    Entity { id: u32, transformed: bool },
    /// The standard 2D camera at the origin.
    Standard,
}

/// The first of ids `0..bound` that has both a camera and a transform.
pub open spec fn first_camera(cameras: Set<u32>, transforms: Set<u32>, bound: int) -> Option<u32>
    decreases bound,
{
    if bound <= 0 {
        None
    } else {
        match first_camera(cameras, transforms, bound - 1) {
            Some(id) => Some(id),
            None => if cameras.contains((bound - 1) as u32) && transforms.contains((bound - 1) as u32) {
                Some((bound - 1) as u32)
            } else {
                None
            },
        }
    }
}

/// The active camera when it names an entity with a camera; else the first
/// entity, by id below `entity_count`, with a camera and a transform; else the
/// standard camera.
pub open spec fn camera_choice(active: Option<u32>, cameras: Set<u32>, transforms: Set<u32>, entity_count: nat) -> CameraChoice {
    if active is Some && cameras.contains(active->0) {
        CameraChoice::Entity { id: active->0, transformed: transforms.contains(active->0) }
    } else {
        match first_camera(cameras, transforms, entity_count as int) {
            Some(id) => CameraChoice::Entity { id, transformed: true },
            None => CameraChoice::Standard,
        }
    }
}

/// Chooses the camera: see `camera_choice`.
pub fn choose_camera(active: Option<u32>, cameras: &IdSet, transforms: &IdSet, entity_count: u32) -> (r: CameraChoice)
    ensures
        r == camera_choice(active, cameras@, transforms@, entity_count as nat),
{
    if let Some(a) = active {
        if cameras.contains(a) {
            return CameraChoice::Entity { id: a, transformed: transforms.contains(a) };
        }
    }
    let mut id: u32 = 0;
    while id < entity_count
        invariant
            id <= entity_count,
            first_camera(cameras@, transforms@, id as int) is None,
            !(active is Some && cameras@.contains(active->0)),
        decreases entity_count - id,
    {
        if cameras.contains(id) && transforms.contains(id) {
            assert(first_camera(cameras@, transforms@, id + 1) == Some(id));
            proof {
                lemma_first_camera_stays(cameras@, transforms@, id + 1, entity_count as int);
            }
            return CameraChoice::Entity { id, transformed: true };
        }
        id += 1;
    }
    CameraChoice::Standard
}

proof fn lemma_first_camera_stays(cameras: Set<u32>, transforms: Set<u32>, bound: int, n: int)
    requires
        bound <= n,
        first_camera(cameras, transforms, bound) is Some,
    ensures
        first_camera(cameras, transforms, n) == first_camera(cameras, transforms, bound),
    decreases n - bound,
{
    if n > bound {
        lemma_first_camera_stays(cameras, transforms, bound, n - 1);
    }
}

} // verus!
