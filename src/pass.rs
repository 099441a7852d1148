//! The opaque and transparent 3D passes: per-frame prepare and draw decisions.
use vstd::prelude::*;
use crate::batch::{
    batch_cleared, batch_data, batch_pruned, batch_total, filled_runs_within, insert_all, keys_distinct,
    lemma_cleared_records, lemma_cleared_within, lemma_insert_all_records, lemma_insert_all_within,
    lemma_insert_total, lemma_pruned_records, lemma_pruned_within, ops_within,
    records_within, BucketModel, TwoLevelBatch,
};
use crate::buffer::{growth_of, InstanceBuffer};
use crate::change::{slots_after, ChangeDetection, PrepareResult};
use crate::draw::{
    all_loaded, bucket_draws, drawn_instances, law_drawn_instances_match_batch,
    lemma_bucket_draws_bind_no_pipeline, lemma_counts_add, lemma_single_counts, pipeline_binds,
    record_buckets, DrawCommand,
    PipelineKind,
};
use crate::frame::{Frame, IdSet};
use crate::pipeline::{pipeline_desc, pipeline_descs, PipelineDesc};
use crate::gather::{
    collect_skinned, collect_static, gather_skinned, gather_static, law_skinned_hidden_excluded,
    law_skinned_meshes_loaded, law_static_hidden_excluded, law_static_meshes_loaded, ops_model,
    shown_record, shown_skinned_record, walk_ids, SkinnedInstance,
};
use crate::ordered::{
    batch_shape, lemma_ordered_insert_all_within, lemma_ordered_insert_data, ordered_insert_all, BucketShape,
    OrderedTwoLevelBatch,
};
use crate::submodules::{MaterialSub, SkinningSub};

verus! {

/// Largest per-instance record, in bytes, that a pass accepts.
pub const MAX_INSTANCE_SIZE: u64 = 0x8000_0000;

/// What a pass needs to know of its vertex formats: how many static vertex
/// bindings come before the instance buffer in each pipeline, and the byte size
/// of one instance record.
#[derive(Clone, Copy, Debug, PartialEq, Eq, Structural)]
pub struct VertexLayout {
    pub base_formats: u32,
    pub skinned_formats: u32,
    pub instance_size: u64,
    pub skinned_instance_size: u64,
}

pub open spec fn layout_ok(l: VertexLayout) -> bool {
    l.instance_size <= MAX_INSTANCE_SIZE && l.skinned_instance_size <= MAX_INSTANCE_SIZE
}

/// Why a pass could not prepare a frame.
#[derive(Clone, Copy, Debug, PartialEq, Eq, Structural)]
pub enum PrepareError {
    /// The pass draws in the order of the visibility result and none was given.
    MissingVisibility,
}

/// What the caller uploads after a pass prepared a frame slot.
pub struct FrameUpload<I> {
    pub result: PrepareResult,
    /// The instance records of the basic pipeline, in draw order.
    pub instances: Vec<I>,
    /// The instance records of the skinned pipeline, in draw order.
    pub skinned_instances: Vec<SkinnedInstance<I>>,
    /// New size of the slot's instance buffer, when it must grow.
    pub instance_growth: Option<u64>,
    /// New size of the slot's skinned instance buffer, when it must grow.
    pub skinned_growth: Option<u64>,
    /// Where each skinned entity's joint matrices go: (skin, offset).
    pub joints: Vec<(u32, u64)>,
}


/// What tearing a pass down destroys, in order.
#[derive(Clone, Copy, Debug, PartialEq, Eq, Structural)]
pub enum DisposeAction {
    DestroyPipeline(PipelineKind),
    DestroyPipelineLayout,
}

/// Teardown: the basic pipeline, the skinned one where it exists, then the layout.
pub open spec fn dispose_actions(skinned: bool) -> Seq<DisposeAction> {
    if skinned {
        seq![
            DisposeAction::DestroyPipeline(PipelineKind::Basic),
            DisposeAction::DestroyPipeline(PipelineKind::Skinned),
            DisposeAction::DestroyPipelineLayout,
        ]
    } else {
        seq![DisposeAction::DestroyPipeline(PipelineKind::Basic), DisposeAction::DestroyPipelineLayout]
    }
}

fn dispose_plan(skinned: bool) -> (r: Vec<DisposeAction>)
    ensures
        r@ == dispose_actions(skinned),
{
    let mut r: Vec<DisposeAction> = Vec::new();
    r.push(DisposeAction::DestroyPipeline(PipelineKind::Basic));
    if skinned {
        r.push(DisposeAction::DestroyPipeline(PipelineKind::Skinned));
    }
    r.push(DisposeAction::DestroyPipelineLayout);
    assert(r@ =~= dispose_actions(skinned));
    r
}

/// The commands that draw a frame: the basic pipeline with the environment, its
/// instances when the slot has an instance buffer, then, for a skinned pass, the
/// skinned pipeline with the joint buffer and its instances likewise.
pub open spec fn pass_draws<I>(
    skinned: bool,
    layout: VertexLayout,
    bind_static: bool,
    bind_skinned: bool,
    statics: Seq<BucketModel<I>>,
    skinneds: Seq<BucketModel<SkinnedInstance<I>>>,
    loaded: Set<u32>,
) -> Seq<DrawCommand> {
    let basic = seq![DrawCommand::BindPipeline(PipelineKind::Basic), DrawCommand::BindEnvironment]
        + if bind_static {
            seq![DrawCommand::BindInstances(layout.base_formats)] + bucket_draws(statics, loaded, 0)
        } else {
            Seq::empty()
        };
    let skin = if skinned {
        seq![DrawCommand::BindPipeline(PipelineKind::Skinned)]
            + if bind_skinned {
                seq![DrawCommand::BindInstances(layout.skinned_formats), DrawCommand::BindSkinning]
                    + bucket_draws(skinneds, loaded, 0)
            } else {
                Seq::empty()
            }
    } else {
        Seq::empty()
    };
    basic + skin
}

fn insert_ops<R: Copy>(batch: &mut TwoLevelBatch<R>, ops: &Vec<(u32, u32, R)>)
    requires
        old(batch).wf(),
        batch_total(old(batch)@) + ops@.len() <= usize::MAX,
    ensures
        final(batch).wf(),
        final(batch).limit() == old(batch).limit(),
        final(batch)@ == insert_all(old(batch)@, old(batch).limit(), ops_model(ops@)),
        batch_total(final(batch)@) == batch_total(old(batch)@) + ops@.len(),
{
    let ghost start = batch@;
    let n = ops.len();
    let mut i: usize = 0;
    assert(ops_model(ops@.take(0)) =~= Seq::<(u32, u32, Seq<R>)>::empty());
    while i < n
        invariant
            i <= n,
            n == ops@.len(),
            batch.wf(),
            batch.limit() == old(batch).limit(),
            batch_total(start) + n <= usize::MAX,
            batch_total(batch@) == batch_total(start) + i,
            batch@ == insert_all(start, old(batch).limit(), ops_model(ops@.take(i as int))),
        decreases n - i,
    {
        let (material, mesh, rec) = ops[i];
        let mut d: Vec<R> = Vec::new();
        d.push(rec);
        proof {
            lemma_insert_total(batch@, batch.limit(), material, mesh, d@);
            assert(ops_model(ops@.take(i + 1)).drop_last() =~= ops_model(ops@.take(i as int)));
            assert(ops_model(ops@.take(i + 1)).last() == (material, mesh, d@));
        }
        batch.insert(material, mesh, d);
        i += 1;
    }
    assert(ops@.take(n as int) =~= ops@);
}

fn insert_ops_ordered<R: Copy>(batch: &mut OrderedTwoLevelBatch<R>, ops: &Vec<(u32, u32, R)>)
    requires
        old(batch).wf(),
        batch_total(old(batch)@) + ops@.len() <= usize::MAX,
    ensures
        final(batch).wf(),
        final(batch).previous() == old(batch).previous(),
        final(batch)@ == ordered_insert_all(old(batch)@, ops_model(ops@)),
        batch_total(final(batch)@) == batch_total(old(batch)@) + ops@.len(),
{
    let ghost start = batch@;
    let n = ops.len();
    let mut i: usize = 0;
    assert(ops_model(ops@.take(0)) =~= Seq::<(u32, u32, Seq<R>)>::empty());
    while i < n
        invariant
            i <= n,
            n == ops@.len(),
            batch.wf(),
            batch.previous() == old(batch).previous(),
            batch_total(start) + n <= usize::MAX,
            batch_total(batch@) == batch_total(start) + i,
            batch@ == ordered_insert_all(start, ops_model(ops@.take(i as int))),
        decreases n - i,
    {
        let (material, mesh, rec) = ops[i];
        let mut d: Vec<R> = Vec::new();
        d.push(rec);
        proof {
            lemma_ordered_insert_data(batch@, material, mesh, d@);
            assert(ops_model(ops@.take(i + 1)).drop_last() =~= ops_model(ops@.take(i as int)));
            assert(ops_model(ops@.take(i + 1)).last() == (material, mesh, d@));
        }
        batch.insert(material, mesh, d);
        i += 1;
    }
    assert(ops@.take(n as int) =~= ops@);
}

/// The visible set an unordered pass filters by, if any.
pub open spec fn frame_visible<I>(frame: &Frame<I>) -> Option<Set<u32>> {
    match frame.visibility {
        Some(v) => Some(v.visible_unordered@),
        None => None,
    }
}

proof fn lemma_joint_bound(n: nat)
    requires
        n <= u32::MAX,
    ensures
        n * (u32::MAX as nat) <= u64::MAX,
{
    assert(n * (u32::MAX as nat) <= (u32::MAX as nat) * (u32::MAX as nat)) by (nonlinear_arith)
        requires n <= u32::MAX;
}

proof fn lemma_bytes_bound(count: nat, size: nat)
    requires
        count <= u32::MAX,
        size <= MAX_INSTANCE_SIZE,
    ensures
        count * size <= 0x8000_0000_0000_0000,
{
    assert(count * size <= (u32::MAX as nat) * (MAX_INSTANCE_SIZE as nat)) by (nonlinear_arith)
        requires count <= u32::MAX, size <= MAX_INSTANCE_SIZE;
}


/// Settings of the opaque pass, before it is built.
#[derive(Clone, Copy, Debug, PartialEq, Eq, Structural)]
pub struct DrawBase3DDesc {
    pub skinning: bool,
}

impl DrawBase3DDesc {
    /// A pass without vertex skinning.
    pub fn new() -> (r: Self)
        ensures
            !r.skinning,
    {
        DrawBase3DDesc { skinning: false }
    }

    /// A pass with vertex skinning.
    pub fn skinned() -> (r: Self)
        ensures
            r.skinning,
    {
        DrawBase3DDesc { skinning: true }
    }

    /// The pass, once its pipelines exist: a skinned pipeline exactly when skinning
    /// was asked for.
    pub fn build<I>(self, layout: VertexLayout) -> (r: DrawBase3D<I>)
        requires
            layout_ok(layout),
        ensures
            r.wf(),
            r.is_skinned() == self.skinning,
            r.layout() == layout,
            r.statics() == Seq::<BucketModel<I>>::empty(),
            r.skinneds() == Seq::<BucketModel<SkinnedInstance<I>>>::empty(),
            r.loaded_materials() == Set::<u32>::empty(),
            forall|s: int| #[trigger] r.instance_capacity(s) == 0 && r.skinned_capacity(s) == 0,
    {
        DrawBase3D {
            skinned: self.skinning,
            layout,
            static_batches: TwoLevelBatch::new(),
            skinned_batches: TwoLevelBatch::new(),
            materials: MaterialSub::new(),
            skinning: SkinningSub::new(),
            models: InstanceBuffer::new(),
            skinned_models: InstanceBuffer::new(),
        }
    }
}

/// The opaque 3D pass: draws every visible entity, in no particular order.
pub struct DrawBase3D<I> {
    skinned: bool,
    layout: VertexLayout,
    static_batches: TwoLevelBatch<I>,
    skinned_batches: TwoLevelBatch<SkinnedInstance<I>>,
    materials: MaterialSub,
    skinning: SkinningSub,
    models: InstanceBuffer,
    skinned_models: InstanceBuffer,
}

impl<I> DrawBase3D<I> {
    pub closed spec fn is_skinned(&self) -> bool {
        self.skinned
    }

    pub closed spec fn layout(&self) -> VertexLayout {
        self.layout
    }

    /// Batches of the basic pipeline.
    pub closed spec fn statics(&self) -> Seq<BucketModel<I>> {
        self.static_batches@
    }

    /// Batches of the skinned pipeline.
    pub closed spec fn skinneds(&self) -> Seq<BucketModel<SkinnedInstance<I>>> {
        self.skinned_batches@
    }

    /// Materials with live GPU data.
    pub closed spec fn loaded_materials(&self) -> Set<u32> {
        self.materials@
    }

    /// Bytes held by slot `slot`'s instance buffer of the basic pipeline.
    pub closed spec fn instance_capacity(&self, slot: int) -> u64 {
        self.models.size_of_slot(slot)
    }

    /// Bytes held by slot `slot`'s instance buffer of the skinned pipeline.
    pub closed spec fn skinned_capacity(&self, slot: int) -> u64 {
        self.skinned_models.size_of_slot(slot)
    }

    pub closed spec fn wf(&self) -> bool {
        &&& self.static_batches.wf()
        &&& self.skinned_batches.wf()
        &&& self.static_batches.limit() == usize::MAX
        &&& self.skinned_batches.limit() == usize::MAX
        &&& self.skinning.total() == 0
        &&& self.skinning.entries() == Seq::<(u32, u64)>::empty()
        &&& layout_ok(self.layout)
    }

    /// Gathers the frame's entities into batches and says what to upload for
    /// slot `index`. Entities are walked by id; an entity is taken when it has a
    /// mesh, a material and a transform and, without a visibility result, is
    /// neither hidden nor transparent, or, with one, is in its visible set.
    /// Entities with joints go to the skinned pipeline when the pass has one.
    /// Entities whose mesh is not loaded, or whose material cannot be resolved,
    /// are left out. Materials in `modified` have their GPU data rebuilt.
    pub fn prepare(&mut self, frame: &Frame<I>, index: usize, modified: &Vec<u32>) -> (r: FrameUpload<I>)
        where
            I: Copy,
        requires
            old(self).wf(),
            frame.entities@.len() <= u32::MAX,
            index < usize::MAX,
        ensures
            final(self).wf(),
            final(self).is_skinned() == old(self).is_skinned(),
            final(self).layout() == old(self).layout(),
            ({
                let es = frame.entities@;
                let ids = walk_ids(es.len(), None);
                let vis = frame_visible(frame);
                let mats = old(self).loaded_materials().difference(modified@.to_set());
                let g = gather_static(es, ids, vis, false, frame.meshes_loaded@, frame.materials_ready@, mats);
                let h = gather_skinned(
                    es, ids, vis, false, frame.meshes_loaded@, frame.materials_ready@, g.0, Seq::empty(), 0,
                );
                &&& final(self).statics() == batch_pruned(
                    insert_all(batch_cleared(old(self).statics()), usize::MAX as nat, ops_model(g.1)),
                )
                &&& final(self).skinneds() == if old(self).is_skinned() {
                    batch_pruned(insert_all(batch_cleared(old(self).skinneds()), usize::MAX as nat, ops_model(h.1)))
                } else {
                    batch_pruned(batch_cleared(old(self).skinneds()))
                }
                &&& final(self).loaded_materials() == if old(self).is_skinned() { h.0 } else { g.0 }
                &&& r.joints@ == if old(self).is_skinned() { h.3 } else { Seq::empty() }
            }),
            r.result == PrepareResult::DrawRecord,
            r.instances@ == batch_data(final(self).statics()),
            r.skinned_instances@ == batch_data(final(self).skinneds()),
            growth_of(
                old(self).instance_capacity(index as int),
                (batch_total(final(self).statics()) * old(self).layout().instance_size) as nat,
                r.instance_growth,
                final(self).instance_capacity(index as int),
            ),
            growth_of(
                old(self).skinned_capacity(index as int),
                (batch_total(final(self).skinneds()) * old(self).layout().skinned_instance_size) as nat,
                r.skinned_growth,
                final(self).skinned_capacity(index as int),
            ),
    {
        let ghost n = frame.entities@.len();
        self.materials.maintain(modified);
        self.static_batches.clear_inner();
        self.skinned_batches.clear_inner();
        proof {
            crate::batch::lemma_batch_data_cleared(old(self).statics());
            crate::batch::lemma_batch_data_cleared(old(self).skinneds());
            lemma_joint_bound(n);
        }
        let visible: Option<&IdSet> = match &frame.visibility {
            Some(v) => Some(&v.visible_unordered),
            None => None,
        };
        let (ops, _) = collect_static(
            &frame.entities,
            None,
            visible,
            &frame.meshes_loaded,
            &frame.materials_ready,
            &mut self.materials,
        );
        insert_ops(&mut self.static_batches, &ops);
        if self.skinned {
            let (skinned_ops, _) = collect_skinned(
                &frame.entities,
                None,
                visible,
                &frame.meshes_loaded,
                &frame.materials_ready,
                &mut self.materials,
                &mut self.skinning,
            );
            insert_ops(&mut self.skinned_batches, &skinned_ops);
        }
        proof {
            crate::batch::lemma_batch_data_pruned(self.static_batches@);
            crate::batch::lemma_batch_data_pruned(self.skinned_batches@);
        }
        self.static_batches.prune();
        self.skinned_batches.prune();
        let count = self.static_batches.count();
        let skinned_count = self.skinned_batches.count();
        proof {
            lemma_bytes_bound(count as nat, self.layout.instance_size as nat);
            lemma_bytes_bound(skinned_count as nat, self.layout.skinned_instance_size as nat);
        }
        let instance_growth = self.models.write(index, count as u64 * self.layout.instance_size);
        let skinned_growth = self.skinned_models.write(index, skinned_count as u64 * self.layout.skinned_instance_size);
        let joints = self.skinning.commit();
        FrameUpload {
            result: PrepareResult::DrawRecord,
            instances: self.static_batches.data(),
            skinned_instances: self.skinned_batches.data(),
            instance_growth,
            skinned_growth,
            joints,
        }
    }
}


impl<I> DrawBase3D<I> {
    /// The pipelines this pass is drawn with, parent first: opaque settings
    /// (depth tested and written, no blending), and a skinned pipeline when the
    /// pass has one.
    pub fn pipelines(&self) -> (r: Vec<PipelineDesc>)
        ensures
            r@ == if self.is_skinned() {
                seq![
                    pipeline_desc(PipelineKind::Basic, self.layout(), false),
                    pipeline_desc(PipelineKind::Skinned, self.layout(), false),
                ]
            } else {
                seq![pipeline_desc(PipelineKind::Basic, self.layout(), false)]
            },
    {
        pipeline_descs(self.layout, self.skinned, false)
    }

    /// Materials have one bucket each and meshes one run each in either batch.
    pub proof fn lemma_keys_distinct(&self)
        requires
            self.wf(),
        ensures
            keys_distinct(self.statics(), true),
            keys_distinct(self.skinneds(), true),
    {
        self.static_batches.lemma_keys_distinct();
        self.skinned_batches.lemma_keys_distinct();
    }

    /// The commands that draw slot `index`: see `pass_draws`.
    pub fn draw_inline(&self, index: usize) -> (r: Vec<DrawCommand>)
        requires
            self.wf(),
        ensures
            r@ == pass_draws(
                self.is_skinned(),
                self.layout(),
                self.instance_capacity(index as int) > 0,
                self.skinned_capacity(index as int) > 0,
                self.statics(),
                self.skinneds(),
                self.loaded_materials(),
            ),
    {
        let mut cmds: Vec<DrawCommand> = Vec::new();
        cmds.push(DrawCommand::BindPipeline(PipelineKind::Basic));
        cmds.push(DrawCommand::BindEnvironment);
        if self.models.bindable(index) {
            cmds.push(DrawCommand::BindInstances(self.layout.base_formats));
            proof {
                self.static_batches.lemma_total_fits();
            }
            record_buckets(self.static_batches.buckets(), Some(&self.materials), &mut cmds);
        }
        if self.skinned {
            cmds.push(DrawCommand::BindPipeline(PipelineKind::Skinned));
            if self.skinned_models.bindable(index) {
                cmds.push(DrawCommand::BindInstances(self.layout.skinned_formats));
                cmds.push(DrawCommand::BindSkinning);
                proof {
                    self.skinned_batches.lemma_total_fits();
                }
                record_buckets(self.skinned_batches.buckets(), Some(&self.materials), &mut cmds);
            }
        }
        assert(cmds@ =~= pass_draws(
            self.is_skinned(),
            self.layout(),
            self.instance_capacity(index as int) > 0,
            self.skinned_capacity(index as int) > 0,
            self.statics(),
            self.skinneds(),
            self.loaded_materials(),
        ));
        cmds
    }

    /// Tears the pass down: see `dispose_actions`.
    pub fn dispose(self) -> (r: Vec<DisposeAction>)
        ensures
            r@ == dispose_actions(self.is_skinned()),
    {
        dispose_plan(self.skinned)
    }
}


/// Settings of the transparent pass, before it is built.
#[derive(Clone, Copy, Debug, PartialEq, Eq, Structural)]
pub struct DrawBase3DTransparentDesc {
    pub skinning: bool,
}

impl DrawBase3DTransparentDesc {
    /// A pass without vertex skinning.
    pub fn new() -> (r: Self)
        ensures
            !r.skinning,
    {
        DrawBase3DTransparentDesc { skinning: false }
    }

    /// A pass with vertex skinning.
    pub fn skinned() -> (r: Self)
        ensures
            r.skinning,
    {
        DrawBase3DTransparentDesc { skinning: true }
    }

    /// The pass, once its pipelines exist: a skinned pipeline exactly when skinning
    /// was asked for.
    pub fn build<I>(self, layout: VertexLayout) -> (r: DrawBase3DTransparent<I>)
        requires
            layout_ok(layout),
        ensures
            r.wf(),
            r.is_skinned() == self.skinning,
            r.layout() == layout,
            r.statics() == Seq::<BucketModel<I>>::empty(),
            r.skinneds() == Seq::<BucketModel<SkinnedInstance<I>>>::empty(),
            r.previous_statics() == Seq::<BucketShape>::empty(),
            r.previous_skinneds() == Seq::<BucketShape>::empty(),
            r.loaded_materials() == Set::<u32>::empty(),
            r.slots() == Seq::<bool>::empty(),
            forall|s: int| #[trigger] r.instance_capacity(s) == 0 && r.skinned_capacity(s) == 0,
    {
        DrawBase3DTransparent {
            skinned: self.skinning,
            layout,
            static_batches: OrderedTwoLevelBatch::new(),
            skinned_batches: OrderedTwoLevelBatch::new(),
            materials: MaterialSub::new(),
            skinning: SkinningSub::new(),
            models: InstanceBuffer::new(),
            skinned_models: InstanceBuffer::new(),
            change: ChangeDetection::new(),
        }
    }
}

/// The transparent 3D pass: draws the visible entities back to front, in the
/// order the visibility result gives, and reuses recorded commands while the
/// batches keep their shape.
pub struct DrawBase3DTransparent<I> {
    skinned: bool,
    layout: VertexLayout,
    static_batches: OrderedTwoLevelBatch<I>,
    skinned_batches: OrderedTwoLevelBatch<SkinnedInstance<I>>,
    materials: MaterialSub,
    skinning: SkinningSub,
    models: InstanceBuffer,
    skinned_models: InstanceBuffer,
    change: ChangeDetection,
}

impl<I> DrawBase3DTransparent<I> {
    pub closed spec fn is_skinned(&self) -> bool {
        self.skinned
    }

    pub closed spec fn layout(&self) -> VertexLayout {
        self.layout
    }

    /// Batches of the basic pipeline.
    pub closed spec fn statics(&self) -> Seq<BucketModel<I>> {
        self.static_batches@
    }

    /// Batches of the skinned pipeline.
    pub closed spec fn skinneds(&self) -> Seq<BucketModel<SkinnedInstance<I>>> {
        self.skinned_batches@
    }

    /// Shape of the basic pipeline's batches in the frame before.
    pub closed spec fn previous_statics(&self) -> Seq<BucketShape> {
        self.static_batches.previous()
    }

    /// Shape of the skinned pipeline's batches in the frame before.
    pub closed spec fn previous_skinneds(&self) -> Seq<BucketShape> {
        self.skinned_batches.previous()
    }

    /// Materials with live GPU data.
    pub closed spec fn loaded_materials(&self) -> Set<u32> {
        self.materials@
    }

    /// For each frame slot, whether its recorded commands are up to date.
    pub closed spec fn slots(&self) -> Seq<bool> {
        self.change.slots()
    }

    pub closed spec fn instance_capacity(&self, slot: int) -> u64 {
        self.models.size_of_slot(slot)
    }

    pub closed spec fn skinned_capacity(&self, slot: int) -> u64 {
        self.skinned_models.size_of_slot(slot)
    }

    pub closed spec fn wf(&self) -> bool {
        &&& self.static_batches.wf()
        &&& self.skinned_batches.wf()
        &&& self.skinning.total() == 0
        &&& self.skinning.entries() == Seq::<(u32, u64)>::empty()
        &&& layout_ok(self.layout)
    }

    /// Gathers the entities of the frame's back-to-front visibility order, in that
    /// order, and says what to upload for slot `index` and whether the slot's
    /// recorded commands can be reused. Fails when the frame has no visibility
    /// result, leaving the pass as it was.
    pub fn prepare(&mut self, frame: &Frame<I>, index: usize, modified: &Vec<u32>) -> (r: Result<FrameUpload<I>, PrepareError>)
        where
            I: Copy,
        requires
            old(self).wf(),
            frame.entities@.len() <= u32::MAX,
            frame.visibility is Some ==> frame.visibility->0.visible_ordered@.len() <= u32::MAX,
            index < usize::MAX,
        ensures
            final(self).wf(),
            final(self).is_skinned() == old(self).is_skinned(),
            final(self).layout() == old(self).layout(),
            frame.visibility is None ==> r == Err::<FrameUpload<I>, PrepareError>(PrepareError::MissingVisibility)
                && *final(self) == *old(self),
            frame.visibility is Some ==> r is Ok && ({
                let es = frame.entities@;
                let ids = frame.visibility->0.visible_ordered@;
                let mats = old(self).loaded_materials().difference(modified@.to_set());
                let g = gather_static(es, ids, None, true, frame.meshes_loaded@, frame.materials_ready@, mats);
                let h = gather_skinned(
                    es, ids, None, true, frame.meshes_loaded@, frame.materials_ready@, g.0, Seq::empty(), 0,
                );
                let skinned = old(self).is_skinned();
                let changed = g.2 || (skinned && h.2)
                    || batch_shape(final(self).statics()) != final(self).previous_statics()
                    || batch_shape(final(self).skinneds()) != final(self).previous_skinneds();
                let u = r->Ok_0;
                &&& final(self).statics() == ordered_insert_all(Seq::empty(), ops_model(g.1))
                &&& final(self).skinneds() == if skinned {
                    ordered_insert_all(Seq::empty(), ops_model(h.1))
                } else {
                    Seq::empty()
                }
                &&& final(self).previous_statics() == batch_shape(old(self).statics())
                &&& final(self).previous_skinneds() == batch_shape(old(self).skinneds())
                &&& final(self).loaded_materials() == if skinned { h.0 } else { g.0 }
                &&& u.joints@ == if skinned { h.3 } else { Seq::empty() }
                &&& u.result == if !changed && index < old(self).slots().len() && old(self).slots()[index as int] {
                    PrepareResult::DrawReuse
                } else {
                    PrepareResult::DrawRecord
                }
                &&& final(self).slots() == slots_after(old(self).slots(), index as nat, changed)
                &&& u.instances@ == batch_data(final(self).statics())
                &&& u.skinned_instances@ == batch_data(final(self).skinneds())
                &&& growth_of(
                    old(self).instance_capacity(index as int),
                    (batch_total(final(self).statics()) * old(self).layout().instance_size) as nat,
                    u.instance_growth,
                    final(self).instance_capacity(index as int),
                )
                &&& growth_of(
                    old(self).skinned_capacity(index as int),
                    (batch_total(final(self).skinneds()) * old(self).layout().skinned_instance_size) as nat,
                    u.skinned_growth,
                    final(self).skinned_capacity(index as int),
                )
            }),
    {
        let order: &Vec<u32> = match &frame.visibility {
            Some(v) => &v.visible_ordered,
            None => {
                return Err(PrepareError::MissingVisibility);
            },
        };
        let ghost n = order@.len();
        self.materials.maintain(modified);
        self.static_batches.swap_clear();
        self.skinned_batches.swap_clear();
        proof {
            lemma_joint_bound(n);
            assert(batch_data(Seq::<BucketModel<I>>::empty()) =~= Seq::<I>::empty());
            assert(batch_data(Seq::<BucketModel<SkinnedInstance<I>>>::empty()) =~= Seq::<SkinnedInstance<I>>::empty());
        }
        let (ops, static_changed) = collect_static(
            &frame.entities,
            Some(order),
            None,
            &frame.meshes_loaded,
            &frame.materials_ready,
            &mut self.materials,
        );
        insert_ops_ordered(&mut self.static_batches, &ops);
        let mut changed = static_changed;
        if self.skinned {
            let (skinned_ops, skinned_changed) = collect_skinned(
                &frame.entities,
                Some(order),
                None,
                &frame.meshes_loaded,
                &frame.materials_ready,
                &mut self.materials,
                &mut self.skinning,
            );
            insert_ops_ordered(&mut self.skinned_batches, &skinned_ops);
            changed = changed || skinned_changed;
        }
        let count = self.static_batches.count();
        let skinned_count = self.skinned_batches.count();
        proof {
            lemma_bytes_bound(count as nat, self.layout.instance_size as nat);
            lemma_bytes_bound(skinned_count as nat, self.layout.skinned_instance_size as nat);
        }
        let instance_growth = self.models.write(index, count as u64 * self.layout.instance_size);
        let skinned_growth = self.skinned_models.write(index, skinned_count as u64 * self.layout.skinned_instance_size);
        let joints = self.skinning.commit();
        changed = changed || self.static_batches.changed();
        changed = changed || self.skinned_batches.changed();
        let result = self.change.prepare_result(index, changed);
        Ok(FrameUpload {
            result,
            instances: self.static_batches.data(),
            skinned_instances: self.skinned_batches.data(),
            instance_growth,
            skinned_growth,
            joints,
        })
    }

    /// The pipelines this pass is drawn with, parent first: transparent settings
    /// (depth tested but not written, alpha blending), and a skinned pipeline
    /// when the pass has one.
    pub fn pipelines(&self) -> (r: Vec<PipelineDesc>)
        ensures
            r@ == if self.is_skinned() {
                seq![
                    pipeline_desc(PipelineKind::Basic, self.layout(), true),
                    pipeline_desc(PipelineKind::Skinned, self.layout(), true),
                ]
            } else {
                seq![pipeline_desc(PipelineKind::Basic, self.layout(), true)]
            },
    {
        pipeline_descs(self.layout, self.skinned, true)
    }

    /// The commands that draw slot `index`: see `pass_draws`.
    pub fn draw_inline(&self, index: usize) -> (r: Vec<DrawCommand>)
        requires
            self.wf(),
        ensures
            r@ == pass_draws(
                self.is_skinned(),
                self.layout(),
                self.instance_capacity(index as int) > 0,
                self.skinned_capacity(index as int) > 0,
                self.statics(),
                self.skinneds(),
                self.loaded_materials(),
            ),
    {
        let mut cmds: Vec<DrawCommand> = Vec::new();
        cmds.push(DrawCommand::BindPipeline(PipelineKind::Basic));
        cmds.push(DrawCommand::BindEnvironment);
        if self.models.bindable(index) {
            cmds.push(DrawCommand::BindInstances(self.layout.base_formats));
            proof {
                self.static_batches.lemma_total_fits();
            }
            record_buckets(self.static_batches.buckets(), Some(&self.materials), &mut cmds);
        }
        if self.skinned {
            cmds.push(DrawCommand::BindPipeline(PipelineKind::Skinned));
            if self.skinned_models.bindable(index) {
                cmds.push(DrawCommand::BindInstances(self.layout.skinned_formats));
                cmds.push(DrawCommand::BindSkinning);
                proof {
                    self.skinned_batches.lemma_total_fits();
                }
                record_buckets(self.skinned_batches.buckets(), Some(&self.materials), &mut cmds);
            }
        }
        assert(cmds@ =~= pass_draws(
            self.is_skinned(),
            self.layout(),
            self.instance_capacity(index as int) > 0,
            self.skinned_capacity(index as int) > 0,
            self.statics(),
            self.skinneds(),
            self.loaded_materials(),
        ));
        cmds
    }

    /// Tears the pass down: see `dispose_actions`.
    pub fn dispose(self) -> (r: Vec<DisposeAction>)
        ensures
            r@ == dispose_actions(self.is_skinned()),
    {
        dispose_plan(self.skinned)
    }
}


/// A pass without a skinned pipeline binds exactly one pipeline per frame; when
/// its slot has an instance buffer and every material of its batches has GPU
/// data, its draws cover exactly the instances of its batches.
pub proof fn law_unskinned_frame<I>(
    layout: VertexLayout,
    bind_static: bool,
    bind_skinned: bool,
    statics: Seq<BucketModel<I>>,
    skinneds: Seq<BucketModel<SkinnedInstance<I>>>,
    loaded: Set<u32>,
)
    requires
        batch_total(statics) <= usize::MAX,
    ensures
        pipeline_binds(pass_draws(false, layout, bind_static, bind_skinned, statics, skinneds, loaded)) == 1,
        bind_static && all_loaded(statics, loaded) ==> drawn_instances(
            pass_draws(false, layout, bind_static, bind_skinned, statics, skinneds, loaded),
        ) == batch_total(statics),
{
    let head = seq![DrawCommand::BindPipeline(PipelineKind::Basic), DrawCommand::BindEnvironment];
    let inst = seq![DrawCommand::BindInstances(layout.base_formats)];
    let body = bucket_draws(statics, loaded, 0);
    let tail: Seq<DrawCommand> = if bind_static { inst + body } else { Seq::empty() };
    assert(pass_draws(false, layout, bind_static, bind_skinned, statics, skinneds, loaded) =~= head + tail);
    assert(head =~= seq![DrawCommand::BindPipeline(PipelineKind::Basic)] + seq![DrawCommand::BindEnvironment]);
    lemma_counts_add(seq![DrawCommand::BindPipeline(PipelineKind::Basic)], seq![DrawCommand::BindEnvironment]);
    lemma_single_counts(DrawCommand::BindPipeline(PipelineKind::Basic));
    lemma_single_counts(DrawCommand::BindEnvironment);
    lemma_single_counts(DrawCommand::BindInstances(layout.base_formats));
    lemma_counts_add(head, tail);
    lemma_bucket_draws_bind_no_pipeline(statics, loaded, 0);
    lemma_counts_add(inst, body);
    if bind_static && all_loaded(statics, loaded) {
        law_drawn_instances_match_batch(statics, loaded, 0);
    }
    if !bind_static {
        assert(pipeline_binds(Seq::<DrawCommand>::empty()) == 0);
        assert(drawn_instances(Seq::<DrawCommand>::empty()) == 0);
    }
}


/// Every run of `b` is keyed by a mesh of `meshes`.
pub open spec fn runs_within<T>(b: Seq<BucketModel<T>>, meshes: Set<u32>) -> bool {
    forall|i: int, j: int| 0 <= i < b.len() && 0 <= j < b[i].1.len() ==> meshes.contains(#[trigger] b[i].1[j].0)
}

proof fn lemma_ops_model_within<R>(ops: Seq<(u32, u32, R)>, meshes: Set<u32>)
    requires
        forall|k: int| 0 <= k < ops.len() ==> meshes.contains(#[trigger] ops[k].1),
    ensures
        ops_within(ops_model(ops), meshes),
{
    assert forall|k: int| 0 <= k < ops_model(ops).len() implies meshes.contains(#[trigger] ops_model(ops)[k].1) by {
        assert(ops_model(ops)[k].1 == ops[k].1);
    }
}

/// After the opaque pass prepares a frame, each run of either batch names a mesh
/// whose asset was loaded: an entity whose mesh is not loaded is in no batch.
pub proof fn law_opaque_batches_hold_loaded_meshes<I>(
    statics: Seq<BucketModel<I>>,
    skinneds: Seq<BucketModel<SkinnedInstance<I>>>,
    es: Seq<crate::frame::RenderEntity<I>>,
    vis: Option<Set<u32>>,
    meshes: Set<u32>,
    ready: Set<u32>,
    loaded: Set<u32>,
)
    ensures
        ({
            let ids = walk_ids(es.len(), None);
            let g = gather_static(es, ids, vis, false, meshes, ready, loaded);
            let h = gather_skinned(es, ids, vis, false, meshes, ready, g.0, Seq::empty(), 0);
            &&& runs_within(batch_pruned(insert_all(batch_cleared(statics), usize::MAX as nat, ops_model(g.1))), meshes)
            &&& runs_within(batch_pruned(insert_all(batch_cleared(skinneds), usize::MAX as nat, ops_model(h.1))), meshes)
            &&& runs_within(batch_pruned(batch_cleared(skinneds)), meshes)
        }),
{
    let ids = walk_ids(es.len(), None);
    let g = gather_static(es, ids, vis, false, meshes, ready, loaded);
    let h = gather_skinned(es, ids, vis, false, meshes, ready, g.0, Seq::empty(), 0);
    law_static_meshes_loaded(es, ids, vis, false, meshes, ready, loaded);
    law_skinned_meshes_loaded(es, ids, vis, false, meshes, ready, g.0, Seq::empty(), 0);
    lemma_ops_model_within(g.1, meshes);
    lemma_ops_model_within(h.1, meshes);
    lemma_cleared_within(statics, meshes);
    lemma_cleared_within(skinneds, meshes);
    lemma_insert_all_within(batch_cleared(statics), usize::MAX as nat, ops_model(g.1), meshes);
    lemma_insert_all_within(batch_cleared(skinneds), usize::MAX as nat, ops_model(h.1), meshes);
    lemma_pruned_within(insert_all(batch_cleared(statics), usize::MAX as nat, ops_model(g.1)), meshes);
    lemma_pruned_within(insert_all(batch_cleared(skinneds), usize::MAX as nat, ops_model(h.1)), meshes);
    lemma_pruned_within(batch_cleared(skinneds), meshes);
}

/// After the transparent pass prepares a frame, each run of either batch names a
/// mesh whose asset was loaded.
pub proof fn law_transparent_batches_hold_loaded_meshes<I>(
    es: Seq<crate::frame::RenderEntity<I>>,
    order: Seq<u32>,
    meshes: Set<u32>,
    ready: Set<u32>,
    loaded: Set<u32>,
)
    ensures
        ({
            let g = gather_static(es, order, None, true, meshes, ready, loaded);
            let h = gather_skinned(es, order, None, true, meshes, ready, g.0, Seq::empty(), 0);
            &&& filled_runs_within(ordered_insert_all(Seq::empty(), ops_model(g.1)), meshes)
            &&& filled_runs_within(ordered_insert_all(Seq::empty(), ops_model(h.1)), meshes)
        }),
{
    let g = gather_static(es, order, None, true, meshes, ready, loaded);
    let h = gather_skinned(es, order, None, true, meshes, ready, g.0, Seq::empty(), 0);
    law_static_meshes_loaded(es, order, None, true, meshes, ready, loaded);
    law_skinned_meshes_loaded(es, order, None, true, meshes, ready, g.0, Seq::empty(), 0);
    lemma_ops_model_within(g.1, meshes);
    lemma_ops_model_within(h.1, meshes);
    lemma_ordered_insert_all_within(Seq::<BucketModel<I>>::empty(), ops_model(g.1), meshes);
    lemma_ordered_insert_all_within(Seq::<BucketModel<SkinnedInstance<I>>>::empty(), ops_model(h.1), meshes);
}

/// Without a visibility result, every record in either batch of the opaque pass
/// after a frame belongs to an entity flagged neither hidden nor
/// hidden-propagated: hidden entities are in no batch.
pub proof fn law_opaque_hidden_never_batched<I>(
    statics: Seq<BucketModel<I>>,
    skinneds: Seq<BucketModel<SkinnedInstance<I>>>,
    es: Seq<crate::frame::RenderEntity<I>>,
    meshes: Set<u32>,
    ready: Set<u32>,
    loaded: Set<u32>,
)
    ensures
        ({
            let ids = walk_ids(es.len(), None);
            let g = gather_static(es, ids, None, false, meshes, ready, loaded);
            let h = gather_skinned(es, ids, None, false, meshes, ready, g.0, Seq::empty(), 0);
            &&& records_within(
                batch_pruned(insert_all(batch_cleared(statics), usize::MAX as nat, ops_model(g.1))),
                shown_record(es),
            )
            &&& records_within(
                batch_pruned(insert_all(batch_cleared(skinneds), usize::MAX as nat, ops_model(h.1))),
                shown_skinned_record(es),
            )
        }),
{
    let ids = walk_ids(es.len(), None);
    let g = gather_static(es, ids, None, false, meshes, ready, loaded);
    let h = gather_skinned(es, ids, None, false, meshes, ready, g.0, Seq::empty(), 0);
    law_static_hidden_excluded(es, ids, meshes, ready, loaded);
    law_skinned_hidden_excluded(es, ids, meshes, ready, g.0, Seq::empty(), 0);
    let p = shown_record(es);
    let q = shown_skinned_record(es);
    assert forall|k: int, x: int| 0 <= k < ops_model(g.1).len() && 0 <= x < ops_model(g.1)[k].2.len()
        implies p(ops_model(g.1)[k].1, #[trigger] ops_model(g.1)[k].2[x]) by {
        assert(ops_model(g.1)[k] == (g.1[k].0, g.1[k].1, seq![g.1[k].2]));
    }
    assert forall|k: int, x: int| 0 <= k < ops_model(h.1).len() && 0 <= x < ops_model(h.1)[k].2.len()
        implies q(ops_model(h.1)[k].1, #[trigger] ops_model(h.1)[k].2[x]) by {
        assert(ops_model(h.1)[k] == (h.1[k].0, h.1[k].1, seq![h.1[k].2]));
    }
    lemma_cleared_records(statics, p);
    lemma_cleared_records(skinneds, q);
    lemma_insert_all_records(batch_cleared(statics), usize::MAX as nat, ops_model(g.1), p);
    lemma_insert_all_records(batch_cleared(skinneds), usize::MAX as nat, ops_model(h.1), q);
    lemma_pruned_records(insert_all(batch_cleared(statics), usize::MAX as nat, ops_model(g.1)), p);
    lemma_pruned_records(insert_all(batch_cleared(skinneds), usize::MAX as nat, ops_model(h.1)), q);
}
} // verus!
