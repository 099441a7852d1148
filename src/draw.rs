//! The commands a pass records to draw its batches.
use vstd::prelude::*;
use crate::batch::{
    batch_data, buckets_model, lemma_batch_data_add, lemma_batch_data_single, lemma_runs_data_add,
    lemma_runs_data_single, runs_data, runs_model, BucketModel, MaterialBucket, RunModel,
};
use crate::submodules::MaterialSub;

verus! {

/// The two graphics pipelines of a pass.
#[derive(Clone, Copy, Debug, PartialEq, Eq, Structural)]
pub enum PipelineKind {
    Basic,
    Skinned,
}

/// One command of a pass's draw recording.
#[derive(Clone, Copy, Debug, PartialEq, Eq, Structural)]
pub enum DrawCommand {
    /// Bind a graphics pipeline.
    BindPipeline(PipelineKind),
    /// Bind the camera and lights.
    BindEnvironment,
    /// Bind the projection and view uniforms.
    BindObjects,
    /// Bind the frame slot's instance buffer at this vertex binding.
    BindInstances(u32),
    /// Bind the joint buffer at descriptor set 2.
    BindSkinning,
    /// Bind a material's descriptor set at set 1.
    BindMaterial(u32),
    /// Draw `mesh` once for each instance in `start..end` of the instance buffer.
    Draw { mesh: u32, start: usize, end: usize },
}

/// Draws of a bucket's runs, the first instance being at `offset`.
pub open spec fn run_draws<T>(runs: Seq<RunModel<T>>, offset: nat) -> Seq<DrawCommand>
    decreases runs.len(),
{
    if runs.len() == 0 {
        Seq::empty()
    } else {
        let end = offset + runs[0].1.len();
        seq![DrawCommand::Draw { mesh: runs[0].0, start: offset as usize, end: end as usize }]
            + run_draws(runs.skip(1), end)
    }
}

/// Commands for the buckets of a batch whose first instance is at `offset`. A
/// bucket whose material has no GPU data yet is skipped, its instances too.
pub open spec fn bucket_draws<T>(b: Seq<BucketModel<T>>, loaded: Set<u32>, offset: nat) -> Seq<DrawCommand>
    decreases b.len(),
{
    if b.len() == 0 {
        Seq::empty()
    } else {
        let here = if loaded.contains(b[0].0) {
            seq![DrawCommand::BindMaterial(b[0].0)] + run_draws(b[0].1, offset)
        } else {
            Seq::empty()
        };
        here + bucket_draws(b.skip(1), loaded, offset + runs_data(b[0].1).len())
    }
}

proof fn lemma_run_draws_add<T>(a: Seq<RunModel<T>>, c: Seq<RunModel<T>>, offset: nat)
    ensures
        run_draws(a + c, offset) == run_draws(a, offset) + run_draws(c, offset + runs_data(a).len()),
    decreases a.len(),
{
    if a.len() == 0 {
        assert(a + c =~= c);
        assert(run_draws(a, offset) + run_draws(c, offset) =~= run_draws(c, offset));
    } else {
        assert((a + c).skip(1) =~= a.skip(1) + c);
        assert((a + c)[0] == a[0]);
        lemma_run_draws_add(a.skip(1), c, offset + a[0].1.len());
        assert(run_draws(a + c, offset) =~= run_draws(a, offset) + run_draws(c, offset + runs_data(a).len()));
    }
}

proof fn lemma_bucket_draws_add<T>(a: Seq<BucketModel<T>>, c: Seq<BucketModel<T>>, loaded: Set<u32>, offset: nat)
    ensures
        bucket_draws(a + c, loaded, offset) == bucket_draws(a, loaded, offset) + bucket_draws(c, loaded, offset + batch_data(a).len()),
    decreases a.len(),
{
    if a.len() == 0 {
        assert(a + c =~= c);
        assert(bucket_draws(a, loaded, offset) + bucket_draws(c, loaded, offset) =~= bucket_draws(c, loaded, offset));
    } else {
        assert((a + c).skip(1) =~= a.skip(1) + c);
        assert((a + c)[0] == a[0]);
        lemma_bucket_draws_add(a.skip(1), c, loaded, offset + runs_data(a[0].1).len());
        assert(bucket_draws(a + c, loaded, offset) =~= bucket_draws(a, loaded, offset) + bucket_draws(c, loaded, offset + batch_data(a).len()));
    }
}

proof fn lemma_run_draws_single<T>(r: RunModel<T>, offset: nat)
    ensures
        run_draws(seq![r], offset) == seq![DrawCommand::Draw { mesh: r.0, start: offset as usize, end: (offset + r.1.len()) as usize }],
{
    assert(seq![r].skip(1) =~= Seq::<RunModel<T>>::empty());
    assert(seq![r][0] == r);
    let d = seq![DrawCommand::Draw { mesh: r.0, start: offset as usize, end: (offset + r.1.len()) as usize }];
    assert(run_draws(Seq::<RunModel<T>>::empty(), offset + r.1.len()) =~= Seq::<DrawCommand>::empty());
    assert(d + Seq::<DrawCommand>::empty() =~= d);
}

proof fn lemma_bucket_draws_single<T>(k: BucketModel<T>, loaded: Set<u32>, offset: nat)
    ensures
        bucket_draws(seq![k], loaded, offset) == if loaded.contains(k.0) {
            seq![DrawCommand::BindMaterial(k.0)] + run_draws(k.1, offset)
        } else {
            Seq::empty()
        },
{
    assert(seq![k].skip(1) =~= Seq::<BucketModel<T>>::empty());
    assert(seq![k][0] == k);
    let h = if loaded.contains(k.0) {
        seq![DrawCommand::BindMaterial(k.0)] + run_draws(k.1, offset)
    } else {
        Seq::empty()
    };
    assert(bucket_draws(Seq::<BucketModel<T>>::empty(), loaded, offset + runs_data(k.1).len()) =~= Seq::<DrawCommand>::empty());
    assert(h + Seq::<DrawCommand>::empty() =~= h);
}

/// The materials a recording treats as having GPU data: those of `materials`,
/// or all when there is no check.
pub open spec fn loaded_or_all(materials: Option<&MaterialSub>) -> Set<u32> {
    match materials {
        Some(m) => m@,
        None => Set::full(),
    }
}

/// Appends to `cmds` the commands for `buckets`, whose first instance is at 0.
/// With `materials`, buckets whose material has no GPU data are skipped.
pub fn record_buckets<T>(buckets: &Vec<MaterialBucket<T>>, materials: Option<&MaterialSub>, cmds: &mut Vec<DrawCommand>)
    requires
        batch_data(buckets_model(buckets@)).len() <= usize::MAX,
    ensures
        final(cmds)@ == old(cmds)@ + bucket_draws(buckets_model(buckets@), loaded_or_all(materials), 0),
{
    let ghost loaded = loaded_or_all(materials);
    let ghost b = buckets_model(buckets@);
    let ghost start = cmds@;
    let n = buckets.len();
    let mut offset: usize = 0;
    let mut i: usize = 0;
    assert(b.take(0) =~= Seq::<BucketModel<T>>::empty());
    assert(batch_data(b.take(0)) =~= Seq::<T>::empty());
    assert(start + bucket_draws(b.take(0), loaded, 0) =~= start);
    while i < n
        invariant
            i <= n,
            n == buckets@.len(),
            b == buckets_model(buckets@),
            batch_data(b).len() <= usize::MAX,
            offset == batch_data(b.take(i as int)).len(),
            cmds@ == start + bucket_draws(b.take(i as int), loaded, 0),
            loaded == loaded_or_all(materials),
        decreases n - i,
    {
        let ghost k = b[i as int];
        let ghost rs = k.1;
        let ghost before = cmds@;
        let ghost base = offset as nat;
        assert(k == (buckets@[i as int].material, runs_model(buckets@[i as int].runs@)));
        proof {
            assert(b.take(i + 1) =~= b.take(i as int) + seq![k]);
            lemma_batch_data_add(b.take(i as int), seq![k]);
            lemma_batch_data_single(k);
            lemma_bucket_draws_add(b.take(i as int), seq![k], loaded, 0);
            lemma_bucket_draws_single(k, loaded, base);
            assert(b =~= b.take(i + 1) + b.skip(i + 1));
            lemma_batch_data_add(b.take(i + 1), b.skip(i + 1));
        }
        let material = buckets[i].material;
        let is_loaded = match materials {
            Some(m) => m.loaded(material),
            None => true,
        };
        if is_loaded {
            cmds.push(DrawCommand::BindMaterial(material));
        }
        let m = buckets[i].runs.len();
        let mut j: usize = 0;
        assert(rs.take(0) =~= Seq::<RunModel<T>>::empty());
        assert(runs_data(rs.take(0)) =~= Seq::<T>::empty());
        while j < m
            invariant
                i < n,
                j <= m,
                n == buckets@.len(),
                b == buckets_model(buckets@),
                k == b[i as int],
                rs == k.1,
                m == rs.len(),
                rs == runs_model(buckets@[i as int].runs@),
                is_loaded == loaded.contains(k.0),
                loaded == loaded_or_all(materials),
                base + runs_data(rs).len() <= usize::MAX,
                offset == base + runs_data(rs.take(j as int)).len(),
                cmds@ == if is_loaded {
                    before.push(DrawCommand::BindMaterial(k.0)) + run_draws(rs.take(j as int), base)
                } else {
                    before
                },
            decreases m - j,
        {
            let len = buckets[i].runs[j].data.len();
            proof {
                assert(rs.take(j + 1) =~= rs.take(j as int) + seq![rs[j as int]]);
                lemma_runs_data_add(rs.take(j as int), seq![rs[j as int]]);
                lemma_runs_data_single(rs[j as int]);
                lemma_run_draws_add(rs.take(j as int), seq![rs[j as int]], base);
                lemma_run_draws_single(rs[j as int], (base + runs_data(rs.take(j as int)).len()) as nat);
                assert(rs =~= rs.take(j + 1) + rs.skip(j + 1));
                lemma_runs_data_add(rs.take(j + 1), rs.skip(j + 1));
                assert(rs[j as int] == (buckets@[i as int].runs@[j as int].mesh, buckets@[i as int].runs@[j as int].data@));
            }
            if is_loaded {
                cmds.push(DrawCommand::Draw { mesh: buckets[i].runs[j].mesh, start: offset, end: offset + len });
            }
            offset = offset + len;
            j += 1;
        }
        assert(rs.take(m as int) =~= rs);
        assert(cmds@ =~= start + bucket_draws(b.take(i + 1), loaded, 0));
        i += 1;
    }
    assert(b.take(n as int) =~= b);
}


/// Instances drawn by a command list: the sum of its draw ranges.
pub open spec fn drawn_instances(cmds: Seq<DrawCommand>) -> int
    decreases cmds.len(),
{
    if cmds.len() == 0 {
        0
    } else {
        (match cmds[0] {
            DrawCommand::Draw { mesh: _, start, end } => end - start,
            _ => 0,
        }) + drawn_instances(cmds.skip(1))
    }
}

/// Pipeline binds in a command list.
pub open spec fn pipeline_binds(cmds: Seq<DrawCommand>) -> nat
    decreases cmds.len(),
{
    if cmds.len() == 0 {
        0
    } else {
        (if cmds[0] is BindPipeline { 1nat } else { 0nat }) + pipeline_binds(cmds.skip(1))
    }
}

pub proof fn lemma_counts_add(a: Seq<DrawCommand>, c: Seq<DrawCommand>)
    ensures
        drawn_instances(a + c) == drawn_instances(a) + drawn_instances(c),
        pipeline_binds(a + c) == pipeline_binds(a) + pipeline_binds(c),
    decreases a.len(),
{
    if a.len() == 0 {
        assert(a + c =~= c);
    } else {
        assert((a + c).skip(1) =~= a.skip(1) + c);
        assert((a + c)[0] == a[0]);
        lemma_counts_add(a.skip(1), c);
    }
}

/// Counts of a one-command list.
pub proof fn lemma_single_counts(c: DrawCommand)
    ensures
        drawn_instances(seq![c]) == (match c {
            DrawCommand::Draw { mesh: _, start, end } => end - start,
            _ => 0,
        }),
        pipeline_binds(seq![c]) == if c is BindPipeline { 1nat } else { 0nat },
{
    let e = Seq::<DrawCommand>::empty();
    assert(seq![c].skip(1) =~= e);
    assert(seq![c][0] == c);
    assert(drawn_instances(e) == 0);
    assert(pipeline_binds(e) == 0);
    assert(drawn_instances(seq![c]) == (match c {
        DrawCommand::Draw { mesh: _, start, end } => end - start,
        _ => 0,
    }) + drawn_instances(e));
    assert(pipeline_binds(seq![c]) == (if c is BindPipeline { 1nat } else { 0nat }) + pipeline_binds(e));
}

proof fn lemma_run_draws_counts<T>(runs: Seq<RunModel<T>>, offset: nat)
    requires
        offset + runs_data(runs).len() <= usize::MAX,
    ensures
        drawn_instances(run_draws(runs, offset)) == runs_data(runs).len(),
        pipeline_binds(run_draws(runs, offset)) == 0,
    decreases runs.len(),
{
    if runs.len() > 0 {
        let end = offset + runs[0].1.len();
        let d = seq![DrawCommand::Draw { mesh: runs[0].0, start: offset as usize, end: end as usize }];
        lemma_run_draws_counts(runs.skip(1), end);
        lemma_counts_add(d, run_draws(runs.skip(1), end));
        lemma_single_counts(d[0]);
        assert(d =~= seq![d[0]]);
    } else {
        assert(run_draws(runs, offset) =~= Seq::<DrawCommand>::empty());
    }
}

/// Every material of `b` has GPU data in `loaded`.
pub open spec fn all_loaded<T>(b: Seq<BucketModel<T>>, loaded: Set<u32>) -> bool {
    forall|i: int| 0 <= i < b.len() ==> loaded.contains(#[trigger] b[i].0)
}

/// When every material of a batch has its GPU data, the draws of the batch cover
/// each of its instances once: their ranges add up to the batch's instance
/// count. No draw of a batch binds a pipeline.
pub proof fn law_drawn_instances_match_batch<T>(b: Seq<BucketModel<T>>, loaded: Set<u32>, offset: nat)
    requires
        all_loaded(b, loaded),
        offset + batch_data(b).len() <= usize::MAX,
    ensures
        drawn_instances(bucket_draws(b, loaded, offset)) == batch_data(b).len(),
        pipeline_binds(bucket_draws(b, loaded, offset)) == 0,
    decreases b.len(),
{
    if b.len() > 0 {
        let next = offset + runs_data(b[0].1).len();
        assert(all_loaded(b.skip(1), loaded)) by {
            assert forall|i: int| 0 <= i < b.skip(1).len() implies loaded.contains(#[trigger] b.skip(1)[i].0) by {
                assert(b.skip(1)[i] == b[i + 1]);
            }
        }
        assert(loaded.contains(b[0].0));
        law_drawn_instances_match_batch(b.skip(1), loaded, next);
        lemma_run_draws_counts(b[0].1, offset);
        let bind = seq![DrawCommand::BindMaterial(b[0].0)];
        lemma_single_counts(DrawCommand::BindMaterial(b[0].0));
        lemma_counts_add(bind, run_draws(b[0].1, offset));
        lemma_counts_add(bind + run_draws(b[0].1, offset), bucket_draws(b.skip(1), loaded, next));
        assert(batch_data(b).len() == runs_data(b[0].1).len() + batch_data(b.skip(1)).len());
    } else {
        assert(bucket_draws(b, loaded, offset) =~= Seq::<DrawCommand>::empty());
        assert(batch_data(b) =~= Seq::<T>::empty());
    }
}

/// Whatever the batch, its draws bind no pipeline.
pub proof fn lemma_bucket_draws_bind_no_pipeline<T>(b: Seq<BucketModel<T>>, loaded: Set<u32>, offset: nat)
    ensures
        pipeline_binds(bucket_draws(b, loaded, offset)) == 0,
    decreases b.len(),
{
    if b.len() > 0 {
        let next = offset + runs_data(b[0].1).len();
        lemma_bucket_draws_bind_no_pipeline(b.skip(1), loaded, next);
        lemma_run_draws_bind_no_pipeline(b[0].1, offset);
        let bind = seq![DrawCommand::BindMaterial(b[0].0)];
        lemma_single_counts(DrawCommand::BindMaterial(b[0].0));
        lemma_counts_add(bind, run_draws(b[0].1, offset));
        if loaded.contains(b[0].0) {
            lemma_counts_add(bind + run_draws(b[0].1, offset), bucket_draws(b.skip(1), loaded, next));
        } else {
            lemma_counts_add(Seq::empty(), bucket_draws(b.skip(1), loaded, next));
            assert(pipeline_binds(Seq::<DrawCommand>::empty()) == 0);
        }
    } else {
        assert(bucket_draws(b, loaded, offset) =~= Seq::<DrawCommand>::empty());
    }
}

proof fn lemma_run_draws_bind_no_pipeline<T>(runs: Seq<RunModel<T>>, offset: nat)
    ensures
        pipeline_binds(run_draws(runs, offset)) == 0,
    decreases runs.len(),
{
    if runs.len() > 0 {
        let end = offset + runs[0].1.len();
        let d = seq![DrawCommand::Draw { mesh: runs[0].0, start: offset as usize, end: end as usize }];
        lemma_run_draws_bind_no_pipeline(runs.skip(1), end);
        lemma_counts_add(d, run_draws(runs.skip(1), end));
        lemma_single_counts(d[0]);
        assert(d =~= seq![d[0]]);
    } else {
        assert(run_draws(runs, offset) =~= Seq::<DrawCommand>::empty());
    }
}
} // verus!
