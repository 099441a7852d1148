//! Two-level batch containers: per-instance records grouped by material, then by mesh.
use vstd::prelude::*;

verus! {

/// The instances of one mesh inside a material bucket, drawn by one instanced call.
pub struct MeshRun<T> {
    pub mesh: u32,
    pub data: Vec<T>,
}

/// All mesh runs that share one material.
pub struct MaterialBucket<T> {
    pub material: u32,
    pub runs: Vec<MeshRun<T>>,
}

/// Abstract run: mesh id and its instances.
pub type RunModel<T> = (u32, Seq<T>);

/// Abstract bucket: material id and its runs, in order.
pub type BucketModel<T> = (u32, Seq<RunModel<T>>);

pub open spec fn run_model<T>(r: MeshRun<T>) -> RunModel<T> {
    (r.mesh, r.data@)
}

pub open spec fn runs_model<T>(runs: Seq<MeshRun<T>>) -> Seq<RunModel<T>> {
    runs.map_values(|r: MeshRun<T>| run_model(r))
}

pub open spec fn bucket_model<T>(b: MaterialBucket<T>) -> BucketModel<T> {
    (b.material, runs_model(b.runs@))
}

pub open spec fn buckets_model<T>(buckets: Seq<MaterialBucket<T>>) -> Seq<BucketModel<T>> {
    buckets.map_values(|b: MaterialBucket<T>| bucket_model(b))
}

/// The instances of a sequence of runs, concatenated in order.
pub open spec fn runs_data<T>(runs: Seq<RunModel<T>>) -> Seq<T>
    decreases runs.len(),
{
    if runs.len() == 0 {
        Seq::empty()
    } else {
        runs[0].1 + runs_data(runs.skip(1))
    }
}

/// The instances of a batch, bucket after bucket, run after run.
pub open spec fn batch_data<T>(b: Seq<BucketModel<T>>) -> Seq<T>
    decreases b.len(),
{
    if b.len() == 0 {
        Seq::empty()
    } else {
        runs_data(b[0].1) + batch_data(b.skip(1))
    }
}

/// Number of instances held by a batch.
pub open spec fn batch_total<T>(b: Seq<BucketModel<T>>) -> nat {
    batch_data(b).len()
}

/// Index of the first of `keys[0..bound]` equal to `key`, or -1 when there is none.
pub open spec fn first_key(keys: Seq<u32>, key: u32, bound: int) -> int
    decreases bound,
{
    if bound <= 0 {
        -1
    } else {
        let p = first_key(keys, key, bound - 1);
        if p >= 0 {
            p
        } else if keys[bound - 1] == key {
            bound - 1
        } else {
            -1
        }
    }
}

pub open spec fn run_keys<T>(runs: Seq<RunModel<T>>) -> Seq<u32> {
    runs.map_values(|r: RunModel<T>| r.0)
}

pub open spec fn bucket_keys<T>(b: Seq<BucketModel<T>>) -> Seq<u32> {
    b.map_values(|k: BucketModel<T>| k.0)
}

pub open spec fn min_nat(a: nat, b: nat) -> nat {
    if a < b { a } else { b }
}

/// Adds `d` under `mesh` to a bucket's runs: the first run of that mesh among the
/// first `limit` runs is extended, else a new run is appended.
pub open spec fn runs_insert<T>(runs: Seq<RunModel<T>>, limit: nat, mesh: u32, d: Seq<T>) -> Seq<RunModel<T>> {
    let j = first_key(run_keys(runs), mesh, min_nat(limit, runs.len()) as int);
    if j < 0 {
        runs.push((mesh, d))
    } else {
        runs.update(j, (mesh, runs[j].1 + d))
    }
}

/// Adds `d` under (`material`, `mesh`) to a batch, creating the bucket or run as needed.
pub open spec fn batch_insert<T>(b: Seq<BucketModel<T>>, limit: nat, material: u32, mesh: u32, d: Seq<T>) -> Seq<BucketModel<T>> {
    let i = first_key(bucket_keys(b), material, b.len() as int);
    if i < 0 {
        b.push((material, seq![(mesh, d)]))
    } else {
        b.update(i, (material, runs_insert(b[i].1, limit, mesh, d)))
    }
}

/// Every run emptied, buckets and runs kept.
pub open spec fn run_cleared<T>(r: RunModel<T>) -> RunModel<T> {
    (r.0, Seq::<T>::empty())
}

pub open spec fn bucket_cleared<T>(k: BucketModel<T>) -> BucketModel<T> {
    (k.0, k.1.map_values(|r: RunModel<T>| run_cleared(r)))
}

pub open spec fn batch_cleared<T>(b: Seq<BucketModel<T>>) -> Seq<BucketModel<T>> {
    b.map_values(|k: BucketModel<T>| bucket_cleared(k))
}

/// Every bucket kept, without runs.
pub open spec fn batch_runs_dropped<T>(b: Seq<BucketModel<T>>) -> Seq<BucketModel<T>> {
    b.map_values(|k: BucketModel<T>| (k.0, Seq::<RunModel<T>>::empty()))
}

/// The runs that hold at least one instance, in order.
pub open spec fn runs_pruned<T>(runs: Seq<RunModel<T>>) -> Seq<RunModel<T>>
    decreases runs.len(),
{
    if runs.len() == 0 {
        Seq::empty()
    } else if runs[0].1.len() > 0 {
        seq![runs[0]] + runs_pruned(runs.skip(1))
    } else {
        runs_pruned(runs.skip(1))
    }
}

/// Empty runs removed, then buckets left without runs removed.
pub open spec fn batch_pruned<T>(b: Seq<BucketModel<T>>) -> Seq<BucketModel<T>>
    decreases b.len(),
{
    if b.len() == 0 {
        Seq::empty()
    } else if runs_pruned(b[0].1).len() > 0 {
        seq![(b[0].0, runs_pruned(b[0].1))] + batch_pruned(b.skip(1))
    } else {
        batch_pruned(b.skip(1))
    }
}

/// No key occurs twice.
pub open spec fn keys_unique(keys: Seq<u32>) -> bool {
    forall|i: int, j: int| 0 <= i < j < keys.len() ==> keys[i] != keys[j]
}

/// One bucket per material and, when `all_runs` (every run is looked through on
/// insertion), one run per mesh in each bucket: a mesh's instances are contiguous.
pub open spec fn keys_distinct<T>(b: Seq<BucketModel<T>>, all_runs: bool) -> bool {
    &&& keys_unique(bucket_keys(b))
    &&& all_runs ==> forall|i: int| 0 <= i < b.len() ==> keys_unique(run_keys(#[trigger] b[i].1))
}

pub proof fn lemma_first_key(keys: Seq<u32>, key: u32, bound: int)
    requires
        0 <= bound <= keys.len(),
    ensures
        -1 <= first_key(keys, key, bound) < bound,
        first_key(keys, key, bound) == -1 ==> forall|j: int| 0 <= j < bound ==> keys[j] != key,
        first_key(keys, key, bound) >= 0 ==> keys[first_key(keys, key, bound)] == key,
        forall|j: int| 0 <= j < first_key(keys, key, bound) ==> keys[j] != key,
    decreases bound,
{
    if bound > 0 {
        lemma_first_key(keys, key, bound - 1);
    }
}

pub proof fn lemma_runs_data_add<T>(a: Seq<RunModel<T>>, b: Seq<RunModel<T>>)
    ensures
        runs_data(a + b) == runs_data(a) + runs_data(b),
    decreases a.len(),
{
    if a.len() == 0 {
        assert(a + b =~= b);
        assert(runs_data(a) + runs_data(b) =~= runs_data(b));
    } else {
        assert((a + b).skip(1) =~= a.skip(1) + b);
        lemma_runs_data_add(a.skip(1), b);
        assert((a + b)[0] == a[0]);
        assert(runs_data(a + b) =~= a[0].1 + (runs_data(a.skip(1)) + runs_data(b)));
    }
}

pub proof fn lemma_batch_data_add<T>(a: Seq<BucketModel<T>>, b: Seq<BucketModel<T>>)
    ensures
        batch_data(a + b) == batch_data(a) + batch_data(b),
    decreases a.len(),
{
    if a.len() == 0 {
        assert(a + b =~= b);
        assert(batch_data(a) + batch_data(b) =~= batch_data(b));
    } else {
        assert((a + b).skip(1) =~= a.skip(1) + b);
        lemma_batch_data_add(a.skip(1), b);
        assert((a + b)[0] == a[0]);
        assert(batch_data(a + b) =~= runs_data(a[0].1) + (batch_data(a.skip(1)) + batch_data(b)));
    }
}

pub proof fn lemma_runs_data_single<T>(r: RunModel<T>)
    ensures
        runs_data(seq![r]) == r.1,
{
    let e = Seq::<RunModel<T>>::empty();
    assert(seq![r].skip(1) =~= e);
    assert(runs_data(e) =~= Seq::<T>::empty());
    assert(seq![r][0] == r);
    assert(runs_data(seq![r]) == r.1 + runs_data(e));
    assert(r.1 + Seq::<T>::empty() =~= r.1);
}

pub proof fn lemma_batch_data_single<T>(k: BucketModel<T>)
    ensures
        batch_data(seq![k]) == runs_data(k.1),
{
    let e = Seq::<BucketModel<T>>::empty();
    assert(seq![k].skip(1) =~= e);
    assert(batch_data(e) =~= Seq::<T>::empty());
    assert(seq![k][0] == k);
    assert(batch_data(seq![k]) == runs_data(k.1) + batch_data(e));
    assert(runs_data(k.1) + Seq::<T>::empty() =~= runs_data(k.1));
}

/// Replacing one run changes the instance count by the difference of the two runs.
pub proof fn lemma_runs_data_update<T>(runs: Seq<RunModel<T>>, j: int, r: RunModel<T>)
    requires
        0 <= j < runs.len(),
    ensures
        runs_data(runs.update(j, r)).len() + runs[j].1.len() == runs_data(runs).len() + r.1.len(),
{
    let u = runs.update(j, r);
    assert(runs =~= runs.take(j) + seq![runs[j]] + runs.skip(j + 1));
    assert(u =~= runs.take(j) + seq![r] + runs.skip(j + 1));
    lemma_runs_data_add(runs.take(j) + seq![runs[j]], runs.skip(j + 1));
    lemma_runs_data_add(runs.take(j), seq![runs[j]]);
    lemma_runs_data_add(runs.take(j) + seq![r], runs.skip(j + 1));
    lemma_runs_data_add(runs.take(j), seq![r]);
    lemma_runs_data_single(runs[j]);
    lemma_runs_data_single(r);
}

/// Replacing one bucket changes the instance count by the difference of the two buckets.
pub proof fn lemma_batch_data_update<T>(b: Seq<BucketModel<T>>, i: int, k: BucketModel<T>)
    requires
        0 <= i < b.len(),
    ensures
        batch_data(b.update(i, k)).len() + runs_data(b[i].1).len() == batch_data(b).len() + runs_data(k.1).len(),
{
    let u = b.update(i, k);
    assert(b =~= b.take(i) + seq![b[i]] + b.skip(i + 1));
    assert(u =~= b.take(i) + seq![k] + b.skip(i + 1));
    lemma_batch_data_add(b.take(i) + seq![b[i]], b.skip(i + 1));
    lemma_batch_data_add(b.take(i), seq![b[i]]);
    lemma_batch_data_add(b.take(i) + seq![k], b.skip(i + 1));
    lemma_batch_data_add(b.take(i), seq![k]);
    lemma_batch_data_single(b[i]);
    lemma_batch_data_single(k);
}

/// Inserting `d` adds exactly `d.len()` instances, wherever they land.
pub proof fn lemma_insert_total<T>(b: Seq<BucketModel<T>>, limit: nat, material: u32, mesh: u32, d: Seq<T>)
    ensures
        batch_total(batch_insert(b, limit, material, mesh, d)) == batch_total(b) + d.len(),
{
    let i = first_key(bucket_keys(b), material, b.len() as int);
    lemma_first_key(bucket_keys(b), material, b.len() as int);
    if i < 0 {
        assert(b.push((material, seq![(mesh, d)])) =~= b + seq![(material, seq![(mesh, d)])]);
        lemma_batch_data_add(b, seq![(material, seq![(mesh, d)])]);
        lemma_batch_data_single((material, seq![(mesh, d)]));
        lemma_runs_data_single((mesh, d));
    } else {
        let runs = b[i].1;
        let bound = min_nat(limit, runs.len()) as int;
        let j = first_key(run_keys(runs), mesh, bound);
        lemma_first_key(run_keys(runs), mesh, bound);
        lemma_batch_data_update(b, i, (material, runs_insert(runs, limit, mesh, d)));
        if j < 0 {
            assert(runs.push((mesh, d)) =~= runs + seq![(mesh, d)]);
            lemma_runs_data_add(runs, seq![(mesh, d)]);
            lemma_runs_data_single((mesh, d));
        } else {
            lemma_runs_data_update(runs, j, (mesh, runs[j].1 + d));
        }
    }
}

proof fn lemma_push_unique(keys: Seq<u32>, k: u32)
    requires
        keys_unique(keys),
        forall|j: int| 0 <= j < keys.len() ==> keys[j] != k,
    ensures
        keys_unique(keys.push(k)),
{
    assert forall|a: int, b: int| 0 <= a < b < keys.push(k).len() implies keys.push(k)[a] != keys.push(k)[b] by {
        if b == keys.len() {
            assert(keys.push(k)[a] == keys[a]);
        } else {
            assert(keys.push(k)[a] == keys[a] && keys.push(k)[b] == keys[b]);
        }
    }
}

proof fn lemma_distinct_insert<T>(b: Seq<BucketModel<T>>, limit: nat, material: u32, mesh: u32, d: Seq<T>)
    requires
        keys_distinct(b, limit == usize::MAX),
        first_key(bucket_keys(b), material, b.len() as int) >= 0
            ==> b[first_key(bucket_keys(b), material, b.len() as int)].1.len() <= usize::MAX,
    ensures
        keys_distinct(batch_insert(b, limit, material, mesh, d), limit == usize::MAX),
{
    let f = limit == usize::MAX;
    let r = batch_insert(b, limit, material, mesh, d);
    let i = first_key(bucket_keys(b), material, b.len() as int);
    lemma_first_key(bucket_keys(b), material, b.len() as int);
    if i < 0 {
        assert(bucket_keys(r) =~= bucket_keys(b).push(material));
        lemma_push_unique(bucket_keys(b), material);
        assert forall|k: int| f && 0 <= k < r.len() implies keys_unique(run_keys(#[trigger] r[k].1)) by {
            if k < b.len() {
                assert(r[k] == b[k]);
            } else {
                assert(run_keys(r[k].1) =~= seq![mesh]);
            }
        }
    } else {
        let runs = b[i].1;
        let bound = min_nat(limit, runs.len()) as int;
        let j = first_key(run_keys(runs), mesh, bound);
        lemma_first_key(run_keys(runs), mesh, bound);
        assert(bucket_keys(r) =~= bucket_keys(b));
        let nr = runs_insert(runs, limit, mesh, d);
        assert forall|k: int| f && 0 <= k < r.len() implies keys_unique(run_keys(#[trigger] r[k].1)) by {
            if k != i {
                assert(r[k] == b[k]);
            } else {
                assert(keys_unique(run_keys(runs)));
                if j < 0 {
                    assert(bound == runs.len());
                    assert(run_keys(nr) =~= run_keys(runs).push(mesh));
                    lemma_push_unique(run_keys(runs), mesh);
                } else {
                    assert(run_keys(nr) =~= run_keys(runs));
                }
            }
        }
    }
}

proof fn lemma_distinct_cleared<T>(b: Seq<BucketModel<T>>, f: bool)
    requires
        keys_distinct(b, f),
    ensures
        keys_distinct(batch_cleared(b), f),
{
    let c = batch_cleared(b);
    assert(bucket_keys(c) =~= bucket_keys(b));
    assert forall|k: int| f && 0 <= k < c.len() implies keys_unique(run_keys(#[trigger] c[k].1)) by {
        assert(run_keys(c[k].1) =~= run_keys(b[k].1));
    }
}

proof fn lemma_distinct_runs_dropped<T>(b: Seq<BucketModel<T>>, f: bool)
    requires
        keys_distinct(b, f),
    ensures
        keys_distinct(batch_runs_dropped(b), f),
{
    let c = batch_runs_dropped(b);
    assert(bucket_keys(c) =~= bucket_keys(b));
    assert forall|k: int| f && 0 <= k < c.len() implies keys_unique(run_keys(#[trigger] c[k].1)) by {
        assert(run_keys(c[k].1) =~= Seq::<u32>::empty());
    }
}

proof fn lemma_runs_pruned_keys<T>(runs: Seq<RunModel<T>>)
    ensures
        forall|a: int| 0 <= a < runs_pruned(runs).len() ==> #[trigger] run_keys(runs).contains(runs_pruned(runs)[a].0),
        keys_unique(run_keys(runs)) ==> keys_unique(run_keys(runs_pruned(runs))),
    decreases runs.len(),
{
    if runs.len() > 0 {
        let rest = runs.skip(1);
        lemma_runs_pruned_keys(rest);
        let p = runs_pruned(rest);
        assert(run_keys(rest) =~= run_keys(runs).skip(1));
        assert forall|a: int| 0 <= a < p.len() implies #[trigger] run_keys(runs).contains(p[a].0) by {
            assert(run_keys(rest).contains(p[a].0));
            let w = choose|w: int| 0 <= w < run_keys(rest).len() && run_keys(rest)[w] == p[a].0;
            assert(run_keys(runs)[w + 1] == p[a].0);
        }
        if runs[0].1.len() > 0 {
            let q = seq![runs[0]] + p;
            assert forall|a: int| 0 <= a < q.len() implies #[trigger] run_keys(runs).contains(q[a].0) by {
                if a == 0 {
                    assert(run_keys(runs)[0] == q[0].0);
                } else {
                    assert(q[a] == p[a - 1]);
                }
            }
            if keys_unique(run_keys(runs)) {
                assert(keys_unique(run_keys(rest)));
                assert forall|a: int, c: int| 0 <= a < c < q.len() implies run_keys(q)[a] != run_keys(q)[c] by {
                    assert(run_keys(q)[a] == q[a].0 && run_keys(q)[c] == q[c].0);
                    if a == 0 {
                        assert(q[c] == p[c - 1]);
                        assert(run_keys(rest).contains(p[c - 1].0));
                        let w = choose|w: int| 0 <= w < run_keys(rest).len() && run_keys(rest)[w] == p[c - 1].0;
                        assert(run_keys(runs)[w + 1] == p[c - 1].0);
                        assert(run_keys(runs)[0] == runs[0].0);
                    } else {
                        assert(q[a] == p[a - 1] && q[c] == p[c - 1]);
                        assert(run_keys(p)[a - 1] == p[a - 1].0 && run_keys(p)[c - 1] == p[c - 1].0);
                        assert(run_keys(p)[a - 1] != run_keys(p)[c - 1]);
                    }
                }
            }
        } else if keys_unique(run_keys(runs)) {
            assert(keys_unique(run_keys(rest)));
        }
    }
}

proof fn lemma_batch_pruned_keys<T>(b: Seq<BucketModel<T>>, f: bool)
    requires
        keys_distinct(b, f),
    ensures
        keys_distinct(batch_pruned(b), f),
        forall|a: int| 0 <= a < batch_pruned(b).len() ==> #[trigger] bucket_keys(b).contains(batch_pruned(b)[a].0),
    decreases b.len(),
{
    if b.len() > 0 {
        let rest = b.skip(1);
        assert(bucket_keys(rest) =~= bucket_keys(b).skip(1));
        assert forall|k: int| f && 0 <= k < rest.len() implies keys_unique(run_keys(#[trigger] rest[k].1)) by {
            assert(rest[k] == b[k + 1]);
        }
        lemma_batch_pruned_keys(rest, f);
        let p = batch_pruned(rest);
        lemma_runs_pruned_keys(b[0].1);
        assert forall|a: int| 0 <= a < p.len() implies #[trigger] bucket_keys(b).contains(p[a].0) by {
            assert(bucket_keys(rest).contains(p[a].0));
            let w = choose|w: int| 0 <= w < bucket_keys(rest).len() && bucket_keys(rest)[w] == p[a].0;
            assert(bucket_keys(b)[w + 1] == p[a].0);
        }
        if runs_pruned(b[0].1).len() > 0 {
            let q = seq![(b[0].0, runs_pruned(b[0].1))] + p;
            assert forall|a: int| 0 <= a < q.len() implies #[trigger] bucket_keys(b).contains(q[a].0) by {
                if a == 0 {
                    assert(bucket_keys(b)[0] == q[0].0);
                } else {
                    assert(q[a] == p[a - 1]);
                }
            }
            assert forall|a: int, c: int| 0 <= a < c < q.len() implies bucket_keys(q)[a] != bucket_keys(q)[c] by {
                assert(bucket_keys(q)[a] == q[a].0 && bucket_keys(q)[c] == q[c].0);
                if a == 0 {
                    assert(q[c] == p[c - 1]);
                    assert(bucket_keys(rest).contains(p[c - 1].0));
                    let w = choose|w: int| 0 <= w < bucket_keys(rest).len() && bucket_keys(rest)[w] == p[c - 1].0;
                    assert(bucket_keys(b)[w + 1] == p[c - 1].0);
                    assert(bucket_keys(b)[0] == b[0].0);
                } else {
                    assert(q[a] == p[a - 1] && q[c] == p[c - 1]);
                    assert(bucket_keys(p)[a - 1] == p[a - 1].0 && bucket_keys(p)[c - 1] == p[c - 1].0);
                    assert(bucket_keys(p)[a - 1] != bucket_keys(p)[c - 1]);
                }
            }
            assert forall|k: int| f && 0 <= k < q.len() implies keys_unique(run_keys(#[trigger] q[k].1)) by {
                if k == 0 {
                    assert(keys_unique(run_keys(b[0].1)));
                } else {
                    assert(q[k] == p[k - 1]);
                }
            }
        }
    }
}

/// Per-instance records grouped by material, then by mesh. Buckets and runs are
/// kept in the order they were first created; a new record of a known
/// (material, mesh) pair joins the first run of that mesh found among the first
/// `scan_limit` runs of the bucket.
pub struct TwoLevelBatch<T> {
    buckets: Vec<MaterialBucket<T>>,
    scan_limit: usize,
    count: usize,
}

impl<T> View for TwoLevelBatch<T> {
    type V = Seq<BucketModel<T>>;

    closed spec fn view(&self) -> Seq<BucketModel<T>> {
        buckets_model(self.buckets@)
    }
}

impl<T> TwoLevelBatch<T> {
    pub closed spec fn limit(&self) -> nat {
        self.scan_limit as nat
    }

    pub closed spec fn wf(&self) -> bool {
        &&& self.count as nat == batch_total(self@)
        &&& keys_distinct(self@, self.scan_limit == usize::MAX)
    }

    /// Materials have one bucket each; with an unbounded scan, meshes one run each.
    pub proof fn lemma_keys_distinct(&self)
        requires
            self.wf(),
        ensures
            keys_distinct(self@, self.limit() == usize::MAX),
    {
    }

    /// An empty batch whose insertions look through every run of a bucket.
    pub fn new() -> (r: Self)
        ensures
            r.wf(),
            r@ == Seq::<BucketModel<T>>::empty(),
            r.limit() == usize::MAX,
    {
        let r = TwoLevelBatch { buckets: Vec::new(), scan_limit: usize::MAX, count: 0 };
        assert(r@ =~= Seq::<BucketModel<T>>::empty());
        r
    }

    /// An empty batch whose insertions look through at most `limit` runs of a bucket.
    pub fn with_scan_limit(limit: usize) -> (r: Self)
        ensures
            r.wf(),
            r@ == Seq::<BucketModel<T>>::empty(),
            r.limit() == limit,
    {
        let r = TwoLevelBatch { buckets: Vec::new(), scan_limit: limit, count: 0 };
        assert(r@ =~= Seq::<BucketModel<T>>::empty());
        r
    }

    pub proof fn lemma_total_fits(&self)
        requires
            self.wf(),
        ensures
            batch_total(self@) <= usize::MAX,
    {
    }

    /// Total number of instances held.
    pub fn count(&self) -> (r: usize)
        requires
            self.wf(),
        ensures
            r == batch_total(self@),
    {
        self.count
    }

    /// The buckets, in iteration order.
    pub fn buckets(&self) -> (r: &Vec<MaterialBucket<T>>)
        ensures
            buckets_model(r@) == self@,
    {
        &self.buckets
    }
}


impl<T> TwoLevelBatch<T> {
    proof fn lemma_keys(&self)
        ensures
            bucket_keys(self@).len() == self.buckets@.len(),
            forall|i: int| 0 <= i < self.buckets@.len() ==> #[trigger] bucket_keys(self@)[i] == self.buckets@[i].material,
            forall|i: int| 0 <= i < self.buckets@.len() ==> #[trigger] self@[i] == bucket_model(self.buckets@[i]),
    {
    }

    fn find_bucket(&self, material: u32) -> (r: Option<usize>)
        ensures
            r is None ==> first_key(bucket_keys(self@), material, self@.len() as int) == -1,
            r is Some ==> first_key(bucket_keys(self@), material, self@.len() as int) == r->0 as int,
    {
        proof {
            self.lemma_keys();
        }
        let n = self.buckets.len();
        let mut i: usize = 0;
        while i < n
            invariant
                i <= n,
                n == self.buckets@.len(),
                bucket_keys(self@).len() == n,
                forall|k: int| 0 <= k < n ==> #[trigger] bucket_keys(self@)[k] == self.buckets@[k].material,
                first_key(bucket_keys(self@), material, i as int) == -1,
            decreases n - i,
        {
            if self.buckets[i].material == material {
                assert(first_key(bucket_keys(self@), material, i + 1) == i);
                proof {
                    lemma_first_key_prefix(bucket_keys(self@), material, i + 1, n as int);
                }
                return Some(i);
            }
            i += 1;
        }
        None
    }

    /// Adds `data` under (`material`, `mesh`).
    pub fn insert(&mut self, material: u32, mesh: u32, data: Vec<T>)
        requires
            old(self).wf(),
            batch_total(old(self)@) + data@.len() <= usize::MAX,
        ensures
            final(self).wf(),
            final(self).limit() == old(self).limit(),
            final(self)@ == batch_insert(old(self)@, old(self).limit(), material, mesh, data@),
            batch_total(final(self)@) == batch_total(old(self)@) + data@.len(),
    {
        let ghost d = data@;
        let ghost before = self@;
        let mut data = data;
        let n = data.len();
        proof {
            lemma_insert_total(before, self.limit(), material, mesh, d);
            self.lemma_keys();
            lemma_first_key(bucket_keys(before), material, before.len() as int);
        }
        match self.find_bucket(material) {
            None => {
                let mut runs: Vec<MeshRun<T>> = Vec::new();
                runs.push(MeshRun { mesh, data });
                let bucket = MaterialBucket { material, runs };
                assert(runs_model(bucket.runs@) =~= seq![(mesh, d)]);
                self.buckets.push(bucket);
                assert(self@ =~= before.push((material, seq![(mesh, d)])));
                proof {
                    lemma_distinct_insert(before, self.limit(), material, mesh, d);
                }
            },
            Some(i) => {
                let bound = if self.scan_limit < self.buckets[i].runs.len() {
                    self.scan_limit
                } else {
                    self.buckets[i].runs.len()
                };
                let ghost runs = before[i as int].1;
                assert(runs == runs_model(self.buckets@[i as int].runs@));
                proof {
                    lemma_distinct_insert(before, self.limit(), material, mesh, d);
                }
                match find_run(&self.buckets[i].runs, mesh, bound) {
                    None => {
                        self.buckets[i].runs.push(MeshRun { mesh, data });
                        assert(runs_model(self.buckets@[i as int].runs@) =~= runs.push((mesh, d)));
                    },
                    Some(j) => {
                        proof {
                            lemma_first_key(run_keys(runs), mesh, bound as int);
                        }
                        self.buckets[i].runs[j].data.append(&mut data);
                        assert(runs_model(self.buckets@[i as int].runs@) =~= runs.update(j as int, (mesh, runs[j as int].1 + d)));
                    },
                }
                assert(self@ =~= before.update(i as int, (material, runs_insert(runs, self.limit(), mesh, d))));
            },
        }
        self.count = self.count + n;
    }
}

pub proof fn lemma_first_key_prefix(keys: Seq<u32>, key: u32, bound: int, n: int)
    requires
        0 <= bound <= n <= keys.len(),
        first_key(keys, key, bound) >= 0,
    ensures
        first_key(keys, key, n) == first_key(keys, key, bound),
    decreases n - bound,
{
    if n > bound {
        lemma_first_key_prefix(keys, key, bound, n - 1);
    }
}

fn find_run<T>(runs: &Vec<MeshRun<T>>, mesh: u32, bound: usize) -> (r: Option<usize>)
    requires
        bound <= runs@.len(),
    ensures
        r is None ==> first_key(run_keys(runs_model(runs@)), mesh, bound as int) == -1,
        r is Some ==> r->0 < bound && first_key(run_keys(runs_model(runs@)), mesh, bound as int) == r->0 as int,
{
    let ghost keys = run_keys(runs_model(runs@));
    assert(forall|k: int| 0 <= k < runs@.len() ==> #[trigger] keys[k] == runs@[k].mesh);
    let mut j: usize = 0;
    while j < bound
        invariant
            j <= bound,
            bound <= runs@.len(),
            keys.len() == runs@.len(),
            forall|k: int| 0 <= k < runs@.len() ==> #[trigger] keys[k] == runs@[k].mesh,
            first_key(keys, mesh, j as int) == -1,
        decreases bound - j,
    {
        if runs[j].mesh == mesh {
            assert(first_key(keys, mesh, j + 1) == j);
            proof {
                lemma_first_key_prefix(keys, mesh, j + 1, bound as int);
                assert(keys == run_keys(runs_model(runs@)));
            }
            return Some(j);
        }
        j += 1;
    }
    None
}

pub proof fn lemma_runs_data_cleared<T>(runs: Seq<RunModel<T>>)
    ensures
        runs_data(runs.map_values(|r: RunModel<T>| run_cleared(r))) =~= Seq::<T>::empty(),
    decreases runs.len(),
{
    let c = runs.map_values(|r: RunModel<T>| run_cleared(r));
    if runs.len() > 0 {
        assert(c.skip(1) =~= runs.skip(1).map_values(|r: RunModel<T>| run_cleared(r)));
        lemma_runs_data_cleared(runs.skip(1));
    }
}

pub proof fn lemma_batch_data_cleared<T>(b: Seq<BucketModel<T>>)
    ensures
        batch_data(batch_cleared(b)) =~= Seq::<T>::empty(),
    decreases b.len(),
{
    if b.len() > 0 {
        assert(batch_cleared(b).skip(1) =~= batch_cleared(b.skip(1)));
        lemma_batch_data_cleared(b.skip(1));
        lemma_runs_data_cleared(b[0].1);
    }
}

pub proof fn lemma_batch_data_runs_dropped<T>(b: Seq<BucketModel<T>>)
    ensures
        batch_data(batch_runs_dropped(b)) =~= Seq::<T>::empty(),
    decreases b.len(),
{
    if b.len() > 0 {
        assert(batch_runs_dropped(b).skip(1) =~= batch_runs_dropped(b.skip(1)));
        lemma_batch_data_runs_dropped(b.skip(1));
        assert(runs_data(Seq::<RunModel<T>>::empty()) =~= Seq::<T>::empty());
    }
}

pub proof fn lemma_runs_data_pruned<T>(runs: Seq<RunModel<T>>)
    ensures
        runs_data(runs_pruned(runs)) == runs_data(runs),
    decreases runs.len(),
{
    if runs.len() > 0 {
        lemma_runs_data_pruned(runs.skip(1));
        if runs[0].1.len() > 0 {
            lemma_runs_data_add(seq![runs[0]], runs_pruned(runs.skip(1)));
            lemma_runs_data_single(runs[0]);
        } else {
            assert(runs[0].1 =~= Seq::<T>::empty());
            assert(runs_data(runs) =~= runs_data(runs.skip(1)));
        }
    }
}

pub proof fn lemma_batch_data_pruned<T>(b: Seq<BucketModel<T>>)
    ensures
        batch_data(batch_pruned(b)) == batch_data(b),
    decreases b.len(),
{
    if b.len() > 0 {
        lemma_batch_data_pruned(b.skip(1));
        lemma_runs_data_pruned(b[0].1);
        if runs_pruned(b[0].1).len() > 0 {
            lemma_batch_data_add(seq![(b[0].0, runs_pruned(b[0].1))], batch_pruned(b.skip(1)));
            lemma_batch_data_single((b[0].0, runs_pruned(b[0].1)));
        } else {
            assert(runs_pruned(b[0].1) =~= Seq::<RunModel<T>>::empty());
            assert(runs_data(Seq::<RunModel<T>>::empty()) =~= Seq::<T>::empty());
            assert(batch_data(b) =~= batch_data(b.skip(1)));
        }
    }
}

proof fn lemma_runs_pruned_len<T>(runs: Seq<RunModel<T>>)
    ensures
        runs_pruned(runs).len() <= runs_data(runs).len(),
    decreases runs.len(),
{
    if runs.len() > 0 {
        lemma_runs_pruned_len(runs.skip(1));
    }
}

/// A pruned batch has no more buckets than instances.
pub proof fn lemma_pruned_len<T>(b: Seq<BucketModel<T>>)
    ensures
        batch_pruned(b).len() <= batch_total(b),
    decreases b.len(),
{
    if b.len() > 0 {
        lemma_pruned_len(b.skip(1));
        lemma_runs_pruned_len(b[0].1);
    }
}

pub proof fn lemma_runs_data_take<T>(runs: Seq<RunModel<T>>, j: int)
    requires
        0 <= j < runs.len(),
    ensures
        runs_data(runs.take(j + 1)) == runs_data(runs.take(j)) + runs[j].1,
{
    assert(runs.take(j + 1) =~= runs.take(j) + seq![runs[j]]);
    lemma_runs_data_add(runs.take(j), seq![runs[j]]);
    lemma_runs_data_single(runs[j]);
}

pub proof fn lemma_batch_data_take<T>(b: Seq<BucketModel<T>>, i: int)
    requires
        0 <= i < b.len(),
    ensures
        batch_data(b.take(i + 1)) == batch_data(b.take(i)) + runs_data(b[i].1),
{
    assert(b.take(i + 1) =~= b.take(i) + seq![b[i]]);
    lemma_batch_data_add(b.take(i), seq![b[i]]);
    lemma_batch_data_single(b[i]);
}

impl<T> TwoLevelBatch<T> {
    /// Empties every run, keeping buckets and runs for the next frame.
    pub fn clear_inner(&mut self)
        requires
            old(self).wf(),
        ensures
            final(self).wf(),
            final(self).limit() == old(self).limit(),
            final(self)@ == batch_cleared(old(self)@),
            batch_total(final(self)@) == 0,
    {
        let ghost before = self.buckets@;
        let n = self.buckets.len();
        let mut i: usize = 0;
        while i < n
            invariant
                i <= n,
                n == self.buckets@.len(),
                n == before.len(),
                forall|k: int| 0 <= k < i ==> #[trigger] bucket_model(self.buckets@[k]) == bucket_cleared(bucket_model(before[k])),
                forall|k: int| i <= k < n ==> #[trigger] self.buckets@[k] == before[k],
                self.scan_limit == old(self).scan_limit,
            decreases n - i,
        {
            let m = self.buckets[i].runs.len();
            let ghost rs = before[i as int].runs@;
            let mut j: usize = 0;
            while j < m
                invariant
                    i < n,
                    j <= m,
                    n == self.buckets@.len(),
                    n == before.len(),
                    m == rs.len(),
                    rs == before[i as int].runs@,
                    self.buckets@[i as int].material == before[i as int].material,
                    self.buckets@[i as int].runs@.len() == m,
                    forall|k: int| 0 <= k < j ==> #[trigger] run_model(self.buckets@[i as int].runs@[k]) == run_cleared(run_model(rs[k])),
                    forall|k: int| j <= k < m ==> #[trigger] self.buckets@[i as int].runs@[k] == rs[k],
                    forall|k: int| 0 <= k < i ==> #[trigger] bucket_model(self.buckets@[k]) == bucket_cleared(bucket_model(before[k])),
                    forall|k: int| i < k < n ==> #[trigger] self.buckets@[k] == before[k],
                    self.scan_limit == old(self).scan_limit,
                decreases m - j,
            {
                self.buckets[i].runs[j].data.clear();
                j += 1;
            }
            assert(runs_model(self.buckets@[i as int].runs@) =~= bucket_cleared(bucket_model(before[i as int])).1);
            i += 1;
        }
        assert(self@ =~= batch_cleared(buckets_model(before)));
        proof {
            lemma_batch_data_cleared(buckets_model(before));
            lemma_distinct_cleared(buckets_model(before), self.scan_limit == usize::MAX);
        }
        self.count = 0;
    }

    /// Removes every run, keeping the buckets.
    pub fn clear_runs(&mut self)
        requires
            old(self).wf(),
        ensures
            final(self).wf(),
            final(self).limit() == old(self).limit(),
            final(self)@ == batch_runs_dropped(old(self)@),
            batch_total(final(self)@) == 0,
    {
        let ghost before = self.buckets@;
        let n = self.buckets.len();
        let mut i: usize = 0;
        while i < n
            invariant
                i <= n,
                n == self.buckets@.len(),
                n == before.len(),
                forall|k: int| 0 <= k < i ==> #[trigger] bucket_model(self.buckets@[k]) == (before[k].material, Seq::<RunModel<T>>::empty()),
                forall|k: int| i <= k < n ==> #[trigger] self.buckets@[k] == before[k],
                self.scan_limit == old(self).scan_limit,
            decreases n - i,
        {
            self.buckets[i].runs.clear();
            assert(runs_model(self.buckets@[i as int].runs@) =~= Seq::<RunModel<T>>::empty());
            i += 1;
        }
        assert(self@ =~= batch_runs_dropped(buckets_model(before)));
        proof {
            lemma_batch_data_runs_dropped(buckets_model(before));
            lemma_distinct_runs_dropped(buckets_model(before), self.scan_limit == usize::MAX);
        }
        self.count = 0;
    }

    /// Removes the runs left empty, then the buckets left without runs.
    pub fn prune(&mut self)
        requires
            old(self).wf(),
        ensures
            final(self).wf(),
            final(self).limit() == old(self).limit(),
            final(self)@ == batch_pruned(old(self)@),
            batch_total(final(self)@) == batch_total(old(self)@),
    {
        let ghost before = self@;
        proof {
            lemma_batch_data_pruned(before);
            lemma_batch_pruned_keys(before, self.scan_limit == usize::MAX);
        }
        let mut i: usize = self.buckets.len();
        assert(before.skip(i as int) =~= Seq::<BucketModel<T>>::empty());
        assert(before.take(i as int) =~= before);
        while i > 0
            invariant
                i <= self.buckets@.len(),
                i <= before.len(),
                self@ == before.take(i as int) + batch_pruned(before.skip(i as int)),
                self.count == old(self).count,
                self.scan_limit == old(self).scan_limit,
            decreases i,
        {
            i -= 1;
            let ghost rs = before[i as int].1;
            let ghost mat = before[i as int].0;
            let ghost rest = batch_pruned(before.skip(i + 1));
            assert(self@[i as int] == before[i as int]);
            assert(self@.len() == self.buckets@.len());
            assert(self@ == before.take(i + 1) + rest);
            let mut j: usize = self.buckets[i].runs.len();
            assert(rs.skip(j as int) =~= Seq::<RunModel<T>>::empty());
            assert(rs.take(j as int) =~= rs);
            while j > 0
                invariant
                    i < self.buckets@.len(),
                    j <= rs.len(),
                    self.buckets@.len() == i + 1 + rest.len(),
                    self.buckets@[i as int].material == mat,
                    runs_model(self.buckets@[i as int].runs@) == rs.take(j as int) + runs_pruned(rs.skip(j as int)),
                    forall|k: int| 0 <= k < self.buckets@.len() && k != i ==> #[trigger] bucket_model(self.buckets@[k]) == (before.take(i + 1) + rest)[k],
                    self.count == old(self).count,
                    self.scan_limit == old(self).scan_limit,
                decreases j,
            {
                j -= 1;
                assert(runs_model(self.buckets@[i as int].runs@).len() == self.buckets@[i as int].runs@.len());
                assert(runs_model(self.buckets@[i as int].runs@)[j as int] == rs[j as int]);
                assert(rs.skip(j as int).skip(1) =~= rs.skip(j + 1));
                assert(rs.skip(j as int)[0] == rs[j as int]);
                if self.buckets[i].runs[j].data.len() == 0 {
                    let ghost pre = runs_model(self.buckets@[i as int].runs@);
                    self.buckets[i].runs.remove(j);
                    assert(runs_model(self.buckets@[i as int].runs@) =~= pre.remove(j as int));
                    assert(pre.remove(j as int) =~= rs.take(j as int) + runs_pruned(rs.skip(j as int)));
                } else {
                    assert(rs.take(j + 1) + runs_pruned(rs.skip(j + 1)) =~= rs.take(j as int) + runs_pruned(rs.skip(j as int)));
                }
            }
            assert(rs.take(0) + runs_pruned(rs.skip(0)) =~= runs_pruned(rs));
            assert(before.skip(i as int).skip(1) =~= before.skip(i + 1));
            assert(before.skip(i as int)[0] == before[i as int]);
            if self.buckets[i].runs.len() == 0 {
                let ghost pre = self@;
                self.buckets.remove(i);
                assert(self@ =~= pre.remove(i as int));
                assert(self@ =~= before.take(i as int) + batch_pruned(before.skip(i as int)));
            } else {
                assert(self@ =~= before.take(i as int) + batch_pruned(before.skip(i as int)));
            }
        }
        assert(before.skip(0) =~= before);
        assert(self@ =~= batch_pruned(before));
    }

    /// Every instance, bucket after bucket and run after run.
    pub fn data(&self) -> (r: Vec<T>)
        where
            T: Copy,
        ensures
            r@ == batch_data(self@),
    {
        flatten(&self.buckets)
    }
}

/// The instances of `buckets`, bucket after bucket and run after run.
pub fn flatten<T: Copy>(buckets: &Vec<MaterialBucket<T>>) -> (r: Vec<T>)
    ensures
        r@ == batch_data(buckets_model(buckets@)),
{
    let ghost b = buckets_model(buckets@);
    let mut r: Vec<T> = Vec::new();
    let n = buckets.len();
    let mut i: usize = 0;
    assert(b.take(0) =~= Seq::<BucketModel<T>>::empty());
    while i < n
        invariant
            i <= n,
            n == b.len(),
            n == buckets@.len(),
            b == buckets_model(buckets@),
            r@ == batch_data(b.take(i as int)),
        decreases n - i,
    {
        let m = buckets[i].runs.len();
        let ghost rs = b[i as int].1;
        assert(rs == runs_model(buckets@[i as int].runs@));
        let ghost start = r@;
        let mut j: usize = 0;
        assert(rs.take(0) =~= Seq::<RunModel<T>>::empty());
        assert(start + runs_data(rs.take(0)) =~= start);
        while j < m
            invariant
                i < n,
                j <= m,
                n == buckets@.len(),
                rs == runs_model(buckets@[i as int].runs@),
                b == buckets_model(buckets@),
                rs == b[i as int].1,
                m == rs.len(),
                r@ == start + runs_data(rs.take(j as int)),
            decreases m - j,
        {
            let len = buckets[i].runs[j].data.len();
            let ghost prefix = r@;
            let mut k: usize = 0;
            while k < len
                invariant
                    i < n,
                    j < m,
                    k <= len,
                    n == buckets@.len(),
                    m == buckets@[i as int].runs@.len(),
                    len == buckets@[i as int].runs@[j as int].data@.len(),
                    r@ == prefix + buckets@[i as int].runs@[j as int].data@.take(k as int),
                decreases len - k,
            {
                r.push(buckets[i].runs[j].data[k]);
                assert(buckets@[i as int].runs@[j as int].data@.take(k + 1) =~= buckets@[i as int].runs@[j as int].data@.take(k as int).push(buckets@[i as int].runs@[j as int].data@[k as int]));
                k += 1;
            }
            proof {
                lemma_runs_data_take(rs, j as int);
                assert(buckets@[i as int].runs@[j as int].data@.take(len as int) =~= rs[j as int].1);
            }
            assert(r@ =~= start + runs_data(rs.take(j + 1)));
            j += 1;
        }
        proof {
            lemma_batch_data_take(b, i as int);
            assert(rs.take(m as int) =~= rs);
        }
        assert(r@ =~= batch_data(b.take(i + 1)));
        i += 1;
    }
    assert(b.take(n as int) =~= b);
    r
}


/// One insertion: material id, mesh id and the records inserted.
pub type Insertion<T> = (u32, u32, Seq<T>);

/// A batch after `ops`, applied in order, with look-up bound `limit`.
pub open spec fn insert_all<T>(b: Seq<BucketModel<T>>, limit: nat, ops: Seq<Insertion<T>>) -> Seq<BucketModel<T>>
    decreases ops.len(),
{
    if ops.len() == 0 {
        b
    } else {
        let o = ops.last();
        batch_insert(insert_all(b, limit, ops.drop_last()), limit, o.0, o.1, o.2)
    }
}

/// The records of `ops`, concatenated in order.
pub open spec fn insertions_data<T>(ops: Seq<Insertion<T>>) -> Seq<T>
    decreases ops.len(),
{
    if ops.len() == 0 {
        Seq::empty()
    } else {
        insertions_data(ops.drop_last()) + ops.last().2
    }
}

/// Whatever the insertions, an unordered batch started empty counts exactly the
/// records inserted, and its flattened data has that many records.
pub proof fn law_count_is_total_inserted<T>(limit: nat, ops: Seq<Insertion<T>>)
    ensures
        batch_total(insert_all(Seq::empty(), limit, ops)) == insertions_data(ops).len(),
        batch_data(insert_all(Seq::empty(), limit, ops)).len() == batch_total(insert_all(Seq::empty(), limit, ops)),
    decreases ops.len(),
{
    if ops.len() == 0 {
        assert(batch_data(Seq::<BucketModel<T>>::empty()) =~= Seq::<T>::empty());
    } else {
        let o = ops.last();
        law_count_is_total_inserted(limit, ops.drop_last());
        lemma_insert_total(insert_all(Seq::empty(), limit, ops.drop_last()), limit, o.0, o.1, o.2);
    }
}

/// Clearing and then pruning with nothing inserted in between leaves no bucket
/// and no record.
pub proof fn law_prune_after_clear_is_empty<T>(b: Seq<BucketModel<T>>)
    ensures
        batch_pruned(batch_cleared(b)) == Seq::<BucketModel<T>>::empty(),
        batch_total(batch_pruned(batch_cleared(b))) == 0,
    decreases b.len(),
{
    if b.len() > 0 {
        assert(batch_cleared(b).skip(1) =~= batch_cleared(b.skip(1)));
        law_prune_after_clear_is_empty(b.skip(1));
        lemma_runs_pruned_cleared(b[0].1);
    }
    assert(batch_data(Seq::<BucketModel<T>>::empty()) =~= Seq::<T>::empty());
}

proof fn lemma_runs_pruned_cleared<T>(runs: Seq<RunModel<T>>)
    ensures
        runs_pruned(runs.map_values(|r: RunModel<T>| run_cleared(r))) == Seq::<RunModel<T>>::empty(),
    decreases runs.len(),
{
    let c = runs.map_values(|r: RunModel<T>| run_cleared(r));
    if runs.len() > 0 {
        assert(c.skip(1) =~= runs.skip(1).map_values(|r: RunModel<T>| run_cleared(r)));
        lemma_runs_pruned_cleared(runs.skip(1));
    }
}

/// Every run of `b` that holds instances is keyed by a mesh of `meshes`.
pub open spec fn filled_runs_within<T>(b: Seq<BucketModel<T>>, meshes: Set<u32>) -> bool {
    forall|i: int, j: int| 0 <= i < b.len() && 0 <= j < b[i].1.len() && (#[trigger] b[i].1[j]).1.len() > 0
        ==> meshes.contains(b[i].1[j].0)
}

/// Every insertion of `ops` is keyed by a mesh of `meshes`.
pub open spec fn ops_within<T>(ops: Seq<Insertion<T>>, meshes: Set<u32>) -> bool {
    forall|k: int| 0 <= k < ops.len() ==> meshes.contains(#[trigger] ops[k].1)
}

proof fn lemma_insert_within<T>(b: Seq<BucketModel<T>>, limit: nat, material: u32, mesh: u32, d: Seq<T>, meshes: Set<u32>)
    requires
        filled_runs_within(b, meshes),
        meshes.contains(mesh),
    ensures
        filled_runs_within(batch_insert(b, limit, material, mesh, d), meshes),
{
    let r = batch_insert(b, limit, material, mesh, d);
    let i = first_key(bucket_keys(b), material, b.len() as int);
    lemma_first_key(bucket_keys(b), material, b.len() as int);
    assert forall|x: int, y: int| 0 <= x < r.len() && 0 <= y < r[x].1.len() && (#[trigger] r[x].1[y]).1.len() > 0
        implies meshes.contains(r[x].1[y].0) by {
        if i < 0 {
            if x < b.len() {
                assert(r[x] == b[x]);
                assert(b[x].1[y] == r[x].1[y]);
            }
        } else if x != i {
            assert(r[x] == b[x]);
            assert(b[x].1[y] == r[x].1[y]);
        } else {
            let runs = b[i].1;
            let bound = min_nat(limit, runs.len()) as int;
            let j = first_key(run_keys(runs), mesh, bound);
            lemma_first_key(run_keys(runs), mesh, bound);
            if y < runs.len() && y != j {
                assert(r[x].1[y] == runs[y]);
                assert(b[i].1[y] == runs[y]);
            }
        }
    }
}

/// Insertions keyed by meshes of `meshes` fill only runs keyed by those meshes.
pub proof fn lemma_insert_all_within<T>(b: Seq<BucketModel<T>>, limit: nat, ops: Seq<Insertion<T>>, meshes: Set<u32>)
    requires
        filled_runs_within(b, meshes),
        ops_within(ops, meshes),
    ensures
        filled_runs_within(insert_all(b, limit, ops), meshes),
    decreases ops.len(),
{
    if ops.len() > 0 {
        assert(ops_within(ops.drop_last(), meshes)) by {
            assert forall|k: int| 0 <= k < ops.drop_last().len() implies meshes.contains(#[trigger] ops.drop_last()[k].1) by {
                assert(ops.drop_last()[k] == ops[k]);
            }
        }
        lemma_insert_all_within(b, limit, ops.drop_last(), meshes);
        assert(meshes.contains(ops[ops.len() - 1].1));
        lemma_insert_within(insert_all(b, limit, ops.drop_last()), limit, ops.last().0, ops.last().1, ops.last().2, meshes);
    }
}

/// A cleared batch has no filled run.
pub proof fn lemma_cleared_within<T>(b: Seq<BucketModel<T>>, meshes: Set<u32>)
    ensures
        filled_runs_within(batch_cleared(b), meshes),
{
}

proof fn lemma_runs_pruned_within<T>(runs: Seq<RunModel<T>>, meshes: Set<u32>)
    requires
        forall|j: int| 0 <= j < runs.len() && (#[trigger] runs[j]).1.len() > 0 ==> meshes.contains(runs[j].0),
    ensures
        forall|j: int| 0 <= j < runs_pruned(runs).len() ==> meshes.contains(#[trigger] runs_pruned(runs)[j].0),
    decreases runs.len(),
{
    if runs.len() > 0 {
        let rest = runs.skip(1);
        assert forall|j: int| 0 <= j < rest.len() && (#[trigger] rest[j]).1.len() > 0 implies meshes.contains(rest[j].0) by {
            assert(rest[j] == runs[j + 1]);
        }
        lemma_runs_pruned_within(rest, meshes);
        let p = runs_pruned(rest);
        if runs[0].1.len() > 0 {
            let q = seq![runs[0]] + p;
            assert forall|j: int| 0 <= j < q.len() implies meshes.contains(#[trigger] q[j].0) by {
                if j > 0 {
                    assert(q[j] == p[j - 1]);
                }
            }
        }
    }
}

/// Pruning keeps only filled runs, so afterwards every run is keyed by a mesh of
/// `meshes` when every filled run was before.
pub proof fn lemma_pruned_within<T>(b: Seq<BucketModel<T>>, meshes: Set<u32>)
    requires
        filled_runs_within(b, meshes),
    ensures
        forall|i: int, j: int| 0 <= i < batch_pruned(b).len() && 0 <= j < batch_pruned(b)[i].1.len()
            ==> meshes.contains(#[trigger] batch_pruned(b)[i].1[j].0),
    decreases b.len(),
{
    if b.len() > 0 {
        let rest = b.skip(1);
        assert(filled_runs_within(rest, meshes)) by {
            assert forall|i: int, j: int| 0 <= i < rest.len() && 0 <= j < rest[i].1.len() && (#[trigger] rest[i].1[j]).1.len() > 0
                implies meshes.contains(rest[i].1[j].0) by {
                assert(rest[i] == b[i + 1]);
                assert(b[i + 1].1[j] == rest[i].1[j]);
            }
        }
        lemma_pruned_within(rest, meshes);
        assert forall|j: int| 0 <= j < b[0].1.len() && (#[trigger] b[0].1[j]).1.len() > 0 implies meshes.contains(b[0].1[j].0) by {
            assert(b[0].1[j] == b[0].1[j]);
        }
        lemma_runs_pruned_within(b[0].1, meshes);
        let p = batch_pruned(rest);
        if runs_pruned(b[0].1).len() > 0 {
            let q = seq![(b[0].0, runs_pruned(b[0].1))] + p;
            assert forall|i: int, j: int| 0 <= i < q.len() && 0 <= j < q[i].1.len() implies meshes.contains(#[trigger] q[i].1[j].0) by {
                if i > 0 {
                    assert(q[i] == p[i - 1]);
                    assert(p[i - 1].1[j] == q[i].1[j]);
                } else {
                    assert(q[0].1 == runs_pruned(b[0].1));
                }
            }
        }
    }
}

/// Every record of `b`, with the mesh of its run, satisfies `p`.
pub open spec fn records_within<T>(b: Seq<BucketModel<T>>, p: spec_fn(u32, T) -> bool) -> bool {
    forall|i: int, j: int, k: int| 0 <= i < b.len() && 0 <= j < b[i].1.len() && 0 <= k < b[i].1[j].1.len()
        ==> p(b[i].1[j].0, #[trigger] b[i].1[j].1[k])
}

/// Every record of `ops`, with the mesh it is inserted under, satisfies `p`.
pub open spec fn ops_records_within<T>(ops: Seq<Insertion<T>>, p: spec_fn(u32, T) -> bool) -> bool {
    forall|k: int, x: int| 0 <= k < ops.len() && 0 <= x < ops[k].2.len() ==> p(ops[k].1, #[trigger] ops[k].2[x])
}

proof fn lemma_insert_records<T>(b: Seq<BucketModel<T>>, limit: nat, material: u32, mesh: u32, d: Seq<T>, p: spec_fn(u32, T) -> bool)
    requires
        records_within(b, p),
        forall|x: int| 0 <= x < d.len() ==> p(mesh, #[trigger] d[x]),
    ensures
        records_within(batch_insert(b, limit, material, mesh, d), p),
{
    let r = batch_insert(b, limit, material, mesh, d);
    let i = first_key(bucket_keys(b), material, b.len() as int);
    lemma_first_key(bucket_keys(b), material, b.len() as int);
    assert forall|x: int, y: int, z: int| 0 <= x < r.len() && 0 <= y < r[x].1.len() && 0 <= z < r[x].1[y].1.len()
        implies p(r[x].1[y].0, #[trigger] r[x].1[y].1[z]) by {
        if i < 0 {
            if x < b.len() {
                assert(r[x] == b[x]);
                assert(b[x].1[y].1[z] == r[x].1[y].1[z]);
            } else {
                assert(r[x].1[y] == (mesh, d));
            }
        } else if x != i {
            assert(r[x] == b[x]);
            assert(b[x].1[y].1[z] == r[x].1[y].1[z]);
        } else {
            let runs = b[i].1;
            let bound = min_nat(limit, runs.len()) as int;
            let j = first_key(run_keys(runs), mesh, bound);
            lemma_first_key(run_keys(runs), mesh, bound);
            if y < runs.len() && y != j {
                assert(r[x].1[y] == runs[y]);
                assert(b[i].1[y].1[z] == r[x].1[y].1[z]);
            } else if y == j {
                assert(run_keys(runs)[j] == runs[j].0);
                if z < runs[j].1.len() {
                    assert(r[x].1[y].1[z] == runs[j].1[z]);
                    assert(b[i].1[j].1[z] == runs[j].1[z]);
                } else {
                    assert(r[x].1[y].1[z] == d[z - runs[j].1.len()]);
                }
            } else {
                assert(r[x].1[y] == (mesh, d));
            }
        }
    }
}

/// Insertions whose records satisfy `p` keep every record of a batch within `p`.
pub proof fn lemma_insert_all_records<T>(b: Seq<BucketModel<T>>, limit: nat, ops: Seq<Insertion<T>>, p: spec_fn(u32, T) -> bool)
    requires
        records_within(b, p),
        ops_records_within(ops, p),
    ensures
        records_within(insert_all(b, limit, ops), p),
    decreases ops.len(),
{
    if ops.len() > 0 {
        assert(ops_records_within(ops.drop_last(), p)) by {
            assert forall|k: int, x: int| 0 <= k < ops.drop_last().len() && 0 <= x < ops.drop_last()[k].2.len()
                implies p(ops.drop_last()[k].1, #[trigger] ops.drop_last()[k].2[x]) by {
                assert(ops.drop_last()[k] == ops[k]);
            }
        }
        lemma_insert_all_records(b, limit, ops.drop_last(), p);
        let o = ops.last();
        assert forall|x: int| 0 <= x < o.2.len() implies p(o.1, #[trigger] o.2[x]) by {
            assert(ops[ops.len() - 1].2[x] == o.2[x]);
        }
        lemma_insert_records(insert_all(b, limit, ops.drop_last()), limit, o.0, o.1, o.2, p);
    }
}

/// A cleared batch holds no record.
pub proof fn lemma_cleared_records<T>(b: Seq<BucketModel<T>>, p: spec_fn(u32, T) -> bool)
    ensures
        records_within(batch_cleared(b), p),
{
}

proof fn lemma_runs_pruned_records<T>(runs: Seq<RunModel<T>>, p: spec_fn(u32, T) -> bool)
    requires
        forall|j: int, k: int| 0 <= j < runs.len() && 0 <= k < runs[j].1.len() ==> p(runs[j].0, #[trigger] runs[j].1[k]),
    ensures
        forall|j: int, k: int| 0 <= j < runs_pruned(runs).len() && 0 <= k < runs_pruned(runs)[j].1.len()
            ==> p(runs_pruned(runs)[j].0, #[trigger] runs_pruned(runs)[j].1[k]),
    decreases runs.len(),
{
    if runs.len() > 0 {
        let rest = runs.skip(1);
        assert forall|j: int, k: int| 0 <= j < rest.len() && 0 <= k < rest[j].1.len() implies p(rest[j].0, #[trigger] rest[j].1[k]) by {
            assert(rest[j] == runs[j + 1]);
            assert(runs[j + 1].1[k] == rest[j].1[k]);
        }
        lemma_runs_pruned_records(rest, p);
        let q0 = runs_pruned(rest);
        if runs[0].1.len() > 0 {
            let q = seq![runs[0]] + q0;
            assert forall|j: int, k: int| 0 <= j < q.len() && 0 <= k < q[j].1.len() implies p(q[j].0, #[trigger] q[j].1[k]) by {
                if j > 0 {
                    assert(q[j] == q0[j - 1]);
                    assert(q0[j - 1].1[k] == q[j].1[k]);
                } else {
                    assert(runs[0].1[k] == q[j].1[k]);
                }
            }
        }
    }
}

/// Pruning keeps every record of a batch within `p`.
pub proof fn lemma_pruned_records<T>(b: Seq<BucketModel<T>>, p: spec_fn(u32, T) -> bool)
    requires
        records_within(b, p),
    ensures
        records_within(batch_pruned(b), p),
    decreases b.len(),
{
    if b.len() > 0 {
        let rest = b.skip(1);
        assert(records_within(rest, p)) by {
            assert forall|i: int, j: int, k: int| 0 <= i < rest.len() && 0 <= j < rest[i].1.len() && 0 <= k < rest[i].1[j].1.len()
                implies p(rest[i].1[j].0, #[trigger] rest[i].1[j].1[k]) by {
                assert(rest[i] == b[i + 1]);
                assert(b[i + 1].1[j].1[k] == rest[i].1[j].1[k]);
            }
        }
        lemma_pruned_records(rest, p);
        assert forall|j: int, k: int| 0 <= j < b[0].1.len() && 0 <= k < b[0].1[j].1.len() implies p(b[0].1[j].0, #[trigger] b[0].1[j].1[k]) by {
            assert(b[0].1[j].1[k] == b[0].1[j].1[k]);
        }
        lemma_runs_pruned_records(b[0].1, p);
        let q0 = batch_pruned(rest);
        if runs_pruned(b[0].1).len() > 0 {
            let q = seq![(b[0].0, runs_pruned(b[0].1))] + q0;
            assert forall|i: int, j: int, k: int| 0 <= i < q.len() && 0 <= j < q[i].1.len() && 0 <= k < q[i].1[j].1.len()
                implies p(q[i].1[j].0, #[trigger] q[i].1[j].1[k]) by {
                if i > 0 {
                    assert(q[i] == q0[i - 1]);
                    assert(q0[i - 1].1[j].1[k] == q[i].1[j].1[k]);
                } else {
                    assert(runs_pruned(b[0].1)[j].1[k] == q[i].1[j].1[k]);
                }
            }
        }
    }
}
} // verus!
