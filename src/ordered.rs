//! A two-level batch that keeps the order of insertion, for passes whose draw
//! order is given from outside (back-to-front transparency).
use vstd::prelude::*;
use crate::batch::{
    batch_data, batch_total, bucket_model, buckets_model, flatten, lemma_batch_data_add,
    lemma_batch_data_single, lemma_runs_data_add, lemma_runs_data_single, run_model, runs_data,
    runs_model, insertions_data, filled_runs_within, ops_within, BucketModel, Insertion, MaterialBucket,
    MeshRun, RunModel,
};

verus! {

/// Shape of a run: mesh id and instance count.
pub type RunShape = (u32, nat);

/// Shape of a bucket: material id and the shapes of its runs.
pub type BucketShape = (u32, Seq<RunShape>);

pub open spec fn run_shape<T>(r: RunModel<T>) -> RunShape {
    (r.0, r.1.len())
}

pub open spec fn bucket_shape<T>(k: BucketModel<T>) -> BucketShape {
    (k.0, k.1.map_values(|r: RunModel<T>| run_shape(r)))
}

/// What a frame's batch looks like to the draw calls: materials, meshes and
/// instance counts, without the instance records themselves.
pub open spec fn batch_shape<T>(b: Seq<BucketModel<T>>) -> Seq<BucketShape> {
    b.map_values(|k: BucketModel<T>| bucket_shape(k))
}

/// Appends `d` under (`material`, `mesh`): it joins the last run when both keys
/// match the last insertion, else opens a new run in the last bucket when only the
/// material matches, else opens a new bucket.
pub open spec fn ordered_insert<T>(b: Seq<BucketModel<T>>, material: u32, mesh: u32, d: Seq<T>) -> Seq<BucketModel<T>> {
    if b.len() > 0 && b.last().0 == material {
        let runs = b.last().1;
        if runs.len() > 0 && runs.last().0 == mesh {
            b.update(b.len() - 1, (material, runs.update(runs.len() - 1, (mesh, runs.last().1 + d))))
        } else {
            b.update(b.len() - 1, (material, runs.push((mesh, d))))
        }
    } else {
        b.push((material, seq![(mesh, d)]))
    }
}

/// Neighbouring buckets hold different materials and neighbouring runs
/// different meshes, so each group of equal keys is one contiguous run.
pub open spec fn neighbours_differ<T>(b: Seq<BucketModel<T>>) -> bool {
    &&& forall|i: int| 0 < i < b.len() ==> #[trigger] b[i].0 != b[i - 1].0
    &&& forall|i: int, j: int| 0 <= i < b.len() && 0 < j < b[i].1.len() ==> #[trigger] b[i].1[j].0 != b[i].1[j - 1].0
}

/// An ordered insertion appends its records after all earlier ones.
pub proof fn lemma_ordered_insert_data<T>(b: Seq<BucketModel<T>>, material: u32, mesh: u32, d: Seq<T>)
    ensures
        batch_data(ordered_insert(b, material, mesh, d)) == batch_data(b) + d,
{
    let r = ordered_insert(b, material, mesh, d);
    if b.len() > 0 && b.last().0 == material {
        let n = b.len() - 1;
        let runs = b.last().1;
        let runs2 = r.last().1;
        assert(b =~= b.take(n) + seq![b.last()]);
        assert(r =~= b.take(n) + seq![(material, runs2)]);
        lemma_batch_data_add(b.take(n), seq![b.last()]);
        lemma_batch_data_add(b.take(n), seq![(material, runs2)]);
        lemma_batch_data_single(b.last());
        lemma_batch_data_single((material, runs2));
        if runs.len() > 0 && runs.last().0 == mesh {
            let m = runs.len() - 1;
            assert(runs =~= runs.take(m) + seq![runs.last()]);
            assert(runs2 =~= runs.take(m) + seq![(mesh, runs.last().1 + d)]);
            lemma_runs_data_add(runs.take(m), seq![runs.last()]);
            lemma_runs_data_add(runs.take(m), seq![(mesh, runs.last().1 + d)]);
            lemma_runs_data_single(runs.last());
            lemma_runs_data_single((mesh, runs.last().1 + d));
        } else {
            assert(runs2 =~= runs + seq![(mesh, d)]);
            lemma_runs_data_add(runs, seq![(mesh, d)]);
            lemma_runs_data_single((mesh, d));
        }
        assert(batch_data(r) =~= batch_data(b) + d);
    } else {
        assert(r =~= b + seq![(material, seq![(mesh, d)])]);
        lemma_batch_data_add(b, seq![(material, seq![(mesh, d)])]);
        lemma_batch_data_single((material, seq![(mesh, d)]));
        lemma_runs_data_single((mesh, d));
    }
}

/// The stored shape of one bucket of an earlier frame.
pub struct ShapeEntry {
    pub material: u32,
    pub runs: Vec<(u32, usize)>,
}

pub open spec fn shape_entry_model(e: ShapeEntry) -> BucketShape {
    (e.material, e.runs@.map_values(|p: (u32, usize)| (p.0, p.1 as nat)))
}

pub open spec fn shapes_model(v: Seq<ShapeEntry>) -> Seq<BucketShape> {
    v.map_values(|e: ShapeEntry| shape_entry_model(e))
}

/// Per-instance records grouped by material, then by mesh, in insertion order,
/// together with the shape of the previous frame for change detection.
pub struct OrderedTwoLevelBatch<T> {
    buckets: Vec<MaterialBucket<T>>,
    previous: Vec<ShapeEntry>,
    count: usize,
}

impl<T> View for OrderedTwoLevelBatch<T> {
    type V = Seq<BucketModel<T>>;

    closed spec fn view(&self) -> Seq<BucketModel<T>> {
        buckets_model(self.buckets@)
    }
}

impl<T> OrderedTwoLevelBatch<T> {
    /// Shape of the batch as it stood at the last `swap_clear`.
    pub closed spec fn previous(&self) -> Seq<BucketShape> {
        shapes_model(self.previous@)
    }

    pub closed spec fn wf(&self) -> bool {
        &&& self.count as nat == batch_total(self@)
        &&& neighbours_differ(self@)
    }

    /// An empty batch with an empty previous frame.
    pub fn new() -> (r: Self)
        ensures
            r.wf(),
            r@ == Seq::<BucketModel<T>>::empty(),
            r.previous() == Seq::<BucketShape>::empty(),
    {
        let r = OrderedTwoLevelBatch { buckets: Vec::new(), previous: Vec::new(), count: 0 };
        assert(r@ =~= Seq::<BucketModel<T>>::empty());
        assert(r.previous() =~= Seq::<BucketShape>::empty());
        assert(batch_data(r@) =~= Seq::<T>::empty());
        r
    }

    /// Neighbouring buckets hold different materials and neighbouring runs
    /// different meshes.
    pub proof fn lemma_neighbours_differ(&self)
        requires
            self.wf(),
        ensures
            neighbours_differ(self@),
    {
    }

    pub proof fn lemma_total_fits(&self)
        requires
            self.wf(),
        ensures
            batch_total(self@) <= usize::MAX,
    {
    }

    /// Total number of instances held.
    pub fn count(&self) -> (r: usize)
        requires
            self.wf(),
        ensures
            r == batch_total(self@),
    {
        self.count
    }

    /// The buckets, in insertion order.
    pub fn buckets(&self) -> (r: &Vec<MaterialBucket<T>>)
        ensures
            buckets_model(r@) == self@,
    {
        &self.buckets
    }

    /// Every instance, in insertion order.
    pub fn data(&self) -> (r: Vec<T>)
        where
            T: Copy,
        ensures
            r@ == batch_data(self@),
    {
        flatten(&self.buckets)
    }
}


impl<T> OrderedTwoLevelBatch<T> {
    /// Appends `data` under (`material`, `mesh`) after everything inserted so far.
    pub fn insert(&mut self, material: u32, mesh: u32, data: Vec<T>)
        requires
            old(self).wf(),
            batch_total(old(self)@) + data@.len() <= usize::MAX,
        ensures
            final(self).wf(),
            final(self).previous() == old(self).previous(),
            final(self)@ == ordered_insert(old(self)@, material, mesh, data@),
            batch_total(final(self)@) == batch_total(old(self)@) + data@.len(),
    {
        let ghost d = data@;
        let ghost before = self@;
        let mut data = data;
        let len = data.len();
        proof {
            lemma_ordered_insert_data(before, material, mesh, d);
        }
        let n = self.buckets.len();
        if n > 0 && self.buckets[n - 1].material == material {
            assert(before.last() == bucket_model(self.buckets@[n - 1]));
            let ghost runs = before.last().1;
            let m = self.buckets[n - 1].runs.len();
            if m > 0 && self.buckets[n - 1].runs[m - 1].mesh == mesh {
                assert(runs.last() == run_model(self.buckets@[n - 1].runs@[m - 1]));
                self.buckets[n - 1].runs[m - 1].data.append(&mut data);
                assert(runs_model(self.buckets@[n - 1].runs@) =~= runs.update(runs.len() - 1, (mesh, runs.last().1 + d)));
            } else {
                self.buckets[n - 1].runs.push(MeshRun { mesh, data });
                assert(runs_model(self.buckets@[n - 1].runs@) =~= runs.push((mesh, d)));
            }
        } else {
            let mut runs: Vec<MeshRun<T>> = Vec::new();
            runs.push(MeshRun { mesh, data });
            let bucket = MaterialBucket { material, runs };
            assert(runs_model(bucket.runs@) =~= seq![(mesh, d)]);
            self.buckets.push(bucket);
        }
        assert(self@ =~= ordered_insert(before, material, mesh, d));
        self.count = self.count + len;
    }
}

impl<T> OrderedTwoLevelBatch<T> {
    /// Starts a new frame: the current shape becomes the previous one and the
    /// batch is emptied.
    pub fn swap_clear(&mut self)
        requires
            old(self).wf(),
        ensures
            final(self).wf(),
            final(self)@ == Seq::<BucketModel<T>>::empty(),
            final(self).previous() == batch_shape(old(self)@),
            batch_total(final(self)@) == 0,
    {
        let ghost b = self@;
        let mut shapes: Vec<ShapeEntry> = Vec::new();
        let n = self.buckets.len();
        let mut i: usize = 0;
        while i < n
            invariant
                i <= n,
                n == self.buckets@.len(),
                b == self@,
                shapes_model(shapes@) =~= batch_shape(b).take(i as int),
            decreases n - i,
        {
            let ghost want = bucket_shape(b[i as int]).1;
            let m = self.buckets[i].runs.len();
            let mut runs: Vec<(u32, usize)> = Vec::new();
            let mut j: usize = 0;
            while j < m
                invariant
                    i < n,
                    j <= m,
                    n == self.buckets@.len(),
                    b == self@,
                    m == self.buckets@[i as int].runs@.len(),
                    want == bucket_shape(b[i as int]).1,
                    runs@.map_values(|p: (u32, usize)| (p.0, p.1 as nat)) =~= want.take(j as int),
                decreases m - j,
            {
                assert(b[i as int] == bucket_model(self.buckets@[i as int]));
                assert(b[i as int].1[j as int] == run_model(self.buckets@[i as int].runs@[j as int]));
                runs.push((self.buckets[i].runs[j].mesh, self.buckets[i].runs[j].data.len()));
                assert(want.take(j + 1) =~= want.take(j as int).push(want[j as int]));
                j += 1;
            }
            let entry = ShapeEntry { material: self.buckets[i].material, runs };
            assert(want.take(m as int) =~= want);
            assert(b[i as int] == bucket_model(self.buckets@[i as int]));
            assert(shape_entry_model(entry) == bucket_shape(b[i as int]));
            shapes.push(entry);
            assert(batch_shape(b).take(i + 1) =~= batch_shape(b).take(i as int).push(batch_shape(b)[i as int]));
            i += 1;
        }
        assert(batch_shape(b).take(n as int) =~= batch_shape(b));
        self.previous = shapes;
        self.buckets.clear();
        self.count = 0;
        assert(self@ =~= Seq::<BucketModel<T>>::empty());
        assert(batch_data(self@) =~= Seq::<T>::empty());
    }

    /// Whether the current shape differs from the shape of the previous frame.
    pub fn changed(&self) -> (r: bool)
        ensures
            r == (batch_shape(self@) != self.previous()),
    {
        let ghost cur = batch_shape(self@);
        let ghost prev = self.previous();
        let n = self.buckets.len();
        if n != self.previous.len() {
            assert(cur.len() != prev.len());
            return true;
        }
        let mut i: usize = 0;
        while i < n
            invariant
                i <= n,
                n == self.buckets@.len(),
                n == self.previous@.len(),
                cur == batch_shape(self@),
                prev == self.previous(),
                forall|k: int| 0 <= k < i ==> #[trigger] cur[k] == prev[k],
            decreases n - i,
        {
            assert(cur[i as int] == bucket_shape(bucket_model(self.buckets@[i as int])));
            assert(prev[i as int] == shape_entry_model(self.previous@[i as int]));
            if self.buckets[i].material != self.previous[i].material {
                assert(cur[i as int] != prev[i as int]);
                return true;
            }
            let m = self.buckets[i].runs.len();
            if m != self.previous[i].runs.len() {
                assert(cur[i as int].1.len() != prev[i as int].1.len());
                return true;
            }
            let mut j: usize = 0;
            while j < m
                invariant
                    i < n,
                    j <= m,
                    n == self.buckets@.len(),
                    n == self.previous@.len(),
                    m == self.buckets@[i as int].runs@.len(),
                    m == self.previous@[i as int].runs@.len(),
                    cur == batch_shape(self@),
                    prev == self.previous(),
                    cur[i as int] == bucket_shape(bucket_model(self.buckets@[i as int])),
                    prev[i as int] == shape_entry_model(self.previous@[i as int]),
                    forall|l: int| 0 <= l < j ==> #[trigger] cur[i as int].1[l] == prev[i as int].1[l],
                decreases m - j,
            {
                let (pm, pc) = self.previous[i].runs[j];
                assert(cur[i as int].1[j as int] == run_shape(run_model(self.buckets@[i as int].runs@[j as int])));
                if self.buckets[i].runs[j].mesh != pm || self.buckets[i].runs[j].data.len() != pc {
                    assert(cur[i as int].1[j as int] != prev[i as int].1[j as int]);
                    assert(cur[i as int] != prev[i as int]);
                    return true;
                }
                j += 1;
            }
            assert(cur[i as int].1 =~= prev[i as int].1);
            i += 1;
        }
        assert(cur =~= prev);
        false
    }
}

/// An ordered batch after `ops`, applied in order.
pub open spec fn ordered_insert_all<T>(b: Seq<BucketModel<T>>, ops: Seq<Insertion<T>>) -> Seq<BucketModel<T>>
    decreases ops.len(),
{
    if ops.len() == 0 {
        b
    } else {
        let o = ops.last();
        ordered_insert(ordered_insert_all(b, ops.drop_last()), o.0, o.1, o.2)
    }
}

/// The records of an ordered batch started empty are the inserted records in
/// the order of insertion, however materials and meshes interleave.
pub proof fn law_ordered_data_keeps_order<T>(ops: Seq<Insertion<T>>)
    ensures
        batch_data(ordered_insert_all(Seq::empty(), ops)) == insertions_data(ops),
    decreases ops.len(),
{
    if ops.len() == 0 {
        assert(batch_data(Seq::<BucketModel<T>>::empty()) =~= Seq::<T>::empty());
    } else {
        let o = ops.last();
        law_ordered_data_keeps_order(ops.drop_last());
        lemma_ordered_insert_data(ordered_insert_all(Seq::empty(), ops.drop_last()), o.0, o.1, o.2);
    }
}

proof fn lemma_ordered_insert_shape<T>(b1: Seq<BucketModel<T>>, b2: Seq<BucketModel<T>>, material: u32, mesh: u32, d1: Seq<T>, d2: Seq<T>)
    requires
        batch_shape(b1) == batch_shape(b2),
        d1.len() == d2.len(),
    ensures
        batch_shape(ordered_insert(b1, material, mesh, d1)) == batch_shape(ordered_insert(b2, material, mesh, d2)),
{
    let x1 = ordered_insert(b1, material, mesh, d1);
    let x2 = ordered_insert(b2, material, mesh, d2);
    assert(b1.len() == batch_shape(b1).len());
    assert(b2.len() == batch_shape(b2).len());
    assert forall|k: int| 0 <= k < b1.len() implies #[trigger] bucket_shape(b1[k]) == bucket_shape(b2[k]) by {
        assert(batch_shape(b1)[k] == batch_shape(b2)[k]);
    }
    if b1.len() > 0 {
        let n = b1.len() - 1;
        let r1 = b1.last().1;
        let r2 = b2.last().1;
        assert(bucket_shape(b1[n]) == bucket_shape(b2[n]));
        assert(r1.len() == bucket_shape(b1[n]).1.len());
        assert(r2.len() == bucket_shape(b2[n]).1.len());
        assert forall|l: int| 0 <= l < r1.len() implies #[trigger] run_shape(r1[l]) == run_shape(r2[l]) by {
            assert(bucket_shape(b1[n]).1[l] == bucket_shape(b2[n]).1[l]);
        }
        assert(b1.last().0 == b2.last().0);
        if r1.len() > 0 {
            assert(run_shape(r1[r1.len() - 1]) == run_shape(r2[r1.len() - 1]));
            assert(r1.last().0 == r2.last().0);
        }
        if b1.last().0 == material {
            let y1 = x1.last().1;
            let y2 = x2.last().1;
            assert(y1.len() == y2.len());
            assert forall|l: int| 0 <= l < y1.len() implies #[trigger] run_shape(y1[l]) == run_shape(y2[l]) by {
                if l < r1.len() {
                    assert(run_shape(r1[l]) == run_shape(r2[l]));
                }
            }
            assert(bucket_shape(x1.last()).1 =~= bucket_shape(x2.last()).1);
        }
    }
    assert(x1.len() == x2.len());
    assert forall|k: int| 0 <= k < x1.len() implies #[trigger] batch_shape(x1)[k] == batch_shape(x2)[k] by {
        if k < b1.len() && k != b1.len() - 1 {
            assert(bucket_shape(b1[k]) == bucket_shape(b2[k]));
        } else if k < b1.len() && b1.last().0 != material {
            assert(bucket_shape(b1[k]) == bucket_shape(b2[k]));
        } else if k >= b1.len() {
            assert(bucket_shape(x1[k]).1 =~= bucket_shape(x2[k]).1);
        }
    }
    assert(batch_shape(x1) =~= batch_shape(x2));
}

/// Two frames whose insertions agree in material, mesh and record count, one by
/// one, give the same shape, so the second frame reports no change.
pub proof fn law_same_shapes_unchanged<T>(ops1: Seq<Insertion<T>>, ops2: Seq<Insertion<T>>)
    requires
        ops1.len() == ops2.len(),
        forall|i: int| 0 <= i < ops1.len() ==> (#[trigger] ops1[i]).0 == ops2[i].0 && ops1[i].1 == ops2[i].1 && ops1[i].2.len() == ops2[i].2.len(),
    ensures
        batch_shape(ordered_insert_all(Seq::empty(), ops1)) == batch_shape(ordered_insert_all(Seq::empty(), ops2)),
    decreases ops1.len(),
{
    if ops1.len() > 0 {
        let n = ops1.len() - 1;
        assert forall|i: int| 0 <= i < n implies (#[trigger] ops1.drop_last()[i]).0 == ops2.drop_last()[i].0 && ops1.drop_last()[i].1 == ops2.drop_last()[i].1 && ops1.drop_last()[i].2.len() == ops2.drop_last()[i].2.len() by {
            assert(ops1[i].0 == ops2[i].0);
        }
        law_same_shapes_unchanged(ops1.drop_last(), ops2.drop_last());
        assert(ops1[n].0 == ops2[n].0);
        lemma_ordered_insert_shape(
            ordered_insert_all(Seq::empty(), ops1.drop_last()),
            ordered_insert_all(Seq::empty(), ops2.drop_last()),
            ops1.last().0,
            ops1.last().1,
            ops1.last().2,
            ops2.last().2,
        );
    }
}

proof fn lemma_last_material<T>(ops: Seq<Insertion<T>>)
    requires
        ops.len() > 0,
    ensures
        ordered_insert_all(Seq::empty(), ops).len() > 0,
        ordered_insert_all(Seq::empty(), ops).last().0 == ops.last().0,
{
}

/// Inserting, after a frame's insertions, records of a material other than the
/// last one inserted opens a new bucket, so the shape changes.
pub proof fn law_new_material_changes_shape<T>(ops: Seq<Insertion<T>>, material: u32, mesh: u32, d: Seq<T>)
    requires
        ops.len() == 0 || ops.last().0 != material,
    ensures
        batch_shape(ordered_insert_all(Seq::empty(), ops.push((material, mesh, d))))
            != batch_shape(ordered_insert_all(Seq::empty(), ops)),
{
    let p = ops.push((material, mesh, d));
    assert(p.drop_last() =~= ops);
    if ops.len() > 0 {
        lemma_last_material(ops);
    }
    let a = ordered_insert_all(Seq::empty(), ops);
    assert(ordered_insert_all(Seq::empty(), p).len() == a.len() + 1);
    assert(batch_shape(ordered_insert_all(Seq::empty(), p)).len() != batch_shape(a).len());
}

/// Total records of a shape.
pub open spec fn shape_total(s: Seq<BucketShape>) -> nat
    decreases s.len(),
{
    if s.len() == 0 {
        0
    } else {
        runs_shape_total(s[0].1) + shape_total(s.skip(1))
    }
}

pub open spec fn runs_shape_total(s: Seq<RunShape>) -> nat
    decreases s.len(),
{
    if s.len() == 0 {
        0
    } else {
        s[0].1 + runs_shape_total(s.skip(1))
    }
}

proof fn lemma_runs_shape_total<T>(runs: Seq<RunModel<T>>)
    ensures
        runs_data(runs).len() == runs_shape_total(runs.map_values(|r: RunModel<T>| run_shape(r))),
    decreases runs.len(),
{
    if runs.len() > 0 {
        assert(runs.map_values(|r: RunModel<T>| run_shape(r)).skip(1) =~= runs.skip(1).map_values(|r: RunModel<T>| run_shape(r)));
        lemma_runs_shape_total(runs.skip(1));
    }
}

proof fn lemma_shape_total<T>(b: Seq<BucketModel<T>>)
    ensures
        batch_total(b) == shape_total(batch_shape(b)),
    decreases b.len(),
{
    if b.len() > 0 {
        assert(batch_shape(b).skip(1) =~= batch_shape(b.skip(1)));
        lemma_shape_total(b.skip(1));
        lemma_runs_shape_total(b[0].1);
    }
}

/// Frames with different record totals (a mesh's instances removed, say) never
/// share a shape, so the later one reports a change.
pub proof fn law_different_totals_change_shape<T>(a: Seq<BucketModel<T>>, b: Seq<BucketModel<T>>)
    requires
        batch_total(a) != batch_total(b),
    ensures
        batch_shape(a) != batch_shape(b),
{
    lemma_shape_total(a);
    lemma_shape_total(b);
}

/// Ordered insertions keyed by meshes of `meshes` fill only runs keyed by those
/// meshes.
pub proof fn lemma_ordered_insert_all_within<T>(b: Seq<BucketModel<T>>, ops: Seq<Insertion<T>>, meshes: Set<u32>)
    requires
        filled_runs_within(b, meshes),
        ops_within(ops, meshes),
    ensures
        filled_runs_within(ordered_insert_all(b, ops), meshes),
    decreases ops.len(),
{
    if ops.len() > 0 {
        assert(ops_within(ops.drop_last(), meshes)) by {
            assert forall|k: int| 0 <= k < ops.drop_last().len() implies meshes.contains(#[trigger] ops.drop_last()[k].1) by {
                assert(ops.drop_last()[k] == ops[k]);
            }
        }
        lemma_ordered_insert_all_within(b, ops.drop_last(), meshes);
        let a = ordered_insert_all(b, ops.drop_last());
        let o = ops.last();
        assert(meshes.contains(ops[ops.len() - 1].1));
        let r = ordered_insert(a, o.0, o.1, o.2);
        assert forall|x: int, y: int| 0 <= x < r.len() && 0 <= y < r[x].1.len() && (#[trigger] r[x].1[y]).1.len() > 0
            implies meshes.contains(r[x].1[y].0) by {
            if x < a.len() && !(x == a.len() - 1 && a.last().0 == o.0) {
                assert(r[x] == a[x]);
                assert(a[x].1[y] == r[x].1[y]);
            } else if x < a.len() {
                let runs = a.last().1;
                if y < runs.len() && !(y == runs.len() - 1 && runs.last().0 == o.1) {
                    assert(r[x].1[y] == runs[y]);
                    assert(a[x].1[y] == runs[y]);
                }
            }
        }
    }
}
} // verus!
