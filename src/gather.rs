//! Choosing, each frame, which entities a pass draws and with which keys.
use vstd::prelude::*;
use crate::batch::Insertion;
use crate::frame::{IdSet, RenderEntity};
use crate::submodules::{material_after, material_resolve, MaterialSub, SkinningSub};

verus! {

/// The per-instance record of a skinned entity: its own record and where its
/// joint matrices start in the joint buffer.
#[derive(Clone, Copy)]
pub struct SkinnedInstance<I> {
    pub base: I,
    pub joint_offset: u64,
}

/// The entity ids a pass walks: `order` when given, else every id in turn.
pub open spec fn walk_ids(n: nat, order: Option<Seq<u32>>) -> Seq<u32> {
    match order {
        Some(o) => o,
        None => Seq::new(n, |i: int| i as u32),
    }
}

/// Whether entity `e` with id `id` belongs to the pass: it has a mesh, a material
/// and a transform, has joints exactly when `skinned`, and passes the filter. A
/// pass that walks an explicit `order` takes every entity of it; otherwise the
/// visible set decides when there is one, and the hidden flags when there is
/// none: an entity flagged hidden, hidden-propagated or transparent is left out.
pub open spec fn picked<I>(e: RenderEntity<I>, id: u32, skinned: bool, visible: Option<Set<u32>>, ordered: bool) -> bool {
    &&& e.mesh is Some
    &&& e.material is Some
    &&& e.instance is Some
    &&& (e.joints is Some) == skinned
    &&& (ordered || match visible {
        Some(v) => v.contains(id),
        None => !e.hidden && !e.hidden_propagate && !e.transparent,
    })
}

/// The insertions of one instance record each.
pub open spec fn ops_model<R>(ops: Seq<(u32, u32, R)>) -> Seq<Insertion<R>> {
    ops.map_values(|t: (u32, u32, R)| (t.0, t.1, seq![t.2]))
}

/// Walking `ids` for entities without joints: each picked entity whose mesh is
/// loaded registers its material; if that resolves, its record is inserted under
/// (material, mesh). Gives the loaded materials, the insertions and whether any
/// material's GPU data was built.
pub open spec fn gather_static<I>(
    es: Seq<RenderEntity<I>>,
    ids: Seq<u32>,
    visible: Option<Set<u32>>,
    ordered: bool,
    meshes: Set<u32>,
    ready: Set<u32>,
    loaded: Set<u32>,
) -> (Set<u32>, Seq<(u32, u32, I)>, bool)
    decreases ids.len(),
{
    if ids.len() == 0 {
        (loaded, Seq::empty(), false)
    } else {
        let prev = gather_static(es, ids.drop_last(), visible, ordered, meshes, ready, loaded);
        let id = ids.last();
        if (id as int) < es.len() && picked(es[id as int], id, false, visible, ordered)
            && meshes.contains(es[id as int].mesh->0) {
            let e = es[id as int];
            let m = e.material->0;
            match material_resolve(prev.0, m, ready.contains(m)) {
                Some((mid, c)) => (
                    material_after(prev.0, m, ready.contains(m)),
                    prev.1.push((mid, e.mesh->0, e.instance->0)),
                    prev.2 || c,
                ),
                None => prev,
            }
        } else {
            prev
        }
    }
}

/// Like `gather_static` for entities with joints. Every picked entity also gets
/// its joints placed in the joint buffer, mesh loaded or not; the state carries
/// those placements and their running total.
pub open spec fn gather_skinned<I>(
    es: Seq<RenderEntity<I>>,
    ids: Seq<u32>,
    visible: Option<Set<u32>>,
    ordered: bool,
    meshes: Set<u32>,
    ready: Set<u32>,
    loaded: Set<u32>,
    joints: Seq<(u32, u64)>,
    total: nat,
) -> (Set<u32>, Seq<(u32, u32, SkinnedInstance<I>)>, bool, Seq<(u32, u64)>, nat)
    decreases ids.len(),
{
    if ids.len() == 0 {
        (loaded, Seq::empty(), false, joints, total)
    } else {
        let prev = gather_skinned(es, ids.drop_last(), visible, ordered, meshes, ready, loaded, joints, total);
        let id = ids.last();
        if (id as int) < es.len() && picked(es[id as int], id, true, visible, ordered) {
            let e = es[id as int];
            let j = e.joints->0;
            let placed = prev.3.push((j.skin, prev.4 as u64));
            let after = (prev.4 + j.joint_count) as nat;
            let rec = SkinnedInstance { base: e.instance->0, joint_offset: prev.4 as u64 };
            let m = e.material->0;
            if meshes.contains(e.mesh->0) {
                match material_resolve(prev.0, m, ready.contains(m)) {
                    Some((mid, c)) => (
                        material_after(prev.0, m, ready.contains(m)),
                        prev.1.push((mid, e.mesh->0, rec)),
                        prev.2 || c,
                        placed,
                        after,
                    ),
                    None => (prev.0, prev.1, prev.2, placed, after),
                }
            } else {
                (prev.0, prev.1, prev.2, placed, after)
            }
        } else {
            prev
        }
    }
}

pub open spec fn visible_set(v: Option<&IdSet>) -> Option<Set<u32>> {
    match v {
        Some(s) => Some(s@),
        None => None,
    }
}

pub open spec fn order_seq(o: Option<&Vec<u32>>) -> Option<Seq<u32>> {
    match o {
        Some(v) => Some(v@),
        None => None,
    }
}

/// Decides `picked` for one entity.
pub fn picks<I>(e: &RenderEntity<I>, id: u32, skinned: bool, visible: Option<&IdSet>, ordered: bool) -> (r: bool)
    ensures
        r == picked(*e, id, skinned, visible_set(visible), ordered),
{
    if e.mesh.is_none() || e.material.is_none() || e.instance.is_none() || e.joints.is_some() != skinned {
        return false;
    }
    if ordered {
        return true;
    }
    match visible {
        Some(v) => v.contains(id),
        None => !e.hidden && !e.hidden_propagate && !e.transparent,
    }
}

/// The static (joint-less) gather of a frame, see `gather_static`.
pub fn collect_static<I: Copy>(
    entities: &Vec<RenderEntity<I>>,
    order: Option<&Vec<u32>>,
    visible: Option<&IdSet>,
    meshes: &IdSet,
    ready: &IdSet,
    materials: &mut MaterialSub,
) -> (r: (Vec<(u32, u32, I)>, bool))
    requires
        entities@.len() <= u32::MAX,
    ensures
        ({
            let g = gather_static(
                entities@,
                walk_ids(entities@.len(), order_seq(order)),
                visible_set(visible),
                order is Some,
                meshes@,
                ready@,
                old(materials)@,
            );
            &&& final(materials)@ == g.0
            &&& r.0@ == g.1
            &&& r.1 == g.2
        }),
        r.0@.len() <= walk_ids(entities@.len(), order_seq(order)).len(),
{
    let ghost ids = walk_ids(entities@.len(), order_seq(order));
    let ghost vis = visible_set(visible);
    let ordered = order.is_some();
    let n: usize = match order {
        Some(o) => o.len(),
        None => entities.len(),
    };
    let mut ops: Vec<(u32, u32, I)> = Vec::new();
    let mut changed = false;
    let mut k: usize = 0;
    assert(ids.take(0) =~= Seq::<u32>::empty());
    while k < n
        invariant
            k <= n,
            n == ids.len(),
            ids == walk_ids(entities@.len(), order_seq(order)),
            vis == visible_set(visible),
            ordered == order is Some,
            entities@.len() <= u32::MAX,
            ops@.len() <= k,
            ({
                let g = gather_static(entities@, ids.take(k as int), vis, ordered, meshes@, ready@, old(materials)@);
                &&& materials@ == g.0
                &&& ops@ == g.1
                &&& changed == g.2
            }),
        decreases n - k,
    {
        let id: u32 = match order {
            Some(o) => o[k],
            None => k as u32,
        };
        assert(ids[k as int] == id);
        assert(ids.take(k + 1).drop_last() =~= ids.take(k as int));
        assert(ids.take(k + 1).last() == id);
        if (id as usize) < entities.len() {
            let e = entities[id as usize];
            if picks(&e, id, false, visible, ordered) {
                let mesh = e.mesh.unwrap();
                if meshes.contains(mesh) {
                    let material = e.material.unwrap();
                    let is_ready = ready.contains(material);
                    match materials.insert(material, is_ready) {
                        Some((mid, c)) => {
                            ops.push((mid, mesh, e.instance.unwrap()));
                            changed = changed || c;
                        },
                        None => {},
                    }
                }
            }
        }
        k += 1;
    }
    assert(ids.take(n as int) =~= ids);
    (ops, changed)
}

/// The skinned gather of a frame, see `gather_skinned`.
pub fn collect_skinned<I: Copy>(
    entities: &Vec<RenderEntity<I>>,
    order: Option<&Vec<u32>>,
    visible: Option<&IdSet>,
    meshes: &IdSet,
    ready: &IdSet,
    materials: &mut MaterialSub,
    skinning: &mut SkinningSub,
) -> (r: (Vec<(u32, u32, SkinnedInstance<I>)>, bool))
    requires
        entities@.len() <= u32::MAX,
        old(skinning).total() + walk_ids(entities@.len(), order_seq(order)).len() * (u32::MAX as nat) <= u64::MAX,
    ensures
        ({
            let g = gather_skinned(
                entities@,
                walk_ids(entities@.len(), order_seq(order)),
                visible_set(visible),
                order is Some,
                meshes@,
                ready@,
                old(materials)@,
                old(skinning).entries(),
                old(skinning).total(),
            );
            &&& final(materials)@ == g.0
            &&& r.0@ == g.1
            &&& r.1 == g.2
            &&& final(skinning).entries() == g.3
            &&& final(skinning).total() == g.4
        }),
        r.0@.len() <= walk_ids(entities@.len(), order_seq(order)).len(),
{
    let ghost ids = walk_ids(entities@.len(), order_seq(order));
    let ghost vis = visible_set(visible);
    let ordered = order.is_some();
    let n: usize = match order {
        Some(o) => o.len(),
        None => entities.len(),
    };
    let mut ops: Vec<(u32, u32, SkinnedInstance<I>)> = Vec::new();
    let mut changed = false;
    let mut k: usize = 0;
    assert(ids.take(0) =~= Seq::<u32>::empty());
    while k < n
        invariant
            k <= n,
            n == ids.len(),
            ids == walk_ids(entities@.len(), order_seq(order)),
            vis == visible_set(visible),
            ordered == order is Some,
            entities@.len() <= u32::MAX,
            ops@.len() <= k,
            skinning.total() <= old(skinning).total() + k * (u32::MAX as nat),
            old(skinning).total() + n * (u32::MAX as nat) <= u64::MAX,
            ({
                let g = gather_skinned(
                    entities@,
                    ids.take(k as int),
                    vis,
                    ordered,
                    meshes@,
                    ready@,
                    old(materials)@,
                    old(skinning).entries(),
                    old(skinning).total(),
                );
                &&& materials@ == g.0
                &&& ops@ == g.1
                &&& changed == g.2
                &&& skinning.entries() == g.3
                &&& skinning.total() == g.4
            }),
        decreases n - k,
    {
        let id: u32 = match order {
            Some(o) => o[k],
            None => k as u32,
        };
        assert(ids[k as int] == id);
        assert(ids.take(k + 1).drop_last() =~= ids.take(k as int));
        assert(ids.take(k + 1).last() == id);
        proof {
            assert(k * (u32::MAX as nat) + (u32::MAX as nat) <= n * (u32::MAX as nat)) by (nonlinear_arith)
                requires k < n;
        }
        if (id as usize) < entities.len() {
            let e = entities[id as usize];
            if picks(&e, id, true, visible, ordered) {
                let offset = skinning.insert(e.joints.unwrap());
                let rec = SkinnedInstance { base: e.instance.unwrap(), joint_offset: offset };
                let mesh = e.mesh.unwrap();
                if meshes.contains(mesh) {
                    let material = e.material.unwrap();
                    let is_ready = ready.contains(material);
                    match materials.insert(material, is_ready) {
                        Some((mid, c)) => {
                            ops.push((mid, mesh, rec));
                            changed = changed || c;
                        },
                        None => {},
                    }
                }
            }
        }
        k += 1;
    }
    assert(ids.take(n as int) =~= ids);
    (ops, changed)
}


/// No insertion of a gather names a mesh whose asset is not loaded.
pub proof fn law_static_meshes_loaded<I>(
    es: Seq<RenderEntity<I>>,
    ids: Seq<u32>,
    visible: Option<Set<u32>>,
    ordered: bool,
    meshes: Set<u32>,
    ready: Set<u32>,
    loaded: Set<u32>,
)
    ensures
        ({
            let ops = gather_static(es, ids, visible, ordered, meshes, ready, loaded).1;
            forall|i: int| 0 <= i < ops.len() ==> meshes.contains(#[trigger] ops[i].1)
        }),
    decreases ids.len(),
{
    if ids.len() > 0 {
        law_static_meshes_loaded(es, ids.drop_last(), visible, ordered, meshes, ready, loaded);
        let prev = gather_static(es, ids.drop_last(), visible, ordered, meshes, ready, loaded).1;
        let cur = gather_static(es, ids, visible, ordered, meshes, ready, loaded).1;
        assert forall|i: int| 0 <= i < cur.len() implies meshes.contains(#[trigger] cur[i].1) by {
            if i < prev.len() {
                assert(cur[i] == prev[i]);
                assert(meshes.contains(prev[i].1));
            }
        }
    }
}

/// No insertion of a skinned gather names a mesh whose asset is not loaded.
pub proof fn law_skinned_meshes_loaded<I>(
    es: Seq<RenderEntity<I>>,
    ids: Seq<u32>,
    visible: Option<Set<u32>>,
    ordered: bool,
    meshes: Set<u32>,
    ready: Set<u32>,
    loaded: Set<u32>,
    joints: Seq<(u32, u64)>,
    total: nat,
)
    ensures
        ({
            let ops = gather_skinned(es, ids, visible, ordered, meshes, ready, loaded, joints, total).1;
            forall|i: int| 0 <= i < ops.len() ==> meshes.contains(#[trigger] ops[i].1)
        }),
    decreases ids.len(),
{
    if ids.len() > 0 {
        law_skinned_meshes_loaded(es, ids.drop_last(), visible, ordered, meshes, ready, loaded, joints, total);
        let prev = gather_skinned(es, ids.drop_last(), visible, ordered, meshes, ready, loaded, joints, total).1;
        let cur = gather_skinned(es, ids, visible, ordered, meshes, ready, loaded, joints, total).1;
        assert forall|i: int| 0 <= i < cur.len() implies meshes.contains(#[trigger] cur[i].1) by {
            if i < prev.len() {
                assert(cur[i] == prev[i]);
                assert(meshes.contains(prev[i].1));
            }
        }
    }
}

/// Entity `id` exists, is not flagged hidden, and carries `mesh` and `rec`.
pub open spec fn shown_entity_with<I>(es: Seq<RenderEntity<I>>, id: int, mesh: u32, rec: I) -> bool {
    &&& 0 <= id < es.len()
    &&& !es[id].hidden
    &&& !es[id].hidden_propagate
    &&& es[id].mesh == Some(mesh)
    &&& es[id].instance == Some(rec)
}

/// Some entity, not flagged hidden, carries `mesh` and `rec`.
pub open spec fn from_shown_entity<I>(es: Seq<RenderEntity<I>>, mesh: u32, rec: I) -> bool {
    exists|id: int| shown_entity_with(es, id, mesh, rec)
}

/// Without a visible set, each record a gather inserts belongs to an entity
/// flagged neither hidden nor hidden-propagated: hidden entities never reach a
/// batch.
pub proof fn law_static_hidden_excluded<I>(
    es: Seq<RenderEntity<I>>,
    ids: Seq<u32>,
    meshes: Set<u32>,
    ready: Set<u32>,
    loaded: Set<u32>,
)
    ensures
        ({
            let ops = gather_static(es, ids, None, false, meshes, ready, loaded).1;
            forall|i: int| 0 <= i < ops.len() ==> from_shown_entity(es, (#[trigger] ops[i]).1, ops[i].2)
        }),
    decreases ids.len(),
{
    if ids.len() > 0 {
        law_static_hidden_excluded(es, ids.drop_last(), meshes, ready, loaded);
        let prev = gather_static(es, ids.drop_last(), None, false, meshes, ready, loaded).1;
        let cur = gather_static(es, ids, None, false, meshes, ready, loaded).1;
        let id = ids.last() as int;
        assert forall|i: int| 0 <= i < cur.len() implies from_shown_entity(es, (#[trigger] cur[i]).1, cur[i].2) by {
            if i < prev.len() {
                assert(cur[i] == prev[i]);
                assert(from_shown_entity(es, prev[i].1, prev[i].2));
            } else {
                assert(shown_entity_with(es, id, cur[i].1, cur[i].2));
            }
        }
    }
}

/// The same for entities with joints.
pub proof fn law_skinned_hidden_excluded<I>(
    es: Seq<RenderEntity<I>>,
    ids: Seq<u32>,
    meshes: Set<u32>,
    ready: Set<u32>,
    loaded: Set<u32>,
    joints: Seq<(u32, u64)>,
    total: nat,
)
    ensures
        ({
            let ops = gather_skinned(es, ids, None, false, meshes, ready, loaded, joints, total).1;
            forall|i: int| 0 <= i < ops.len() ==> from_shown_entity(es, (#[trigger] ops[i]).1, ops[i].2.base)
        }),
    decreases ids.len(),
{
    if ids.len() > 0 {
        law_skinned_hidden_excluded(es, ids.drop_last(), meshes, ready, loaded, joints, total);
        let prev = gather_skinned(es, ids.drop_last(), None, false, meshes, ready, loaded, joints, total).1;
        let cur = gather_skinned(es, ids, None, false, meshes, ready, loaded, joints, total).1;
        let id = ids.last() as int;
        assert forall|i: int| 0 <= i < cur.len() implies from_shown_entity(es, (#[trigger] cur[i]).1, cur[i].2.base) by {
            if i < prev.len() {
                assert(cur[i] == prev[i]);
                assert(from_shown_entity(es, prev[i].1, prev[i].2.base));
            } else {
                assert(shown_entity_with(es, id, cur[i].1, cur[i].2.base));
            }
        }
    }
}

/// A record under `mesh` belongs to an entity not flagged hidden.
pub open spec fn shown_record<I>(es: Seq<RenderEntity<I>>) -> spec_fn(u32, I) -> bool {
    |mesh: u32, rec: I| from_shown_entity(es, mesh, rec)
}

/// A skinned record under `mesh` belongs to an entity not flagged hidden.
pub open spec fn shown_skinned_record<I>(es: Seq<RenderEntity<I>>) -> spec_fn(u32, SkinnedInstance<I>) -> bool {
    |mesh: u32, rec: SkinnedInstance<I>| from_shown_entity(es, mesh, rec.base)
}
} // verus!
