//! Per-pass bookkeeping of GPU-side material and skinning resources.
use vstd::prelude::*;
use crate::frame::{IdSet, JointRef};

verus! {

/// What registering `material` returns: its id and whether its GPU data was
/// (re)built now, or nothing when it is not loaded and its textures are not ready.
pub open spec fn material_resolve(loaded: Set<u32>, material: u32, ready: bool) -> Option<(u32, bool)> {
    if loaded.contains(material) {
        Some((material, false))
    } else if ready {
        Some((material, true))
    } else {
        None
    }
}

/// The loaded materials after registering `material`.
pub open spec fn material_after(loaded: Set<u32>, material: u32, ready: bool) -> Set<u32> {
    if !loaded.contains(material) && ready {
        loaded.insert(material)
    } else {
        loaded
    }
}

/// Tracks which materials have live GPU data (descriptor set and uniforms).
/// Building that data is the caller's part, when `insert` reports a change.
pub struct MaterialSub {
    loaded: IdSet,
}

impl View for MaterialSub {
    type V = Set<u32>;

    closed spec fn view(&self) -> Set<u32> {
        self.loaded@
    }
}

impl MaterialSub {
    pub fn new() -> (r: Self)
        ensures
            r@ == Set::<u32>::empty(),
    {
        MaterialSub { loaded: IdSet::new() }
    }

    /// Registers `material`, whose textures are all loaded when `ready`.
    pub fn insert(&mut self, material: u32, ready: bool) -> (r: Option<(u32, bool)>)
        ensures
            r == material_resolve(old(self)@, material, ready),
            final(self)@ == material_after(old(self)@, material, ready),
    {
        if self.loaded.contains(material) {
            Some((material, false))
        } else if ready {
            self.loaded.insert(material);
            Some((material, true))
        } else {
            None
        }
    }

    /// Drops the GPU data of the materials whose assets changed or went away, so
    /// that they are rebuilt when next registered.
    pub fn maintain(&mut self, modified: &Vec<u32>)
        ensures
            final(self)@ == old(self)@.difference(modified@.to_set()),
    {
        let n = modified.len();
        let mut i: usize = 0;
        while i < n
            invariant
                i <= n,
                n == modified@.len(),
                self@ == old(self)@.difference(modified@.take(i as int).to_set()),
            decreases n - i,
        {
            self.loaded.remove(modified[i]);
            assert(modified@.take(i + 1).to_set() =~= modified@.take(i as int).to_set().insert(modified@[i as int])) by {
                assert(modified@.take(i + 1) =~= modified@.take(i as int).push(modified@[i as int]));
                modified@.take(i as int).lemma_push_to_set_commute(modified@[i as int]);
            }
            assert(self@ =~= old(self)@.difference(modified@.take(i + 1).to_set()));
            i += 1;
        }
        assert(modified@.take(n as int) =~= modified@);
    }

    /// Whether `material` has live GPU data.
    pub fn loaded(&self, material: u32) -> (r: bool)
        ensures
            r == self@.contains(material),
    {
        self.loaded.contains(material)
    }
}

/// Allocates, for each skinned entity of a frame, a place in the joint buffer.
pub struct SkinningSub {
    entries: Vec<(u32, u64)>,
    total: u64,
}

impl SkinningSub {
    /// The (skin, offset) pairs allocated since the last commit, in order.
    pub closed spec fn entries(&self) -> Seq<(u32, u64)> {
        self.entries@
    }

    /// Joint matrices allocated since the last commit.
    pub closed spec fn total(&self) -> nat {
        self.total as nat
    }

    pub fn new() -> (r: Self)
        ensures
            r.entries() == Seq::<(u32, u64)>::empty(),
            r.total() == 0,
    {
        SkinningSub { entries: Vec::new(), total: 0 }
    }

    /// Places `joints` after the matrices allocated so far and returns its offset.
    pub fn insert(&mut self, joints: JointRef) -> (r: u64)
        requires
            old(self).total() + joints.joint_count <= u64::MAX,
        ensures
            r == old(self).total(),
            final(self).total() == old(self).total() + joints.joint_count,
            final(self).entries() == old(self).entries().push((joints.skin, r)),
    {
        let offset = self.total;
        self.entries.push((joints.skin, offset));
        self.total = self.total + joints.joint_count as u64;
        offset
    }

    /// Hands out this frame's allocations for upload and starts afresh.
    pub fn commit(&mut self) -> (r: Vec<(u32, u64)>)
        ensures
            r@ == old(self).entries(),
            final(self).entries() == Seq::<(u32, u64)>::empty(),
            final(self).total() == 0,
    {
        let mut r: Vec<(u32, u64)> = Vec::new();
        std::mem::swap(&mut r, &mut self.entries);
        self.total = 0;
        r
    }
}

} // verus!
