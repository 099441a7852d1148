//! What a render pass reads from the scene for one frame, as plain values.
use vstd::prelude::*;

verus! {

/// A set of small integer ids (entities, meshes, materials), held as a bit per id.
pub struct IdSet {
    bits: Vec<bool>,
}

impl View for IdSet {
    type V = Set<u32>;

    closed spec fn view(&self) -> Set<u32> {
        Set::new(|id: u32| (id as int) < self.bits@.len() && self.bits@[id as int])
    }
}

impl IdSet {
    pub fn new() -> (r: Self)
        ensures
            r@ == Set::<u32>::empty(),
    {
        let r = IdSet { bits: Vec::new() };
        assert(r@ =~= Set::<u32>::empty());
        r
    }

    pub fn contains(&self, id: u32) -> (r: bool)
        ensures
            r == self@.contains(id),
    {
        (id as usize) < self.bits.len() && self.bits[id as usize]
    }

    pub fn insert(&mut self, id: u32)
        ensures
            final(self)@ == old(self)@.insert(id),
    {
        let ghost before = self@;
        while self.bits.len() <= id as usize
            invariant
                self@ == before,
            decreases id as int + 1 - self.bits@.len(),
        {
            self.bits.push(false);
            assert(self@ =~= before);
        }
        self.bits[id as usize] = true;
        assert(self@ =~= before.insert(id));
    }

    pub fn remove(&mut self, id: u32)
        ensures
            final(self)@ == old(self)@.remove(id),
    {
        if (id as usize) < self.bits.len() {
            self.bits[id as usize] = false;
        }
        assert(self@ =~= old(self)@.remove(id));
    }
}

/// The joint-transform component of a skinned entity: the skin it belongs to and
/// how many joint matrices it uploads.
#[derive(Clone, Copy, Debug, PartialEq, Eq, Structural)]
pub struct JointRef {
    pub skin: u32,
    pub joint_count: u32,
}

/// One scene entity as the passes read it. `instance` is the per-instance record
/// built from the entity's transform and tint; it is absent when the entity has
/// no transform.
#[derive(Clone, Copy)]
pub struct RenderEntity<I> {
    pub mesh: Option<u32>,
    pub material: Option<u32>,
    pub instance: Option<I>,
    pub joints: Option<JointRef>,
    pub hidden: bool,
    pub hidden_propagate: bool,
    pub transparent: bool,
}

/// Culling result computed outside the pass.
pub struct Visibility {
    /// Entities visible this frame, for passes without an order.
    pub visible_unordered: IdSet,
    /// Entities to draw, back to front, for passes that blend.
    pub visible_ordered: Vec<u32>,
}

/// Everything a pass reads for one frame. `entities[i]` is the entity with id `i`.
pub struct Frame<I> {
    pub entities: Vec<RenderEntity<I>>,
    pub visibility: Option<Visibility>,
    /// Mesh ids whose asset is loaded.
    pub meshes_loaded: IdSet,
    /// Material ids whose textures are all loaded.
    pub materials_ready: IdSet,
}

} // verus!
