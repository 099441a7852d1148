//! Per-frame-slot change tracking, deciding when recorded draw commands can be reused.
use vstd::prelude::*;

verus! {

/// What a pass asks of the frame scheduler after preparing a frame slot.
#[derive(Clone, Copy, Debug, PartialEq, Eq, Structural)]
pub enum PrepareResult {
    /// Record the draw commands afresh.
    DrawRecord,
    /// Reuse the commands recorded for this slot before.
    DrawReuse,
}

/// The slots after preparing slot `index`: a change clears every slot, the
/// prepared slot becomes up to date, and unseen slots up to `index` are added.
pub open spec fn slots_after(slots: Seq<bool>, index: nat, changed: bool) -> Seq<bool> {
    Seq::new(
        if index < slots.len() { slots.len() } else { index + 1 },
        |i: int| i == index || (!changed && i < slots.len() && slots[i]),
    )
}

/// Remembers, for each frame slot, whether its recorded commands still match the
/// batches. A change invalidates every slot; each slot then records once more.
pub struct ChangeDetection {
    stable: Vec<bool>,
}

impl ChangeDetection {
    /// For each frame slot seen so far, whether its recording is up to date.
    pub closed spec fn slots(&self) -> Seq<bool> {
        self.stable@
    }

    /// No slot seen yet.
    pub fn new() -> (r: Self)
        ensures
            r.slots() == Seq::<bool>::empty(),
    {
        ChangeDetection { stable: Vec::new() }
    }

    /// Whether slot `index` may reuse its recording, given whether this frame's
    /// batches changed; afterwards the slot counts as up to date.
    pub fn can_reuse(&mut self, index: usize, changed: bool) -> (r: bool)
        requires
            index < usize::MAX,
        ensures
            r == (!changed && index < old(self).slots().len() && old(self).slots()[index as int]),
            final(self).slots() == slots_after(old(self).slots(), index as nat, changed),
    {
        let ghost before = self.stable@;
        while self.stable.len() <= index
            invariant
                index < usize::MAX,
                self.stable@.len() >= before.len(),
                forall|i: int| 0 <= i < before.len() ==> #[trigger] self.stable@[i] == before[i],
                forall|i: int| before.len() <= i < self.stable@.len() ==> !#[trigger] self.stable@[i],
                self.stable@.len() <= slots_after(before, index as nat, changed).len(),
            decreases index + 1 - self.stable@.len(),
        {
            self.stable.push(false);
        }
        if changed {
            let n = self.stable.len();
            let mut i: usize = 0;
            while i < n
                invariant
                    i <= n,
                    n == self.stable@.len(),
                    index < n,
                    n == slots_after(before, index as nat, changed).len(),
                    forall|k: int| 0 <= k < i ==> !#[trigger] self.stable@[k],
                decreases n - i,
            {
                self.stable[i] = false;
                i += 1;
            }
        }
        let r = self.stable[index];
        self.stable[index] = true;
        assert(self.stable@ =~= slots_after(before, index as nat, changed));
        r
    }

    /// `DrawReuse` exactly when `can_reuse` allows it.
    pub fn prepare_result(&mut self, index: usize, changed: bool) -> (r: PrepareResult)
        requires
            index < usize::MAX,
        ensures
            r == (if !changed && index < old(self).slots().len() && old(self).slots()[index as int] {
                PrepareResult::DrawReuse
            } else {
                PrepareResult::DrawRecord
            }),
            final(self).slots() == slots_after(old(self).slots(), index as nat, changed),
    {
        if self.can_reuse(index, changed) {
            PrepareResult::DrawReuse
        } else {
            PrepareResult::DrawRecord
        }
    }
}

} // verus!
