//! Sizing of GPU buffers: uniform alignment and growth of per-slot buffers.
use vstd::prelude::*;
use vstd::arithmetic::power2::{lemma2_to64, lemma2_to64_rest, lemma_pow2_strictly_increases, lemma_pow2_unfold, pow2};

verus! {

/// Largest power of two a `u64` holds.
pub const MAX_POW2_U64: u64 = 0x8000_0000_0000_0000;

/// `r` is the least power of two not below `n`.
pub open spec fn is_next_pow2(n: nat, r: nat) -> bool {
    &&& exists|k: nat| pow2(k) == r
    &&& n <= r
    &&& (r == 1 || r / 2 < n)
}

/// The least power of two not below `n` (1 for 0).
pub fn next_power_of_two(n: u64) -> (r: u64)
    requires
        n <= MAX_POW2_U64,
    ensures
        is_next_pow2(n as nat, r as nat),
{
    let mut p: u64 = 1;
    let ghost mut k: nat = 0;
    proof {
        lemma2_to64();
        lemma2_to64_rest();
    }
    while p < n
        invariant
            p == pow2(k),
            p >= 1,
            p == 1 || p / 2 < n,
            n <= MAX_POW2_U64,
            p <= MAX_POW2_U64,
            pow2(63) == MAX_POW2_U64,
        decreases MAX_POW2_U64 - p,
    {
        proof {
            lemma_pow2_unfold(k + 1);
            if k >= 63 {
                if k > 63 {
                    lemma_pow2_strictly_increases(63, k);
                }
                assert(false);
            }
            if k + 1 < 63 {
                lemma_pow2_strictly_increases(k + 1, 63);
            }
        }
        p = p * 2;
        proof {
            k = k + 1;
        }
    }
    p
}

/// `size` rounded up to a multiple of `align`.
pub open spec fn round_up(size: nat, align: nat) -> nat
    recommends
        align > 0,
{
    ((size + align - 1) / align as int) as nat * align
}

/// Bytes taken by `array_len` elements of `elem_size` bytes in a uniform
/// buffer whose offsets must be multiples of `align`: the least multiple of
/// `align` that holds them.
pub fn align_size(elem_size: u64, align: u64, array_len: u64) -> (r: u64)
    requires
        align > 0,
        elem_size * array_len + align - 1 <= u64::MAX,
    ensures
        r as nat == round_up((elem_size * array_len) as nat, align as nat),
        r % align == 0,
        elem_size * array_len <= r,
        r < elem_size * array_len + align,
{
    let size = elem_size * array_len;
    proof {
        let s = size as int;
        let a = align as int;
        let q = (s + a - 1) / a;
        assert(q * a <= s + a - 1) by (nonlinear_arith)
            requires q == (s + a - 1) / a, a > 0, s >= 0;
        assert(q * a > s - 1) by (nonlinear_arith)
            requires q == (s + a - 1) / a, a > 0, s >= 0;
        assert((q * a) % a == 0) by (nonlinear_arith)
            requires a > 0, q >= 0;
    }
    let r = ((size + (align - 1)) / align) * align;
    r
}

/// A buffer that must hold `bytes` and held `current`: `growth` is the size to
/// allocate when it must grow, `next` what it holds afterwards.
pub open spec fn growth_of(current: u64, bytes: nat, growth: Option<u64>, next: u64) -> bool {
    &&& growth is Some <==> current < bytes
    &&& growth is Some ==> is_next_pow2(bytes, growth->0 as nat)
    &&& next == match growth {
        Some(n) => n,
        None => current,
    }
}

/// New size of a buffer that must hold `min_size` bytes and now holds
/// `current` bytes (`None`: no buffer yet), or `None` when it is large enough.
/// A buffer that grows is sized to the next power of two.
pub fn buffer_growth(current: Option<u64>, min_size: u64) -> (r: Option<u64>)
    requires
        min_size <= MAX_POW2_U64,
    ensures
        r is Some <==> (match current { Some(c) => c < min_size, None => 0 < min_size }),
        r is Some ==> is_next_pow2(min_size as nat, r->0 as nat),
{
    let have = match current {
        Some(c) => c,
        None => 0,
    };
    if have < min_size {
        Some(next_power_of_two(min_size))
    } else {
        None
    }
}

/// One growable instance buffer per frame slot, rewritten each frame. This
/// tracks the size of each slot's buffer; the allocation itself is done by the
/// caller when `write` asks for it.
pub struct InstanceBuffer {
    sizes: Vec<u64>,
}

impl InstanceBuffer {
    /// Size in bytes of each slot's buffer; 0 where there is none.
    pub closed spec fn sizes(&self) -> Seq<u64> {
        self.sizes@
    }

    pub fn new() -> (r: Self)
        ensures
            r.sizes() == Seq::<u64>::empty(),
    {
        InstanceBuffer { sizes: Vec::new() }
    }

    /// Size of slot `slot`'s buffer, 0 where there is none.
    pub open spec fn size_of_slot(&self, slot: int) -> u64 {
        if 0 <= slot < self.sizes().len() { self.sizes()[slot] } else { 0 }
    }

    /// Prepares slot `slot` for `bytes` bytes of instance data. Returns the size of
    /// the buffer to allocate in place of the slot's current one, if it must grow;
    /// nothing is asked when there is no data.
    pub fn write(&mut self, slot: usize, bytes: u64) -> (r: Option<u64>)
        requires
            bytes <= MAX_POW2_U64,
            slot < usize::MAX,
        ensures
            r is Some <==> old(self).size_of_slot(slot as int) < bytes,
            r is Some ==> is_next_pow2(bytes as nat, r->0 as nat),
            forall|s: int| s != slot ==> #[trigger] final(self).size_of_slot(s) == old(self).size_of_slot(s),
            final(self).size_of_slot(slot as int) == match r {
                Some(n) => n,
                None => old(self).size_of_slot(slot as int),
            },
    {
        if bytes == 0 {
            return None;
        }
        while self.sizes.len() <= slot
            invariant
                slot < usize::MAX,
                forall|s: int| #[trigger] self.size_of_slot(s) == old(self).size_of_slot(s),
            decreases slot + 1 - self.sizes@.len(),
        {
            let ghost pre = *self;
            self.sizes.push(0);
            assert forall|s: int| #[trigger] self.size_of_slot(s) == pre.size_of_slot(s) by {
                if s == pre.sizes@.len() {
                    assert(self.sizes@[s] == 0);
                }
            }
        }
        let current = self.sizes[slot];
        assert(self.size_of_slot(slot as int) == current);
        assert(current == old(self).size_of_slot(slot as int));
        let r = buffer_growth(Some(current), bytes);
        let ghost pre = *self;
        if let Some(n) = r {
            self.sizes[slot] = n;
        }
        assert forall|s: int| s != slot implies #[trigger] self.size_of_slot(s) == old(self).size_of_slot(s) by {
            assert(pre.size_of_slot(s) == old(self).size_of_slot(s));
        }
        r
    }

    /// Whether slot `slot` has a buffer to bind.
    pub fn bindable(&self, slot: usize) -> (r: bool)
        ensures
            r == (self.size_of_slot(slot as int) > 0),
    {
        slot < self.sizes.len() && self.sizes[slot] > 0
    }
}

} // verus!
