use vstd::prelude::*;

verus! {

/// Largest number of branches one selection can hold: one bit of the mask each.
pub const MAX_BRANCHES: usize = 64;

/// A set of branch indices below `MAX_BRANCHES`, one bit per branch.
#[derive(Clone, Copy, Debug, PartialEq, Eq, Structural)]
pub struct Mask {
    pub bits: u64,
}

/// Whether bit `i` of `bits` is set.
pub open spec fn bit_set(bits: u64, i: int) -> bool {
    0 <= i < 64 && (bits >> (i as u64)) & 1u64 == 1u64
}

impl View for Mask {
    type V = Set<int>;

    open spec fn view(&self) -> Set<int> {
        Set::new(|i: int| bit_set(self.bits, i))
    }
}

impl Mask {
    /// The mask with no branch in it.
    pub fn empty() -> (r: Mask)
        ensures
            r@ == Set::<int>::empty(),
    {
        let r = Mask { bits: 0 };
        assert(forall|j: u64| j < 64 ==> (0u64 >> j) & 1u64 != 1u64) by (bit_vector);
        assert(r@ =~= Set::<int>::empty());
        r
    }

    /// Whether branch `i` is in the mask.
    pub fn contains(&self, i: usize) -> (r: bool)
        requires
            i < MAX_BRANCHES,
        ensures
            r == self@.contains(i as int),
    {
        let b = self.bits;
        let k = i as u64;
        assert((b & (1u64 << k) != 0u64) == ((b >> k) & 1u64 == 1u64)) by (bit_vector)
            requires k < 64;
        b & (1u64 << k) != 0
    }

    /// Adds branch `i` to the mask.
    pub fn insert(&mut self, i: usize)
        requires
            i < MAX_BRANCHES,
        ensures
            final(self)@ == old(self)@.insert(i as int),
    {
        let b = self.bits;
        let k = i as u64;
        let nb = b | (1u64 << k);
        assert(forall|j: u64|
            j < 64 ==> (((nb >> j) & 1u64 == 1u64) == (j == k || (b >> j) & 1u64 == 1u64)))
            by (bit_vector)
            requires
                k < 64,
                nb == b | (1u64 << k),
        ;
        self.bits = nb;
        assert forall|j: int| #[trigger] bit_set(nb, j) == (j == i || bit_set(b, j)) by {
            if 0 <= j < 64 {
                let ju = j as u64;
                assert(((nb >> ju) & 1u64 == 1u64) == (ju == k || (b >> ju) & 1u64 == 1u64));
            }
        }
        assert(self@ =~= old(self)@.insert(i as int));
    }
}

/// Width in bits of the narrowest unsigned integer that holds one bit for each of
/// `n` branches, or `None` where `n` exceeds `MAX_BRANCHES`.
pub open spec fn mask_width_of(n: int) -> Option<u32> {
    if n <= 8 {
        Some(8u32)
    } else if n <= 16 {
        Some(16u32)
    } else if n <= 32 {
        Some(32u32)
    } else if n <= 64 {
        Some(64u32)
    } else {
        None
    }
}

/// The narrowest of 8, 16, 32 and 64 bits that holds one bit per branch.
pub fn mask_width(n: usize) -> (r: Option<u32>)
    ensures
        r == mask_width_of(n as int),
        r matches Some(w) ==> n <= w,
{
    if n <= 8 {
        Some(8)
    } else if n <= 16 {
        Some(16)
    } else if n <= 32 {
        Some(32)
    } else if n <= MAX_BRANCHES {
        Some(64)
    } else {
        None
    }
}

} // verus!
