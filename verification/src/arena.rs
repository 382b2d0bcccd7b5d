//! Bump reservation over a fixed heap: offsets only grow, nothing is freed.

use vstd::prelude::*;
use vstd::arithmetic::power2::pow2;

verus! {

/// `align` is a power of two that fits a `usize`, as every layout alignment is.
pub open spec fn is_alignment(align: nat) -> bool {
    exists|k: nat| k < usize::BITS && align == pow2(k)
}

/// The least multiple of `align` that is not below `pos`.
pub open spec fn align_up(pos: int, align: int) -> int {
    ((pos + align - 1) / align) * align
}

/// `align_up` lands on a multiple of `align` within one alignment step of `pos`.
pub proof fn lemma_align_up_bounds(pos: int, align: int)
    requires
        0 <= pos,
        0 < align,
    ensures
        pos <= align_up(pos, align) < pos + align,
        align_up(pos, align) % align == 0,
{
    let x = pos + align - 1;
    vstd::arithmetic::div_mod::lemma_fundamental_div_mod(x, align);
    vstd::arithmetic::mul::lemma_mul_is_commutative(align, x / align);
    vstd::arithmetic::div_mod::lemma_mod_multiples_basic(x / align, align);
}

/// An alignment is never zero.
proof fn lemma_alignment_positive(align: usize)
    requires
        is_alignment(align as nat),
    ensures
        align > 0,
{
    let k = choose|k: nat| k < usize::BITS && align == pow2(k);
    vstd::bits::lemma_usize_pow2_no_overflow(k);
}

/// Clearing the low bits below a power-of-two alignment rounds down to a multiple of it.
proof fn lemma_mask_rounds_down(x: usize, align: usize)
    requires
        is_alignment(align as nat),
    ensures
        (x & !((align - 1) as usize)) as int == (x / align) * align,
{
    let k = choose|k: nat| k < usize::BITS && align == pow2(k);
    vstd::bits::lemma_usize_pow2_no_overflow(k);
    vstd::bits::lemma_usize_low_bits_mask_is_mod(x, k);
    let m: usize = (align - 1) as usize;
    assert((x & !m) + (x & m) == x) by (bit_vector);
    vstd::arithmetic::div_mod::lemma_fundamental_div_mod(x as int, align as int);
    vstd::arithmetic::mul::lemma_mul_is_commutative(align as int, x as int / align as int);
}

/// A heap of `capacity` bytes handed out from the front; `pos` is the first free offset.
pub struct BumpArena {
    pub capacity: usize,
    pub pos: usize,
}

impl BumpArena {
    /// The next free offset never passes the end of the heap.
    pub open spec fn wf(&self) -> bool {
        self.pos <= self.capacity
    }

    /// An empty heap of `capacity` bytes.
    pub fn new(capacity: usize) -> (arena: Self)
        ensures
            arena.wf(),
            arena.capacity == capacity,
            arena.pos == 0,
    {
        BumpArena { capacity, pos: 0 }
    }

    /// Reserves `size` bytes aligned to `align` and returns their offset, or `None`
    /// (with nothing reserved) when they do not fit in what is left of the heap.
    pub fn reserve(&mut self, size: usize, align: usize) -> (r: Option<usize>)
        requires
            old(self).wf(),
            is_alignment(align as nat),
            old(self).pos + align - 1 <= usize::MAX,
            align_up(old(self).pos as int, align as int) + size <= usize::MAX,
        ensures
            final(self).wf(),
            final(self).capacity == old(self).capacity,
            align_up(old(self).pos as int, align as int) + size <= old(self).capacity ==> r
                == Some(align_up(old(self).pos as int, align as int) as usize) && final(self).pos
                == align_up(old(self).pos as int, align as int) + size,
            align_up(old(self).pos as int, align as int) + size > old(self).capacity ==> r is None
                && final(self).pos == old(self).pos,
    {
        proof {
            lemma_alignment_positive(align);
        }
        let mask: usize = align - 1;
        let bumped: usize = self.pos + mask;
        proof {
            lemma_mask_rounds_down(bumped, align);
        }
        let aligned: usize = bumped & !mask;
        let new_pos: usize = aligned + size;
        if new_pos > self.capacity {
            return None;
        }
        self.pos = new_pos;
        Some(aligned)
    }
}

/// Two reservations in a row never overlap, and each starts on its alignment inside the heap.
pub proof fn law_reservations_are_disjoint(
    arena: BumpArena,
    size1: usize,
    align1: usize,
    size2: usize,
    align2: usize,
)
    requires
        arena.wf(),
        0 < align1,
        0 < align2,
        align_up(arena.pos as int, align1 as int) + size1 <= arena.capacity,
        align_up(align_up(arena.pos as int, align1 as int) + size1, align2 as int) + size2
            <= arena.capacity,
    ensures
        ({
            let first = align_up(arena.pos as int, align1 as int);
            let second = align_up(first + size1, align2 as int);
            &&& arena.pos <= first
            &&& first % (align1 as int) == 0
            &&& first + size1 <= second
            &&& second % (align2 as int) == 0
            &&& second + size2 <= arena.capacity
        }),
{
    lemma_align_up_bounds(arena.pos as int, align1 as int);
    let first = align_up(arena.pos as int, align1 as int);
    lemma_align_up_bounds(first + size1, align2 as int);
}

} // verus!
