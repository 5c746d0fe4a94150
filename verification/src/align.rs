//! Integer alignment helper: round an index up to the next multiple of an
//! alignment.

use vstd::prelude::*;

verus! {

/// The smallest `n >= ix` with `n % alignment == 0`.
pub open spec fn align_up(ix: int, alignment: int) -> int
    recommends
        alignment >= 1,
{
    if ix % alignment == 0 {
        ix
    } else {
        ix + (alignment - ix % alignment)
    }
}

/// `align_up` returns a multiple of the alignment, at or after `ix` and
/// less than one full alignment unit after it.
pub proof fn lemma_align_up_bounds(ix: int, alignment: int)
    requires
        alignment >= 1,
        ix >= 0,
    ensures
        align_up(ix, alignment) % alignment == 0,
        ix <= align_up(ix, alignment) < ix + alignment,
{
    let r = ix % alignment;
    vstd::arithmetic::div_mod::lemma_mod_bound(ix, alignment);
    if r != 0 {
        vstd::arithmetic::div_mod::lemma_sub_mod_noop(ix + alignment, r, alignment);
        vstd::arithmetic::div_mod::lemma_mod_add_multiples_vanish(ix, alignment);
        vstd::arithmetic::div_mod::lemma_mod_twice(ix, alignment);
        vstd::arithmetic::div_mod::lemma_small_mod(0, alignment as nat);
        assert(((ix + alignment) % alignment - r % alignment) % alignment == ((ix + alignment)
            - r) % alignment);
        assert((ix + (alignment - r)) % alignment == 0);
    }
}

/// Alignment is idempotent, and the padding it adds is less than one
/// alignment unit.
pub proof fn lemma_align_up_idempotent(ix: int, alignment: int)
    requires
        alignment >= 1,
        ix >= 0,
    ensures
        align_up(align_up(ix, alignment), alignment) == align_up(ix, alignment),
        align_up(ix, alignment) - ix < alignment,
{
    lemma_align_up_bounds(ix, alignment);
}

/// `align(ix, a) = smallest n >= ix with n mod a == 0`.  The alignment must
/// be at least 1; the sum bound keeps the padded index inside `usize`.
pub fn align(ix: usize, alignment: usize) -> (r: usize)
    requires
        alignment >= 1,
        ix + alignment <= usize::MAX,
    ensures
        r == align_up(ix as int, alignment as int),
        r % alignment == 0,
        ix <= r < ix + alignment,
{
    proof {
        lemma_align_up_bounds(ix as int, alignment as int);
    }
    let rem: usize = ix % alignment;
    if rem == 0 {
        ix
    } else {
        ix + (alignment - rem)
    }
}

} // verus!
