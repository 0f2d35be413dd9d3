use vstd::prelude::*;
use vstd::arithmetic::div_mod::{
    lemma_div_is_ordered, lemma_div_is_ordered_by_denominator, lemma_mod_division_less_than_divisor,
};
use crate::deltas::valid_state;

verus! {

/// The uniform initial condition: every site in state `0`.
pub fn uniform_states(size: usize) -> (r: Vec<u8>)
    ensures
        r@.len() == size as int,
        forall|i: int| 0 <= i < size as int ==> #[trigger] r@[i] == 0u8,
{
    let mut r: Vec<u8> = Vec::new();
    let mut i: usize = 0;
    while i < size
        invariant
            i <= size,
            r@.len() == i as int,
            forall|t: int| 0 <= t < i as int ==> #[trigger] r@[t] == 0u8,
        decreases size - i,
    {
        r.push(0);
        i = i + 1;
    }
    r
}

/// The block length of a traveling-wave pattern with the given number of
/// periods: the ring is covered by runs of equal states, each run one
/// longer than `size` divided by the number of blocks per ring.
pub open spec fn wave_block(size: int, periods: int) -> int {
    size / (3 * periods) + 1
}

/// A traveling-wave initial condition: runs of equal states that cycle
/// through `0, 1, 2` around the ring, `periods` waves per ring.  Site `i`
/// holds state `(i / wave_block(size, periods)) mod 3`.
pub fn wave_states(size: usize, periods: usize) -> (r: Vec<u8>)
    requires
        1 <= periods,
        periods * 3 <= usize::MAX,
    ensures
        r@.len() == size as int,
        forall|i: int|
            0 <= i < size as int ==> (#[trigger] r@[i]) as int == (i / wave_block(
                size as int,
                periods as int,
            )) % 3,
        forall|i: int| 0 <= i < size as int ==> valid_state(#[trigger] r@[i]),
    {
    let p3: usize = periods * 3;
    let wave_len: usize = size / p3;
    proof {
        lemma_div_is_ordered_by_denominator(size as int, 3, p3 as int);
        lemma_div_is_ordered(size as int, usize::MAX as int, 3);
    }
    let w: usize = wave_len + 1;
    let mut r: Vec<u8> = Vec::new();
    let mut i: usize = 0;
    while i < size
        invariant
            w as int == wave_block(size as int, periods as int),
            1 <= w,
            i <= size,
            r@.len() == i as int,
            forall|t: int|
                0 <= t < i as int ==> (#[trigger] r@[t]) as int == (t / w as int) % 3,
            forall|t: int| 0 <= t < i as int ==> valid_state(#[trigger] r@[t]),
        decreases size - i,
    {
        let v: u8 = ((i / w) % 3) as u8;
        proof {
            lemma_mod_division_less_than_divisor((i / w) as int, 3);
        }
        r.push(v);
        i = i + 1;
    }
    r
}

} // verus!
