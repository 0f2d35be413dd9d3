use vstd::prelude::*;
use rand::Rng;
use crate::deltas::valid_state;

verus! {

#[verifier::external_type_specification]
#[verifier::external_body]
pub struct ExThreadRng(rand::rngs::ThreadRng);

/// Relies on rand::Rng::gen_range over the non-empty inclusive range
/// `0..=2`: the drawn value always lies in the range.  Nothing is assumed
/// about which value comes out.
#[verifier::external_body]
fn draw_state(rng: &mut rand::rngs::ThreadRng) -> (r: u8)
    ensures
        valid_state(r),
{
    rng.gen_range(0..=2)
}

/// A random initial condition of the given length: every entry drawn from
/// the caller's generator, every entry a valid state.
pub fn random_states(rng: &mut rand::rngs::ThreadRng, size: usize) -> (r: Vec<u8>)
    ensures
        r@.len() == size as int,
        forall|i: int| 0 <= i < size as int ==> valid_state(#[trigger] r@[i]),
{
    let mut r: Vec<u8> = Vec::new();
    let mut i: usize = 0;
    while i < size
        invariant
            i <= size,
            r@.len() == i as int,
            forall|t: int| 0 <= t < i as int ==> valid_state(#[trigger] r@[t]),
        decreases size - i,
    {
        let v = draw_state(rng);
        r.push(v);
        i = i + 1;
    }
    r
}

} // verus!
