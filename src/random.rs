use rand::Rng;
use vstd::prelude::*;

verus! {

#[verifier::external_type_specification]
#[verifier::external_body]
pub struct ExStdRng(rand::rngs::StdRng);

/// Relies on `Rng::gen_range` over an inclusive range of `u32`: a value
/// inside the range. It panics on an empty range.
#[verifier::external_body]
pub(crate) fn draw_between(rng: &mut rand::rngs::StdRng, low: u32, high: u32) -> (r: u32)
    requires
        low <= high,
    ensures
        low <= r <= high,
{
    rng.gen_range(low..=high)
}

} // verus!
