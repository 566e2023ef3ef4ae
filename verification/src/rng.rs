use vstd::prelude::*;

use rand::Rng;

verus! {

/// Relies on `rand::thread_rng` and `rand::Rng::gen_range`: a draw from a
/// nonempty inclusive range lies within that range. `gen_range` panics only
/// on an empty range, which the precondition rules out; nothing more is
/// promised of the drawn value, since it depends on the generator's state.
#[verifier::external_body]
pub(crate) fn draw_in_range(lo: u32, hi: u32) -> (r: u32)
    requires
        lo <= hi,
    ensures
        lo <= r <= hi,
{
    rand::thread_rng().gen_range(lo..=hi)
}

} // verus!
