use vstd::prelude::*;

verus! {

/// Relies on `fastrand::u32` over the range `0..bound`: a value drawn from the
/// thread-local generator, below `bound`. The range is never empty, so the
/// call does not panic.
#[verifier::external_body]
pub(crate) fn random_below(bound: u32) -> (r: u32)
    requires
        bound > 0,
    ensures
        r < bound,
{
    fastrand::u32(0..bound)
}

} // verus!
