//! Random draws.

use vstd::prelude::*;
use rand::distributions::uniform::SampleRange;
use rand::Rng;

verus! {

/// One uniform draw from `low..high` by `rand`'s `SampleRange::sample_single`
/// on the thread's generator. Trusted: the draw lies in the range. An empty
/// range makes that function panic, so it is left out.
#[verifier::external_body]
pub(crate) fn sample_single(low: u64, high: u64) -> (drawn: u64)
    requires
        low < high,
    ensures
        low <= drawn < high,
{
    (low..high).sample_single(&mut rand::thread_rng())
}

/// One uniform draw from `low..high` by `rand`'s `Rng::gen_range` on the
/// thread's generator. Trusted: the draw lies in the range. An empty range
/// makes that function panic, so it is left out.
#[verifier::external_body]
pub(crate) fn gen_range(low: u32, high: u32) -> (drawn: u32)
    requires
        low < high,
    ensures
        low <= drawn < high,
{
    rand::thread_rng().gen_range(low..high)
}

} // verus!
