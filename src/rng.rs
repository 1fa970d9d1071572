//! Random draws used by the map builders and the spawner.

use rand::Rng;
use vstd::prelude::*;

verus! {

/// Relies on `rand::Rng::gen_range` over the thread-local generator: it returns a value of the
/// half-open range `lo..hi`, and panics on an empty range.
#[verifier::external_body]
pub(crate) fn random_range(lo: i64, hi: i64) -> (r: i64)
    requires
        lo < hi,
    ensures
        lo <= r < hi,
{
    rand::thread_rng().gen_range(lo..hi)
}

/// Relies on `rand::Rng::gen::<bool>` over the thread-local generator: a fair coin flip.
#[verifier::external_body]
pub(crate) fn coin_flip() -> (r: bool) {
    rand::thread_rng().gen::<bool>()
}

} // verus!
