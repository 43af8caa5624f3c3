//! Trusted access to the process random source. Nothing is assumed of the
//! values beyond their range: every caller states what holds of whatever
//! comes back.

use vstd::prelude::*;

verus! {

/// Relies on rand::Rng::gen over rand::thread_rng: some 32-bit value comes
/// back; nothing is promised of it.
#[verifier::external_body]
pub(crate) fn random_seed() -> u32 {
    rand::Rng::gen(&mut rand::thread_rng())
}

/// Relies on rand::Rng::gen_range over rand::thread_rng with the range
/// `0..n`: it panics on an empty range (kept out by `requires`) and
/// otherwise returns a value of the range.
#[verifier::external_body]
pub(crate) fn random_index(n: usize) -> (r: usize)
    requires
        n > 0,
    ensures
        r < n,
{
    rand::Rng::gen_range(&mut rand::thread_rng(), 0..n)
}

} // verus!
