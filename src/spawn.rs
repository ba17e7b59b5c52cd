//! The spawn policy: which value a new tile gets, and the random draws it
//! is made from.
use vstd::prelude::*;

verus! {

/// Value of a freshly spawned tile for a roll drawn below 10: 4 on a roll
/// of 0 (one time in ten), else 2.
pub fn spawn_value(roll: usize) -> (v: u64)
    ensures
        v == if roll == 0 {
            4u64
        } else {
            2u64
        },
{
    if roll == 0 {
        4
    } else {
        2
    }
}

/// Relies on rand::thread_rng and rand::Rng::gen_range: a number drawn
/// uniformly below `n`; gen_range panics on an empty range, so `n > 0`.
#[verifier::external_body]
pub(crate) fn random_below(n: usize) -> (r: usize)
    requires
        n > 0,
    ensures
        r < n,
{
    rand::Rng::gen_range(&mut rand::thread_rng(), 0..n)
}

} // verus!
