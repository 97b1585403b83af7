//! The engine's only source of randomness, kept behind two small wrappers
//! around the `rand` crate.

use rand::seq::SliceRandom;
use rand::Rng;
use vstd::prelude::*;

verus! {

/// Relies on `<[usize]>::choose` of the rand crate: it returns `None` exactly
/// when the slice is empty, and otherwise a uniformly chosen element of the
/// slice.
#[verifier::external_body]
pub(crate) fn choose_index(v: &Vec<usize>) -> (r: Option<usize>)
    ensures
        r is Some <==> v@.len() > 0,
        r matches Some(i) ==> v@.contains(i),
{
    v.as_slice().choose(&mut rand::thread_rng()).copied()
}

/// Relies on `rand::Rng::gen_ratio`: a Bernoulli trial that returns `true`
/// with probability 1/10. Nothing can be promised of a single outcome.
#[verifier::external_body]
pub(crate) fn one_in_ten() -> (r: bool) {
    rand::thread_rng().gen_ratio(1, 10)
}

} // verus!
