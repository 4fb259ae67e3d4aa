//! Random draws from the thread-local generator.
use rand::seq::IteratorRandom;
use rand::Rng;
use vstd::prelude::*;

verus! {

/// Calls `Rng::gen_range` of rand on the half-open range `low..high`, with the
/// generator of the current thread. rand panics on an empty range, which the
/// precondition excludes, and returns a member of the range.
#[verifier::external_body]
pub(crate) fn random_below(low: i64, high: i64) -> (r: i64)
    requires
        low < high,
    ensures
        low <= r < high,
{
    rand::thread_rng().gen_range(low..high)
}

/// A place drawn from the first `n`.
pub fn random_index(n: usize) -> (r: usize)
    requires
        n > 0,
    ensures
        r < n,
{
    let bound: i64 = if n as u64 > 0x7fff_ffff_ffff_ffff {
        0x7fff_ffff_ffff_ffff
    } else {
        n as i64
    };
    random_below(0, bound) as usize
}

/// Calls `IteratorRandom::choose` of rand on the items of `candidates`, with
/// the generator of the current thread. rand returns `None` exactly when there
/// is no item, and otherwise one of the items.
#[verifier::external_body]
pub(crate) fn random_choice(candidates: &Vec<usize>) -> (r: Option<usize>)
    ensures
        candidates@.len() == 0 <==> r is None,
        r matches Some(c) ==> candidates@.contains(c),
{
    candidates.iter().copied().choose(&mut rand::thread_rng())
}

} // verus!
