//! Random choices, drawn from the thread-local generator of the `rand` crate.

use rand::seq::SliceRandom;
use vstd::prelude::*;

verus! {

/// Picks one of `items` at random with `rand::seq::SliceRandom::choose` and
/// `rand::thread_rng`. The claim: nothing is picked exactly when `items` is empty, and what
/// is picked is one of `items`; which one is left to chance.
#[verifier::external_body]
pub(crate) fn pick_random<T>(items: &Vec<T>) -> (res: Option<&T>)
    ensures
        res is None <==> items@.len() == 0,
        res matches Some(x) ==> items@.contains(*x),
{
    items.as_slice().choose(&mut rand::thread_rng())
}

/// Picks one of `items` at random; there must be one to pick.
pub fn pick_one<T>(items: &Vec<T>) -> (res: &T)
    requires
        items@.len() > 0,
    ensures
        items@.contains(*res),
{
    match pick_random(items) {
        Some(x) => x,
        None => {
            assert(false);
            &items[0]
        },
    }
}

} // verus!
