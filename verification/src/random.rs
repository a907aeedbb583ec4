//! The bot's source of chance: a uniform choice from a list.
use vstd::prelude::*;

verus! {

/// `rand::seq::SliceRandom::choose` with `rand::thread_rng()`: an element of
/// `candidates` picked at random, `None` exactly when the list is empty.
/// Which element comes back is left open.
#[verifier::external_body]
pub(crate) fn choose_from(candidates: &Vec<usize>) -> (r: Option<usize>)
    ensures
        r is None <==> candidates@.len() == 0,
        r matches Some(i) ==> candidates@.contains(i),
{
    rand::seq::SliceRandom::choose(candidates.as_slice(), &mut rand::thread_rng()).copied()
}

} // verus!
