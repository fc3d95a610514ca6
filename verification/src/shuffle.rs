//! Random order for candidate endpoints.

use crate::text::texts;
use vstd::prelude::*;

verus! {

/// `rand::seq::SliceRandom::shuffle` with the thread-local generator:
/// reorders `items` in place. Which order comes out is left open; whatever
/// it is, the same strings are there, each as often as before.
#[verifier::external_body]
pub(crate) fn shuffle_strings(items: &mut Vec<String>)
    ensures
        final(items)@.len() == old(items)@.len(),
        texts(final(items)@).to_multiset() == texts(old(items)@).to_multiset(),
{
    rand::seq::SliceRandom::shuffle(items.as_mut_slice(), &mut rand::thread_rng());
}

} // verus!
