//! The source of randomness of a replication.

use vstd::prelude::*;
use rand::seq::SliceRandom;
use crate::id::Id;

verus! {

/// The random number generator of a replication.
#[verifier::external_type_specification]
#[verifier::external_body]
pub struct ExChaChaRng(rand_chacha::ChaChaRng);

/// Calls `rand::seq::SliceRandom::shuffle` on `ids`. The outside function
/// goes through the slice from the back and swaps each element with one at
/// or before it; so what comes out holds the same identifiers, each as often
/// as before, in an order that depends on the generator.
#[verifier::external_body]
pub(crate) fn shuffle(rng: &mut rand_chacha::ChaChaRng, ids: &mut Vec<Id>)
    ensures
        final(ids)@.to_multiset() == old(ids)@.to_multiset(),
{
    ids.shuffle(rng);
}

} // verus!
