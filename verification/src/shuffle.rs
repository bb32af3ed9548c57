//! The one outside call the engine makes: shuffling cards.

use vstd::prelude::*;
use rand::seq::SliceRandom;
use crate::cards::Card;

verus! {

/// Relies on rand's `SliceRandom::shuffle` with `rand::thread_rng`: it
/// permutes the slice in place, so the cards afterwards are exactly the
/// cards before, in some order.  Nothing is promised about which order.
#[verifier::external_body]
pub(crate) fn shuffle_cards(cards: &mut Vec<Card>)
    ensures
        final(cards)@.to_multiset() == old(cards)@.to_multiset(),
        final(cards)@.len() == old(cards)@.len(),
{
    let mut rng = rand::thread_rng();
    cards.shuffle(&mut rng);
}

} // verus!
