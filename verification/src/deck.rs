//! The fixed 44-card deck a fresh game is built from: for each value
//! 2..=10 two Monsters, one Weapon and one Potion, and for each value
//! 11..=14 two Monsters.  The spec functions here give that composition a
//! name, and the lemmas pin down its exact card counts and Monster total.

use vstd::prelude::*;
use crate::cards::Card;
use crate::cards::Suit;
use crate::cards::card_count;
use crate::cards::monster_value;
use crate::cards::msum;
use crate::cards::lemma_msum_concat;
use crate::cards::lemma_msum_single;

verus! {

pub open spec fn monster_card(v: int) -> Card {
    Card { value: v as i32, suit: Suit::Monster }
}

pub open spec fn weapon_card(v: int) -> Card {
    Card { value: v as i32, suit: Suit::Weapon }
}

pub open spec fn potion_card(v: int) -> Card {
    Card { value: v as i32, suit: Suit::Potion }
}

/// The four cards of one value 2..=10: two Monsters, a Weapon, a Potion.
pub open spec fn value_group(v: int) -> Seq<Card> {
    seq![monster_card(v), monster_card(v), weapon_card(v), potion_card(v)]
}

/// The two face-only Monsters of one value 11..=14.
pub open spec fn pair_group(v: int) -> Seq<Card> {
    seq![monster_card(v), monster_card(v)]
}

/// The groups of values 2 up to (not including) `v`.
pub open spec fn low_prefix(v: int) -> Seq<Card>
    decreases v,
{
    if v <= 2 {
        Seq::empty()
    } else {
        low_prefix(v - 1) + value_group(v - 1)
    }
}

/// The Monster pairs of values 11 up to (not including) `v`.
pub open spec fn high_prefix(v: int) -> Seq<Card>
    decreases v,
{
    if v <= 11 {
        Seq::empty()
    } else {
        high_prefix(v - 1) + pair_group(v - 1)
    }
}

/// The full 44-card deck, in the order it is laid out before shuffling.
pub open spec fn standard_deck() -> Seq<Card> {
    low_prefix(11) + high_prefix(15)
}

/// How many copies of a card the standard deck holds.
pub open spec fn standard_count(c: Card) -> nat {
    if c.suit is Monster && 2 <= c.value <= 14 {
        2
    } else if c.suit is Weapon && 2 <= c.value <= 10 {
        1
    } else if c.suit is Potion && 2 <= c.value <= 10 {
        1
    } else {
        0
    }
}

proof fn lemma_count_concat(a: Seq<Card>, b: Seq<Card>, c: Card)
    ensures
        card_count(a + b, c) == card_count(a, c) + card_count(b, c),
    decreases a.len(),
{
    if a.len() == 0 {
        assert(a + b =~= b);
    } else {
        lemma_count_concat(a.drop_first(), b, c);
        assert(a.drop_first() + b =~= (a + b).drop_first());
        assert((a + b)[0] == a[0]);
    }
}

proof fn lemma_count_single(x: Card, c: Card)
    ensures
        card_count(seq![x], c) == if x == c { 1nat } else { 0nat },
{
    assert(seq![x].drop_first() =~= Seq::<Card>::empty());
    assert(card_count(seq![x].drop_first(), c) == 0);
}

proof fn lemma_count_group(v: int, c: Card)
    ensures
        card_count(value_group(v), c) == (if c == monster_card(v) {
            2nat
        } else if c == weapon_card(v) || c == potion_card(v) {
            1nat
        } else {
            0nat
        }),
{
    let m = seq![monster_card(v)];
    let w = seq![weapon_card(v)];
    let p = seq![potion_card(v)];
    assert(value_group(v) =~= m + m + w + p);
    lemma_count_concat(m + m + w, p, c);
    lemma_count_concat(m + m, w, c);
    lemma_count_concat(m, m, c);
    lemma_count_single(monster_card(v), c);
    lemma_count_single(weapon_card(v), c);
    lemma_count_single(potion_card(v), c);
}

proof fn lemma_count_pair(v: int, c: Card)
    ensures
        card_count(pair_group(v), c) == (if c == monster_card(v) {
            2nat
        } else {
            0nat
        }),
{
    let m = seq![monster_card(v)];
    assert(pair_group(v) =~= m + m);
    lemma_count_concat(m, m, c);
    lemma_count_single(monster_card(v), c);
}

proof fn lemma_low_prefix_count(v: int, c: Card)
    requires
        2 <= v <= 11,
    ensures
        low_prefix(v).len() == 4 * (v - 2),
        card_count(low_prefix(v), c) == (if c.suit is Monster && 2 <= c.value < v {
            2nat
        } else if c.suit is Weapon && 2 <= c.value < v {
            1nat
        } else if c.suit is Potion && 2 <= c.value < v {
            1nat
        } else {
            0nat
        }),
    decreases v,
{
    if v == 2 {
        assert(card_count(low_prefix(2), c) == 0);
    } else {
        lemma_low_prefix_count(v - 1, c);
        lemma_count_concat(low_prefix(v - 1), value_group(v - 1), c);
        lemma_count_group(v - 1, c);
    }
}

proof fn lemma_high_prefix_count(v: int, c: Card)
    requires
        11 <= v <= 15,
    ensures
        high_prefix(v).len() == 2 * (v - 11),
        card_count(high_prefix(v), c) == (if c.suit is Monster && 11 <= c.value < v {
            2nat
        } else {
            0nat
        }),
    decreases v,
{
    if v == 11 {
        assert(card_count(high_prefix(11), c) == 0);
    } else {
        lemma_high_prefix_count(v - 1, c);
        lemma_count_concat(high_prefix(v - 1), pair_group(v - 1), c);
        lemma_count_pair(v - 1, c);
    }
}

/// The standard deck holds 44 cards: per value 2..=10 exactly two
/// Monsters, one Weapon and one Potion, per value 11..=14 exactly two
/// Monsters, and no other card at all.
pub proof fn lemma_standard_deck_composition(c: Card)
    ensures
        standard_deck().len() == 44,
        card_count(standard_deck(), c) == standard_count(c),
{
    lemma_low_prefix_count(11, c);
    lemma_high_prefix_count(15, c);
    lemma_count_concat(low_prefix(11), high_prefix(15), c);
}

proof fn lemma_msum_group(v: int)
    requires
        2 <= v <= 14,
    ensures
        msum(value_group(v)) == 2 * v,
{
    let m = seq![monster_card(v)];
    let w = seq![weapon_card(v)];
    let p = seq![potion_card(v)];
    assert(monster_value(monster_card(v)) == v);
    assert(value_group(v) =~= m + m + w + p);
    lemma_msum_concat(m + m + w, p);
    lemma_msum_concat(m + m, w);
    lemma_msum_concat(m, m);
    lemma_msum_single(monster_card(v));
    lemma_msum_single(weapon_card(v));
    lemma_msum_single(potion_card(v));
}

proof fn lemma_msum_pair(v: int)
    requires
        2 <= v <= 14,
    ensures
        msum(pair_group(v)) == 2 * v,
{
    let m = seq![monster_card(v)];
    assert(monster_value(monster_card(v)) == v);
    assert(pair_group(v) =~= m + m);
    lemma_msum_concat(m, m);
    lemma_msum_single(monster_card(v));
}

proof fn lemma_low_prefix_msum(v: int)
    requires
        2 <= v <= 11,
    ensures
        msum(low_prefix(v)) == (v - 1) * v - 2,
    decreases v,
{
    if v == 2 {
        assert(msum(low_prefix(2)) == 0);
    } else {
        lemma_low_prefix_msum(v - 1);
        lemma_msum_concat(low_prefix(v - 1), value_group(v - 1));
        lemma_msum_group(v - 1);
        assert((v - 2) * (v - 1) - 2 + 2 * (v - 1) == (v - 1) * v - 2) by (nonlinear_arith);
    }
}

proof fn lemma_high_prefix_msum(v: int)
    requires
        11 <= v <= 15,
    ensures
        msum(high_prefix(v)) == (v - 1) * v - 110,
    decreases v,
{
    if v == 11 {
        assert(msum(high_prefix(11)) == 0);
    } else {
        lemma_high_prefix_msum(v - 1);
        lemma_msum_concat(high_prefix(v - 1), pair_group(v - 1));
        lemma_msum_pair(v - 1);
        assert((v - 2) * (v - 1) - 110 + 2 * (v - 1) == (v - 1) * v - 110) by (nonlinear_arith);
    }
}

/// The standard deck holds 44 cards.
pub proof fn lemma_standard_deck_len()
    ensures
        standard_deck().len() == 44,
{
    lemma_standard_deck_composition(monster_card(2));
}

/// The standard deck's Monster values add up to 208.
pub proof fn lemma_standard_deck_msum()
    ensures
        msum(standard_deck()) == 208,
{
    lemma_low_prefix_msum(11);
    lemma_high_prefix_msum(15);
    lemma_msum_concat(low_prefix(11), high_prefix(15));
}

} // verus!
