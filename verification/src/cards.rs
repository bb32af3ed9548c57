//! Cards: the immutable values the game is played with.
//!
//! A card is a suit (Monster, Weapon, Potion) and a value; Monsters run
//! from 2 to 14, Weapons and Potions from 2 to 10.  This module also holds
//! the spec-level helpers the engine's contracts are stated over: the
//! label a card is rendered as, the total Monster value of a pile of cards
//! (`msum`), and an exact per-card count (`card_count`).

use vstd::prelude::*;
use vstd::multiset::Multiset;
use vstd::string::StringExecFns;

verus! {

#[derive(Clone, Copy, Debug, PartialEq, Eq, Structural)]
pub enum Suit {
    Monster,
    Weapon,
    Potion,
}

#[derive(Clone, Copy, Debug, PartialEq, Eq, Structural)]
pub struct Card {
    pub value: i32,
    pub suit: Suit,
}

/// A card the game can contain: Monsters 2..=14, Weapons and Potions 2..=10.
pub open spec fn card_wf(c: Card) -> bool {
    match c.suit {
        Suit::Monster => 2 <= c.value <= 14,
        Suit::Weapon => 2 <= c.value <= 10,
        Suit::Potion => 2 <= c.value <= 10,
    }
}

pub open spec fn suit_prefix(s: Suit) -> Seq<char> {
    match s {
        Suit::Monster => "Monster "@,
        Suit::Weapon => "Weapon "@,
        Suit::Potion => "Potion: "@,
    }
}

pub open spec fn value_digits(v: int) -> Seq<char> {
    if v == 2 { "2"@ }
    else if v == 3 { "3"@ }
    else if v == 4 { "4"@ }
    else if v == 5 { "5"@ }
    else if v == 6 { "6"@ }
    else if v == 7 { "7"@ }
    else if v == 8 { "8"@ }
    else if v == 9 { "9"@ }
    else if v == 10 { "10"@ }
    else if v == 11 { "11"@ }
    else if v == 12 { "12"@ }
    else if v == 13 { "13"@ }
    else if v == 14 { "14"@ }
    else { Seq::empty() }
}

/// The text a card is shown as: its suit's prefix followed by its value.
pub open spec fn card_label(c: Card) -> Seq<char> {
    suit_prefix(c.suit) + value_digits(c.value as int)
}

/// The value a card contributes to the Monster total of a pile.
pub open spec fn monster_value(c: Card) -> int {
    if c.suit is Monster {
        c.value as int
    } else {
        0
    }
}

/// Total Monster value of a sequence of cards.
pub open spec fn msum(s: Seq<Card>) -> int
    decreases s.len(),
{
    if s.len() == 0 {
        0
    } else {
        monster_value(s[0]) + msum(s.drop_first())
    }
}

/// How many copies of exactly the card `c` a sequence holds.
pub open spec fn card_count(s: Seq<Card>, c: Card) -> nat
    decreases s.len(),
{
    if s.len() == 0 {
        0
    } else {
        (if s[0] == c { 1nat } else { 0nat }) + card_count(s.drop_first(), c)
    }
}

impl Card {
    pub fn is_potion(self) -> (r: bool)
        ensures
            r == (self.suit is Potion),
    {
        matches!(self.suit, Suit::Potion)
    }

    pub fn formatted(self) -> (r: String)
        requires
            card_wf(self),
        ensures
            r@ == card_label(self),
    {
        let prefix: &str = match self.suit {
            Suit::Monster => "Monster ",
            Suit::Weapon => "Weapon ",
            Suit::Potion => "Potion: ",
        };
        let digits: &str = match self.value {
            2 => "2",
            3 => "3",
            4 => "4",
            5 => "5",
            6 => "6",
            7 => "7",
            8 => "8",
            9 => "9",
            10 => "10",
            11 => "11",
            12 => "12",
            13 => "13",
            _ => "14",
        };
        prefix.to_owned().concat(digits)
    }
}

/// Monster totals add up over concatenation.
pub proof fn lemma_msum_concat(a: Seq<Card>, b: Seq<Card>)
    ensures
        msum(a + b) == msum(a) + msum(b),
    decreases a.len(),
{
    if a.len() == 0 {
        assert(a + b =~= b);
    } else {
        lemma_msum_concat(a.drop_first(), b);
        assert(a.drop_first() + b =~= (a + b).drop_first());
        assert((a + b)[0] == a[0]);
    }
}

/// The Monster total of a single card is its contribution.
pub proof fn lemma_msum_single(x: Card)
    ensures
        msum(seq![x]) == monster_value(x),
{
    assert(seq![x].drop_first() =~= Seq::<Card>::empty());
    assert(msum(seq![x].drop_first()) == 0);
    assert(msum(seq![x]) == monster_value(seq![x][0]) + msum(seq![x].drop_first()));
}

/// Removing one card lowers the Monster total by that card's contribution.
pub proof fn lemma_msum_remove(s: Seq<Card>, i: int)
    requires
        0 <= i < s.len(),
    ensures
        msum(s.remove(i)) == msum(s) - monster_value(s[i]),
{
    let left = s.take(i);
    let mid = seq![s[i]];
    let right = s.skip(i + 1);
    assert(s =~= left + mid + right);
    assert(s.remove(i) =~= left + right);
    lemma_msum_concat(left + mid, right);
    lemma_msum_concat(left, mid);
    lemma_msum_concat(left, right);
    assert(mid.drop_first() =~= Seq::<Card>::empty());
    assert(msum(mid.drop_first()) == 0);
    assert(msum(mid) == monster_value(mid[0]) + msum(mid.drop_first()));
    assert(mid[0] == s[i]);
}

/// Two piles with the same cards have the same Monster total, whatever
/// the order: `msum` is invariant under permutation.
pub proof fn lemma_msum_permutation(x: Seq<Card>, y: Seq<Card>)
    requires
        x.to_multiset() == y.to_multiset(),
    ensures
        msum(x) == msum(y),
    decreases x.len(),
{
    broadcast use vstd::seq_lib::group_to_multiset_ensures;

    if x.len() == 0 {
        assert(y.to_multiset().len() == 0);
    } else {
        let c = x[0];
        assert(x.contains(c));
        assert(y.to_multiset().count(c) > 0);
        assert(y.contains(c));
        let j = choose|j: int| 0 <= j < y.len() && y[j] == c;
        assert(x.drop_first() =~= x.remove(0));
        assert(x.remove(0).to_multiset() == x.to_multiset().remove(c));
        assert(y.remove(j).to_multiset() == y.to_multiset().remove(c));
        lemma_msum_permutation(x.drop_first(), y.remove(j));
        lemma_msum_remove(y, j);
    }
}

/// A pile of well-formed cards has a Monster total between 0 and
/// fourteen per card.
pub proof fn lemma_msum_bounds(s: Seq<Card>)
    requires
        forall|i: int| 0 <= i < s.len() ==> card_wf(#[trigger] s[i]),
    ensures
        0 <= msum(s) <= 14 * s.len(),
    decreases s.len(),
{
    if s.len() > 0 {
        lemma_msum_bounds(s.drop_first());
    }
}

/// `card_count` agrees with the multiset count of the sequence.
pub proof fn lemma_card_count_multiset(s: Seq<Card>, c: Card)
    ensures
        card_count(s, c) == s.to_multiset().count(c),
    decreases s.len(),
{
    broadcast use vstd::multiset::group_multiset_axioms;
    broadcast use vstd::seq_lib::group_to_multiset_ensures;

    if s.len() == 0 {
        assert forall|a: Card| s.to_multiset().count(a) == 0 by {
            assert(!s.contains(a));
        }
        assert(s.to_multiset() =~= Multiset::<Card>::empty());
    } else {
        lemma_card_count_multiset(s.drop_first(), c);
        assert(s.drop_first() =~= s.remove(0));
        assert(s.remove(0).to_multiset() == s.to_multiset().remove(s[0]));
        assert(s.contains(s[0]));
        assert(s.to_multiset().count(s[0]) > 0);
        assert(s.to_multiset().remove(s[0]).count(c) == s.to_multiset().count(c) - (
        if c == s[0] {
            1int
        } else {
            0int
        }));
    }
}

/// Every card of `y` is well formed when `y` holds the same cards as a
/// well-formed pile `x`.
pub proof fn lemma_wf_cards_from_multiset(x: Seq<Card>, y: Seq<Card>)
    requires
        x.to_multiset() == y.to_multiset(),
        forall|i: int| 0 <= i < x.len() ==> card_wf(#[trigger] x[i]),
    ensures
        forall|i: int| 0 <= i < y.len() ==> card_wf(#[trigger] y[i]),
{
    broadcast use vstd::seq_lib::group_to_multiset_ensures;

    assert forall|i: int| 0 <= i < y.len() implies card_wf(#[trigger] y[i]) by {
        assert(y.contains(y[i]));
        assert(y.to_multiset().count(y[i]) > 0);
        assert(x.contains(y[i]));
    }
}

} // verus!
