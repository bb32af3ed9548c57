//! The game engine: a single stateful value driven by an outside loop.

use vstd::prelude::*;
use crate::cards::Card;
use crate::cards::Suit;
use crate::cards::card_wf;
use crate::cards::card_label;
use crate::cards::msum;
use crate::cards::lemma_msum_concat;
use crate::cards::lemma_msum_remove;
use crate::cards::lemma_msum_bounds;
use crate::cards::lemma_msum_permutation;
use crate::cards::lemma_wf_cards_from_multiset;
use crate::deck::standard_deck;
use crate::deck::low_prefix;
use crate::deck::high_prefix;
use crate::deck::value_group;
use crate::deck::pair_group;
use crate::deck::standard_count;
use crate::deck::lemma_standard_deck_msum;
use crate::deck::lemma_standard_deck_len;
use crate::deck::lemma_standard_deck_composition;
use crate::cards::card_count;
use crate::cards::lemma_card_count_multiset;
use crate::cards::lemma_msum_single;
use crate::shuffle::shuffle_cards;

verus! {

/// Where the current room stands: still at the avoid-or-play decision
/// point, or committed to playing its cards.
#[derive(Debug)]
pub enum Step {
    RoomChoice,
    PlayCard,
}

/// How a Monster is resolved: by direct health loss, or with the
/// equipped weapon.
#[derive(Debug)]
pub enum FightMode {
    Barehanded,
    Weapon,
}

/// The whole game state.  `deck` holds the face-down cards, `room` the
/// up-to-four face-up ones; `weapon` is 0 while no weapon is equipped,
/// and `weapon_bound` is the strongest Monster the equipped weapon may
/// still be used against.
#[derive(Debug)]
pub struct Game {
    pub health: i32,
    pub weapon: i32,
    pub weapon_bound: i32,
    pub score: i32,
    pub deck: Vec<Card>,
    pub room: Vec<Card>,
    pub last_card: Option<Card>,
    pub step: Step,
}

impl Game {
    /// The engine's invariant, established by the constructors and kept
    /// by every operation.
    pub open spec fn wf(self) -> bool {
        &&& 0 <= self.health <= 20
        &&& 0 <= self.weapon <= 10
        &&& 0 <= self.weapon_bound <= 14
        &&& self.room@.len() <= 4
        &&& self.deck@.len() + self.room@.len() <= 44
        &&& forall|i: int| 0 <= i < self.deck@.len() ==> card_wf(#[trigger] self.deck@[i])
        &&& forall|i: int| 0 <= i < self.room@.len() ==> card_wf(#[trigger] self.room@[i])
        &&& (self.step is RoomChoice ==> self.room@.len() == 4 && self.deck@.len() >= 4)
        &&& self.score + msum(self.deck@ + self.room@) <= 100
        &&& self.score >= -616
        &&& (self.last_card is Some ==> card_wf(self.last_card->0))
    }

    pub open spec fn spec_can_avoid(self) -> bool {
        self.step is RoomChoice
    }

    /// How many rooms are still ahead, counting the current replenishment
    /// cycle: 0 on an empty deck, else one more than a room's worth of
    /// three for each three cards left.
    pub open spec fn spec_rooms_remaining(self) -> int {
        if self.deck@.len() == 0 {
            0
        } else {
            self.deck@.len() as int / 3 + 1
        }
    }

    /// Start a game from a given pile of cards: the first four become the
    /// room, the rest the deck, and the score starts at minus the pile's
    /// Monster total (so that fighting every Monster brings it to zero).
    /// Avoidance is armed only when a full next room is available.
    pub fn from_deck(cards: Vec<Card>) -> (g: Game)
        requires
            4 <= cards@.len() <= 44,
            forall|i: int| 0 <= i < cards@.len() ==> card_wf(#[trigger] cards@[i]),
        ensures
            g.wf(),
            g.health == 20,
            g.weapon == 0,
            g.weapon_bound == 0,
            g.score == -msum(cards@),
            g.room@ == cards@.take(4),
            g.deck@ == cards@.skip(4),
            g.last_card is None,
            g.step is RoomChoice <==> cards@.len() >= 8,
    {
        let ghost all = cards@;
        let mut total: i32 = 0;
        let mut i: usize = 0;
        while i < cards.len()
            invariant
                i <= cards@.len() <= 44,
                cards@ == all,
                forall|k: int| 0 <= k < cards@.len() ==> card_wf(#[trigger] cards@[k]),
                total == msum(all.take(i as int)),
                0 <= total <= 14 * i,
            decreases cards@.len() - i,
        {
            let c = cards[i];
            proof {
                assert(all.take(i + 1) =~= all.take(i as int) + seq![all[i as int]]);
                lemma_msum_concat(all.take(i as int), seq![all[i as int]]);
                lemma_msum_single(all[i as int]);
            }
            if matches!(c.suit, Suit::Monster) {
                total = total + c.value;
            }
            i = i + 1;
        }
        proof {
            assert(all.take(all.len() as int) =~= all);
        }
        let mut room: Vec<Card> = Vec::new();
        let mut deck: Vec<Card> = Vec::new();
        let mut j: usize = 0;
        while j < 4
            invariant
                j <= 4 <= cards@.len(),
                cards@ == all,
                room@ == all.take(j as int),
            decreases 4 - j,
        {
            room.push(cards[j]);
            proof {
                assert(all.take(j + 1) =~= all.take(j as int).push(all[j as int]));
            }
            j = j + 1;
        }
        while j < cards.len()
            invariant
                4 <= j <= cards@.len(),
                cards@ == all,
                deck@ == all.subrange(4, j as int),
            decreases cards@.len() - j,
        {
            deck.push(cards[j]);
            proof {
                assert(all.subrange(4, j + 1) =~= all.subrange(4, j as int).push(all[j as int]));
            }
            j = j + 1;
        }
        let step = if deck.len() >= 4 {
            Step::RoomChoice
        } else {
            Step::PlayCard
        };
        let g = Game {
            health: 20,
            weapon: 0,
            weapon_bound: 0,
            score: -total,
            deck,
            room,
            last_card: None,
            step,
        };
        proof {
            assert(g.deck@ == all.skip(4));
            assert(g.room@ == all.take(4));
            assert(all =~= all.take(4) + all.skip(4));
            lemma_msum_concat(all.take(4), all.skip(4));
            lemma_msum_concat(g.deck@, g.room@);
            vstd::seq_lib::lemma_seq_union_to_multiset_commutative(g.deck@, g.room@);
            lemma_msum_permutation(g.deck@ + g.room@, all.take(4) + all.skip(4));
            assert(forall|k: int| 0 <= k < g.deck@.len() ==> card_wf(#[trigger] g.deck@[k]));
            assert(forall|k: int| 0 <= k < g.room@.len() ==> card_wf(#[trigger] g.room@[k]));
        }
        g
    }

    /// Build the standard 44-card deck, shuffle it, and deal the first
    /// room of four.  The fresh game holds exactly the standard deck's
    /// cards across deck and room.
    pub fn new() -> (g: Game)
        ensures
            g.wf(),
            g.health == 20,
            g.weapon == 0,
            g.weapon_bound == 0,
            g.score == -208,
            g.last_card is None,
            g.step is RoomChoice,
            g.deck@.len() == 40,
            g.room@.len() == 4,
            (g.deck@ + g.room@).to_multiset() == standard_deck().to_multiset(),
    {
        let mut cards: Vec<Card> = Vec::new();
        let mut v: i32 = 2;
        while v <= 10
            invariant
                2 <= v <= 11,
                cards@ == low_prefix(v as int),
                forall|k: int| 0 <= k < cards@.len() ==> card_wf(#[trigger] cards@[k]),
            decreases 11 - v,
        {
            let ghost before = cards@;
            cards.push(Card { value: v, suit: Suit::Monster });
            cards.push(Card { value: v, suit: Suit::Monster });
            cards.push(Card { value: v, suit: Suit::Weapon });
            cards.push(Card { value: v, suit: Suit::Potion });
            proof {
                assert(cards@ =~= before + value_group(v as int));
                assert(low_prefix(v as int + 1) == low_prefix(v as int) + value_group(v as int));
            }
            v = v + 1;
        }
        while v <= 14
            invariant
                11 <= v <= 15,
                cards@ == low_prefix(11) + high_prefix(v as int),
                forall|k: int| 0 <= k < cards@.len() ==> card_wf(#[trigger] cards@[k]),
            decreases 15 - v,
        {
            let ghost before = cards@;
            cards.push(Card { value: v, suit: Suit::Monster });
            cards.push(Card { value: v, suit: Suit::Monster });
            proof {
                assert(cards@ =~= before + pair_group(v as int));
                assert(high_prefix(v as int + 1) == high_prefix(v as int) + pair_group(v as int));
                assert(low_prefix(11) + high_prefix(v as int) + pair_group(v as int) =~= low_prefix(
                    11,
                ) + (high_prefix(v as int) + pair_group(v as int)));
            }
            v = v + 1;
        }
        proof {
            assert(cards@ == standard_deck());
            lemma_standard_deck_msum();
            lemma_standard_deck_len();
            vstd::seq_lib::to_multiset_len(standard_deck());
        }
        shuffle_cards(&mut cards);
        proof {
            lemma_wf_cards_from_multiset(standard_deck(), cards@);
            lemma_msum_permutation(standard_deck(), cards@);
            vstd::seq_lib::to_multiset_len(cards@);
        }
        let g = Game::from_deck(cards);
        proof {
            assert(g.deck@ + g.room@ =~= cards@.skip(4) + cards@.take(4));
            vstd::seq_lib::lemma_seq_union_to_multiset_commutative(cards@.skip(4), cards@.take(4));
            assert(cards@.take(4) + cards@.skip(4) =~= cards@);
        }
        g
    }

    pub fn rooms_remaining(&mut self) -> (r: usize)
        ensures
            *final(self) == *old(self),
            r == old(self).spec_rooms_remaining(),
    {
        if self.deck.is_empty() {
            0
        } else {
            self.deck.len() / 3 + 1
        }
    }

    pub fn can_avoid_room(&mut self) -> (r: bool)
        ensures
            *final(self) == *old(self),
            r == old(self).spec_can_avoid(),
    {
        matches!(self.step, Step::RoomChoice)
    }

    pub fn deck_len(&mut self) -> (r: usize)
        ensures
            *final(self) == *old(self),
            r == old(self).deck@.len(),
    {
        self.deck.len()
    }

    /// What a card play does to the player's state: the exact health,
    /// weapon, weapon-bound and score updates for each suit and fight
    /// mode, as `play_card` performs them.
    pub open spec fn play_card_post(pre: Game, post: Game, idx: int, fight_mode: FightMode) -> bool {
        let c = pre.room@[idx];
        &&& post.room@ == pre.room@.remove(idx)
        &&& post.deck@ == pre.deck@
        &&& post.last_card == Some(c)
        &&& post.step == pre.step
        &&& match c.suit {
            Suit::Potion => {
                &&& post.health == (if pre.health + c.value > 20 {
                    20int
                } else {
                    pre.health + c.value
                })
                &&& post.weapon == pre.weapon
                &&& post.weapon_bound == pre.weapon_bound
                &&& post.score == pre.score
            },
            Suit::Weapon => {
                &&& post.weapon == c.value
                &&& post.weapon_bound == 14
                &&& post.health == pre.health
                &&& post.score == pre.score
            },
            Suit::Monster => {
                &&& post.score == pre.score + c.value
                &&& post.weapon == pre.weapon
                &&& match fight_mode {
                    FightMode::Weapon => {
                        &&& post.health == (if pre.health + pre.weapon - c.value < 0 {
                            0int
                        } else if pre.health + pre.weapon - c.value > pre.health {
                            pre.health as int
                        } else {
                            pre.health + pre.weapon - c.value
                        })
                        &&& post.weapon_bound == c.value
                    },
                    FightMode::Barehanded => {
                        &&& post.health == (if pre.health - c.value < 0 {
                            0int
                        } else {
                            pre.health - c.value
                        })
                        &&& post.weapon_bound == pre.weapon_bound
                    },
                }
            },
        }
    }

    /// A weapon may be raised against the card at `idx` only when it is a
    /// Monster, a weapon is equipped, and the Monster is no stronger than
    /// the weapon's bound.
    pub open spec fn spec_needs_fight_mode(self, c: Card) -> bool {
        c.suit is Monster && self.weapon_bound >= c.value && self.weapon > 0
    }

    pub fn needs_fight_mode(&mut self, idx: usize) -> (r: bool)
        requires
            idx < old(self).room@.len(),
        ensures
            *final(self) == *old(self),
            r == old(self).spec_needs_fight_mode(old(self).room@[idx as int]),
    {
        let played = self.room[idx];
        matches!(played.suit, Suit::Monster) && self.weapon_bound >= played.value && self.weapon
            > 0
    }

    /// Remove the card at `idx` from the room and apply its effect: a
    /// Potion heals up to 20, a Weapon is equipped with its bound reset
    /// to 14, a Monster is fought with the weapon (health clamped so a
    /// fight never heals, the bound degraded to the Monster's value) or
    /// barehanded (health floored at 0); Monsters score their value.
    pub fn play_card(&mut self, idx: usize, fight_mode: FightMode)
        requires
            old(self).wf(),
            old(self).step is PlayCard,
            idx < old(self).room@.len(),
            fight_mode is Weapon
                ==> old(self).spec_needs_fight_mode(old(self).room@[idx as int]),
        ensures
            final(self).wf(),
            0 <= final(self).health <= 20,
            Game::play_card_post(*old(self), *final(self), idx as int, fight_mode),
            old(self).room@[idx as int].suit is Monster && fight_mode is Weapon
                ==> final(self).health <= old(self).health,
    {
        proof {
            lemma_msum_concat(old(self).deck@, old(self).room@);
            lemma_msum_bounds(old(self).deck@);
            lemma_msum_bounds(old(self).room@);
            lemma_msum_remove(old(self).room@, idx as int);
        }
        let played = self.room.remove(idx);
        match played.suit {
            Suit::Potion => {
                let healed = self.health + played.value;
                self.health = if healed > 20 {
                    20
                } else {
                    healed
                };
            },
            Suit::Weapon => {
                self.weapon = played.value;
                self.weapon_bound = 14;
            },
            Suit::Monster => {
                match fight_mode {
                    FightMode::Weapon => {
                        let outcome = self.health + self.weapon - played.value;
                        self.health = if outcome < 0 {
                            0
                        } else if outcome > self.health {
                            self.health
                        } else {
                            outcome
                        };
                        self.weapon_bound = played.value;
                    },
                    FightMode::Barehanded => {
                        let outcome = self.health - played.value;
                        self.health = if outcome < 0 {
                            0
                        } else {
                            outcome
                        };
                    },
                }
                self.score = self.score + played.value;
            },
        }
        self.last_card = Some(played);
        proof {
            lemma_msum_concat(self.deck@, self.room@);
        }
    }

    /// How many cards a replenishment moves from deck to room: up to
    /// three, as many as the deck still has.
    pub open spec fn spec_replenish_count(self) -> int {
        if self.deck@.len() >= 3 {
            3
        } else {
            self.deck@.len() as int
        }
    }

    /// A replenished state: the room kept its remaining card and gained
    /// the deck's front cards; avoidance is re-armed exactly when a full
    /// next room is still in the deck afterwards.
    pub open spec fn replenished(pre: Game, post: Game) -> bool {
        let k = pre.spec_replenish_count();
        &&& post.room@ == pre.room@ + pre.deck@.take(k)
        &&& post.deck@ == pre.deck@.skip(k)
        &&& (post.step is RoomChoice <==> pre.deck@.len() - k >= 4)
    }

    /// Decide whether the per-room loop should stop: on death or an
    /// exhausted room it stops; on a room down to one card with cards
    /// still in the deck it replenishes (moving `min(3, deck)` cards,
    /// conserving the cards in play) and stops; otherwise play goes on.
    pub fn maybe_end_turn(&mut self) -> (r: bool)
        requires
            old(self).wf(),
        ensures
            final(self).wf(),
            final(self).health == old(self).health,
            final(self).weapon == old(self).weapon,
            final(self).weapon_bound == old(self).weapon_bound,
            final(self).score == old(self).score,
            final(self).last_card == old(self).last_card,
            r == (old(self).health == 0 || old(self).room@.len() == 0 || (old(
                self,
            ).room@.len() == 1 && old(self).deck@.len() > 0)),
            old(self).health == 0 || old(self).room@.len() == 0 ==> *final(self) == *old(self),
            old(self).health != 0 && old(self).room@.len() == 1 && old(self).deck@.len() > 0
                ==> Game::replenished(*old(self), *final(self)),
            !r ==> *final(self) == *old(self),
    {
        if self.health == 0 || self.room.is_empty() {
            return true;
        }
        if self.room.len() == 1 && !self.deck.is_empty() {
            let ghost pre = *self;
            let new_card_count: usize = if self.deck.len() < 3 {
                self.deck.len()
            } else {
                3
            };
            let mut moved: usize = 0;
            while moved < new_card_count
                invariant
                    moved <= new_card_count,
                    new_card_count == pre.spec_replenish_count(),
                    new_card_count <= pre.deck@.len(),
                    self.deck@ == pre.deck@.skip(moved as int),
                    self.room@ == pre.room@ + pre.deck@.take(moved as int),
                    self.health == pre.health,
                    self.weapon == pre.weapon,
                    self.weapon_bound == pre.weapon_bound,
                    self.score == pre.score,
                    self.last_card == pre.last_card,
                    self.step == pre.step,
                    pre.room@.len() == 1,
                decreases new_card_count - moved,
            {
                let c = self.deck.remove(0);
                self.room.push(c);
                proof {
                    assert(pre.deck@.skip(moved as int).remove(0) =~= pre.deck@.skip(
                        moved + 1,
                    ));
                    assert(pre.deck@.take(moved + 1) =~= pre.deck@.take(moved as int).push(
                        pre.deck@[moved as int],
                    ));
                }
                moved = moved + 1;
            }
            if self.deck.len() >= 4 {
                self.step = Step::RoomChoice;
            }
            proof {
                let k = pre.spec_replenish_count();
                lemma_msum_concat(pre.deck@, pre.room@);
                lemma_msum_concat(self.deck@, self.room@);
                lemma_msum_concat(pre.room@, pre.deck@.take(k));
                assert(pre.deck@ =~= pre.deck@.take(k) + pre.deck@.skip(k));
                lemma_msum_concat(pre.deck@.take(k), pre.deck@.skip(k));
                assert(forall|i: int| 0 <= i < self.room@.len()
                    ==> card_wf(#[trigger] self.room@[i]));
                assert(forall|i: int| 0 <= i < self.deck@.len()
                    ==> card_wf(#[trigger] self.deck@[i]));
            }
            return true;
        }
        false
    }

    /// The score the game ends with on a win: the surviving health, plus
    /// the last potion's value when the game ended on a potion at full
    /// health.
    pub open spec fn spec_final_score(self) -> int {
        match self.last_card {
            Some(c) => if c.suit is Potion && self.health == 20 {
                self.health + c.value
            } else {
                self.health as int
            },
            None => self.health as int,
        }
    }

    /// Decide whether the game is over: a loss at zero health (state kept
    /// as it stands, score as accumulated), a win on an empty deck (score
    /// recomputed to the final-score formula), otherwise the game goes on
    /// untouched.
    pub fn maybe_end_game(&mut self) -> (r: bool)
        requires
            old(self).wf(),
        ensures
            final(self).wf(),
            r == (old(self).health == 0 || old(self).deck@.len() == 0),
            old(self).health == 0 ==> *final(self) == *old(self),
            old(self).health != 0 && old(self).deck@.len() == 0 ==> final(self).score == old(
                self,
            ).spec_final_score(),
            old(self).health != 0 && old(self).deck@.len() == 0 ==> final(self).health == old(
                self,
            ).health && final(self).weapon == old(self).weapon && final(self).weapon_bound == old(
                self,
            ).weapon_bound && final(self).deck@ == old(self).deck@ && final(self).room@ == old(
                self,
            ).room@ && final(self).last_card == old(self).last_card && final(self).step == old(
                self,
            ).step,
            !r ==> *final(self) == *old(self),
    {
        if self.health == 0 {
            return true;
        }
        if self.deck.is_empty() {
            self.score = self.health;
            if let Some(c) = self.last_card {
                if c.is_potion() && self.health == 20 {
                    self.score = self.score + c.value;
                }
            }
            proof {
                lemma_msum_concat(self.deck@, self.room@);
                lemma_msum_bounds(self.room@);
                assert(self.deck@ =~= Seq::<Card>::empty());
                assert(msum(self.deck@) == 0);
            }
            return true;
        }
        false
    }

    /// Send the still-unplayed room back into the deck (shuffled in at
    /// random) and deal a fresh room of four from the deck's front.  The
    /// cards in play are conserved; avoidance is spent until a future
    /// replenishment re-arms it.
    pub fn avoid_room(&mut self)
        requires
            old(self).wf(),
            old(self).spec_can_avoid(),
        ensures
            final(self).wf(),
            final(self).step is PlayCard,
            final(self).room@ == old(self).deck@.take(4),
            final(self).deck@.len() == old(self).deck@.len(),
            final(self).deck@.to_multiset() == old(self).deck@.skip(4).to_multiset().add(
                old(self).room@.to_multiset(),
            ),
            (final(self).deck@ + final(self).room@).to_multiset() == (old(self).deck@ + old(
                self,
            ).room@).to_multiset(),
            final(self).health == old(self).health,
            final(self).weapon == old(self).weapon,
            final(self).weapon_bound == old(self).weapon_bound,
            final(self).score == old(self).score,
            final(self).last_card == old(self).last_card,
    {
        let ghost pre = *self;
        shuffle_cards(&mut self.room);
        let ghost mixed = self.room@;
        let ghost d0 = self.deck@;
        let mut t: usize = 0;
        while t < 4
            invariant
                t <= 4,
                mixed.len() == 4,
                self.room@ == mixed.skip(t as int),
                self.deck@ == d0 + mixed.take(t as int),
                self.health == pre.health,
                self.weapon == pre.weapon,
                self.weapon_bound == pre.weapon_bound,
                self.score == pre.score,
                self.last_card == pre.last_card,
                self.step == pre.step,
            decreases 4 - t,
        {
            let c = self.room.remove(0);
            self.deck.push(c);
            proof {
                assert(mixed.skip(t as int).remove(0) =~= mixed.skip(t + 1));
                assert(mixed.take(t + 1) =~= mixed.take(t as int).push(mixed[t as int]));
            }
            t = t + 1;
        }
        let ghost merged = self.deck@;
        proof {
            assert(mixed.take(4) =~= mixed);
            assert(merged == d0 + mixed);
        }
        t = 0;
        while t < 4
            invariant
                t <= 4,
                merged == d0 + mixed,
                merged.len() == pre.deck@.len() + 4,
                pre.deck@.len() >= 4,
                self.room@ == merged.take(t as int),
                self.deck@ == merged.skip(t as int),
                self.health == pre.health,
                self.weapon == pre.weapon,
                self.weapon_bound == pre.weapon_bound,
                self.score == pre.score,
                self.last_card == pre.last_card,
                self.step == pre.step,
            decreases 4 - t,
        {
            let c = self.deck.remove(0);
            self.room.push(c);
            proof {
                assert(merged.skip(t as int).remove(0) =~= merged.skip(t + 1));
                assert(merged.take(t + 1) =~= merged.take(t as int).push(merged[t as int]));
            }
            t = t + 1;
        }
        self.step = Step::PlayCard;
        proof {
            broadcast use vstd::seq_lib::lemma_multiset_commutative;

            assert(self.room@ =~= pre.deck@.take(4));
            assert(self.deck@ =~= pre.deck@.skip(4) + mixed);
            assert(pre.deck@ =~= pre.deck@.take(4) + pre.deck@.skip(4));
            assert((pre.deck@.skip(4) + mixed).to_multiset() == pre.deck@.skip(
                4,
            ).to_multiset().add(mixed.to_multiset()));
            assert(mixed.to_multiset() == pre.room@.to_multiset());
            assert((self.deck@ + self.room@).to_multiset() == (pre.deck@
                + pre.room@).to_multiset()) by {
                assert((self.deck@ + self.room@).to_multiset() == self.deck@.to_multiset().add(
                    self.room@.to_multiset(),
                ));
                assert((pre.deck@ + pre.room@).to_multiset() == pre.deck@.to_multiset().add(
                    pre.room@.to_multiset(),
                ));
                assert(pre.deck@.to_multiset() == pre.deck@.take(4).to_multiset().add(
                    pre.deck@.skip(4).to_multiset(),
                ));
            }
            lemma_msum_permutation(self.deck@ + self.room@, pre.deck@ + pre.room@);
            lemma_msum_concat(pre.deck@, pre.room@);
            lemma_msum_concat(self.deck@, self.room@);
            lemma_wf_cards_from_multiset(pre.deck@ + pre.room@, self.deck@ + self.room@);
            assert forall|i: int| 0 <= i < self.deck@.len() implies card_wf(
                #[trigger] self.deck@[i],
            ) by {
                assert((self.deck@ + self.room@)[i] == self.deck@[i]);
            }
            assert forall|i: int| 0 <= i < self.room@.len() implies card_wf(
                #[trigger] self.room@[i],
            ) by {
                assert((self.deck@ + self.room@)[self.deck@.len() + i] == self.room@[i]);
            }
        }
    }

    /// The labels of the current room's cards, in room order, for the
    /// outside presenter.
    pub fn turn_inputs(&mut self) -> (r: Vec<String>)
        requires
            old(self).wf(),
        ensures
            *final(self) == *old(self),
            r@.len() == old(self).room@.len(),
            forall|i: int| 0 <= i < r@.len() ==> #[trigger] r@[i]@ == card_label(
                old(self).room@[i],
            ),
    {
        let mut inputs: Vec<String> = Vec::new();
        let mut i: usize = 0;
        while i < self.room.len()
            invariant
                *self == *old(self),
                i <= self.room@.len(),
                old(self).wf(),
                inputs@.len() == i,
                forall|k: int| 0 <= k < i ==> #[trigger] inputs@[k]@ == card_label(
                    self.room@[k],
                ),
            decreases self.room@.len() - i,
        {
            let c = self.room[i];
            inputs.push(c.formatted());
            i = i + 1;
        }
        inputs
    }

    /// Commit to playing the dealt room: avoidance is no longer offered.
    pub fn play_room(&mut self)
        ensures
            final(self).step is PlayCard,
            final(self).health == old(self).health,
            final(self).weapon == old(self).weapon,
            final(self).weapon_bound == old(self).weapon_bound,
            final(self).score == old(self).score,
            final(self).deck@ == old(self).deck@,
            final(self).room@ == old(self).room@,
            final(self).last_card == old(self).last_card,
            old(self).wf() ==> final(self).wf(),
    {
        self.step = Step::PlayCard;
    }
}

/// Health never leaves 0..=20: it holds in every well-formed state, and
/// every operation's contract keeps the state well formed.
pub proof fn lemma_health_bounds(g: Game)
    requires
        g.wf(),
    ensures
        0 <= g.health <= 20,
{
}

/// A degraded weapon stays degraded: once `weapon_bound` has been
/// lowered below a Monster's value, fight mode is no longer offered
/// against that Monster while the same weapon is equipped.
pub proof fn lemma_weapon_degraded_blocks(g: Game, c: Card)
    requires
        c.value > g.weapon_bound,
    ensures
        !g.spec_needs_fight_mode(c),
{
}

/// A game whose cards in play are the standard deck's — as a fresh game's
/// are — holds 44 cards: per value 2..=10 exactly two Monsters, one
/// Weapon and one Potion, per value 11..=14 exactly two Monsters, and no
/// other card.
pub proof fn lemma_fresh_game_composition(g: Game, c: Card)
    requires
        (g.deck@ + g.room@).to_multiset() == standard_deck().to_multiset(),
    ensures
        g.deck@.len() + g.room@.len() == 44,
        card_count(g.deck@ + g.room@, c) == standard_count(c),
{
    lemma_card_count_multiset(g.deck@ + g.room@, c);
    lemma_card_count_multiset(standard_deck(), c);
    lemma_standard_deck_composition(c);
    lemma_standard_deck_len();
    vstd::seq_lib::to_multiset_len(g.deck@ + g.room@);
    vstd::seq_lib::to_multiset_len(standard_deck());
}

} // verus!
