//! A solitaire dungeon-crawl card game engine.
//!
//! A 44-card deck is dealt into rooms of four face-up cards; the player
//! resolves each card (fight a monster barehanded or with the equipped
//! weapon, equip a weapon, drink a potion) while managing health, the
//! weapon's degradation bound, and the score.  The engine is a pure state
//! transformer: an outside driver supplies choices and renders snapshots.

mod cards;
mod deck;
mod game;
mod shuffle;

pub use cards::Card;
pub use cards::Suit;
pub use cards::card_wf;
pub use cards::card_label;
pub use cards::monster_value;
pub use cards::msum;
pub use cards::card_count;
pub use deck::standard_deck;
pub use deck::standard_count;
pub use deck::lemma_standard_deck_composition;
pub use deck::lemma_standard_deck_msum;
pub use game::FightMode;
pub use game::Game;
pub use game::Step;
pub use game::lemma_health_bounds;
pub use game::lemma_weapon_degraded_blocks;
pub use game::lemma_fresh_game_composition;
