use scoundrel::Card;
use scoundrel::FightMode;
use scoundrel::Game;
use scoundrel::Suit;

fn monster(v: i32) -> Card {
    Card { value: v, suit: Suit::Monster }
}

fn weapon(v: i32) -> Card {
    Card { value: v, suit: Suit::Weapon }
}

fn potion(v: i32) -> Card {
    Card { value: v, suit: Suit::Potion }
}

#[test]
fn fresh_game_setup() {
    let mut g = Game::new();
    assert_eq!(g.health, 20);
    assert_eq!(g.weapon, 0);
    assert_eq!(g.weapon_bound, 0);
    assert_eq!(g.score, -208);
    assert_eq!(g.deck_len(), 40);
    assert_eq!(g.turn_inputs().len(), 4);
    assert!(g.can_avoid_room());
}

#[test]
fn fresh_game_has_44_cards_in_play() {
    let mut g = Game::new();
    assert_eq!(g.deck_len() + g.turn_inputs().len(), 44);
}

#[test]
fn fresh_game_composition() {
    let g = Game::new();
    let count = |c: Card| -> usize {
        g.deck.iter().chain(g.room.iter()).filter(|&&x| x == c).count()
    };
    for v in 2..=10 {
        assert_eq!(count(monster(v)), 2);
        assert_eq!(count(weapon(v)), 1);
        assert_eq!(count(potion(v)), 1);
    }
    for v in 11..=14 {
        assert_eq!(count(monster(v)), 2);
        assert_eq!(count(weapon(v)), 0);
        assert_eq!(count(potion(v)), 0);
    }
    assert_eq!(count(monster(15)), 0);
    assert_eq!(g.deck.len() + g.room.len(), 44);
}

#[test]
fn avoid_room_conserves_multiset() {
    let mut g = Game::new();
    let mut before: Vec<Card> = g.deck.iter().chain(g.room.iter()).copied().collect();
    g.avoid_room();
    let mut after: Vec<Card> = g.deck.iter().chain(g.room.iter()).copied().collect();
    let key = |c: &Card| (c.value, matches!(c.suit, Suit::Monster), matches!(c.suit, Suit::Weapon));
    before.sort_by_key(key);
    after.sort_by_key(key);
    assert_eq!(before, after);
}

#[test]
fn fresh_game_rooms_remaining() {
    let mut g = Game::new();
    assert_eq!(g.rooms_remaining(), 40 / 3 + 1);
}

#[test]
fn rooms_remaining_zero_on_empty_deck() {
    let mut g = Game::from_deck(vec![potion(2), potion(3), potion(4), potion(5)]);
    assert_eq!(g.deck_len(), 0);
    assert_eq!(g.rooms_remaining(), 0);
}

#[test]
fn queries_are_idempotent() {
    let mut g = Game::new();
    let r1 = g.rooms_remaining();
    let r2 = g.rooms_remaining();
    assert_eq!(r1, r2);
    let a1 = g.can_avoid_room();
    let a2 = g.can_avoid_room();
    assert_eq!(a1, a2);
    let d1 = g.deck_len();
    let d2 = g.deck_len();
    assert_eq!(d1, d2);
}

#[test]
fn card_labels() {
    assert_eq!(monster(14).formatted(), "Monster 14");
    assert_eq!(weapon(2).formatted(), "Weapon 2");
    assert_eq!(potion(10).formatted(), "Potion: 10");
    assert_eq!(monster(7).formatted(), "Monster 7");
}

#[test]
fn potion_detection() {
    assert!(potion(3).is_potion());
    assert!(!monster(3).is_potion());
    assert!(!weapon(3).is_potion());
}

#[test]
fn potion_heals_and_clamps_at_20() {
    let mut g = Game::from_deck(vec![monster(5), potion(9), potion(2), potion(2)]);
    g.play_room();
    g.play_card(0, FightMode::Barehanded);
    assert_eq!(g.health, 15);
    g.play_card(0, FightMode::Barehanded);
    assert_eq!(g.health, 20);
    g.play_card(0, FightMode::Barehanded);
    assert_eq!(g.health, 20);
}

#[test]
fn weapon_equip_resets_bound() {
    let mut g = Game::from_deck(vec![weapon(7), monster(12), potion(2), potion(2)]);
    g.play_room();
    assert!(!g.needs_fight_mode(1));
    g.play_card(0, FightMode::Barehanded);
    assert_eq!(g.weapon, 7);
    assert_eq!(g.weapon_bound, 14);
    assert!(g.needs_fight_mode(0));
}

#[test]
fn weapon_fight_degrades_bound() {
    let mut g = Game::from_deck(vec![weapon(7), monster(10), monster(12), monster(9)]);
    g.play_room();
    g.play_card(0, FightMode::Barehanded);
    g.play_card(0, FightMode::Weapon);
    assert_eq!(g.health, 17);
    assert_eq!(g.weapon_bound, 10);
    assert!(!g.needs_fight_mode(0));
    assert!(g.needs_fight_mode(1));
}

#[test]
fn weapon_fight_never_heals() {
    let mut g = Game::from_deck(vec![weapon(9), monster(2), potion(2), potion(2)]);
    g.play_room();
    g.play_card(0, FightMode::Barehanded);
    let before = g.health;
    g.play_card(0, FightMode::Weapon);
    assert!(g.health <= before);
    assert_eq!(g.health, before);
}

#[test]
fn barehanded_fight_floors_at_zero() {
    let mut g = Game::from_deck(vec![monster(14), monster(13), potion(2), potion(2)]);
    g.play_room();
    g.play_card(0, FightMode::Barehanded);
    assert_eq!(g.health, 6);
    g.play_card(0, FightMode::Barehanded);
    assert_eq!(g.health, 0);
}

#[test]
fn score_accumulates_monster_values() {
    let mut g = Game::from_deck(vec![monster(5), monster(3), potion(2), potion(2), potion(2)]);
    assert_eq!(g.score, -8);
    g.play_room();
    g.play_card(0, FightMode::Barehanded);
    assert_eq!(g.score, -3);
    g.play_card(0, FightMode::Barehanded);
    assert_eq!(g.score, 0);
}

#[test]
fn loss_scenario_ends_game_without_mutation() {
    let mut g = Game::from_deck(vec![monster(14), monster(13), potion(2), potion(2)]);
    g.play_room();
    g.play_card(0, FightMode::Barehanded);
    g.play_card(0, FightMode::Barehanded);
    assert_eq!(g.health, 0);
    assert!(g.maybe_end_turn());
    assert!(g.maybe_end_game());
    let score_before = g.score;
    let deck_before = g.deck_len();
    let room_before = g.turn_inputs().len();
    assert!(g.maybe_end_game());
    assert_eq!(g.health, 0);
    assert_eq!(g.score, score_before);
    assert_eq!(g.deck_len(), deck_before);
    assert_eq!(g.turn_inputs().len(), room_before);
}

#[test]
fn win_with_potion_bonus() {
    let mut g = Game::from_deck(vec![potion(2), potion(3), potion(4), potion(5)]);
    g.play_room();
    g.play_card(0, FightMode::Barehanded);
    assert!(!g.maybe_end_turn());
    g.play_card(0, FightMode::Barehanded);
    assert!(!g.maybe_end_turn());
    g.play_card(0, FightMode::Barehanded);
    assert!(!g.maybe_end_turn());
    g.play_card(0, FightMode::Barehanded);
    assert!(g.maybe_end_turn());
    assert_eq!(g.health, 20);
    assert!(g.maybe_end_game());
    assert_eq!(g.score, 25);
}

#[test]
fn win_without_potion_bonus() {
    let mut g = Game::from_deck(vec![potion(5), potion(5), potion(5), weapon(9)]);
    g.play_room();
    g.play_card(0, FightMode::Barehanded);
    g.play_card(0, FightMode::Barehanded);
    g.play_card(0, FightMode::Barehanded);
    g.play_card(0, FightMode::Barehanded);
    assert!(g.maybe_end_turn());
    assert_eq!(g.health, 20);
    assert!(g.maybe_end_game());
    assert_eq!(g.score, 20);
}

#[test]
fn replenishment_moves_three_and_rearms() {
    let mut cards = vec![potion(2), potion(2), potion(3), potion(4)];
    for v in 2..10 {
        cards.push(potion(v));
    }
    let mut g = Game::from_deck(cards);
    assert_eq!(g.deck_len(), 8);
    assert!(g.can_avoid_room());
    g.play_room();
    assert!(!g.can_avoid_room());
    g.play_card(0, FightMode::Barehanded);
    assert!(!g.maybe_end_turn());
    g.play_card(0, FightMode::Barehanded);
    assert!(!g.maybe_end_turn());
    g.play_card(0, FightMode::Barehanded);
    assert!(g.maybe_end_turn());
    assert_eq!(g.deck_len(), 5);
    assert_eq!(g.turn_inputs().len(), 4);
    assert!(g.can_avoid_room());
}

#[test]
fn replenishment_without_rearm() {
    let mut cards = vec![potion(2), potion(2), potion(3), potion(4)];
    for v in 2..7 {
        cards.push(potion(v));
    }
    let mut g = Game::from_deck(cards);
    assert_eq!(g.deck_len(), 5);
    g.play_room();
    g.play_card(0, FightMode::Barehanded);
    g.maybe_end_turn();
    g.play_card(0, FightMode::Barehanded);
    g.maybe_end_turn();
    g.play_card(0, FightMode::Barehanded);
    assert!(g.maybe_end_turn());
    assert_eq!(g.deck_len(), 2);
    assert_eq!(g.turn_inputs().len(), 4);
    assert!(!g.can_avoid_room());
}

#[test]
fn replenishment_short_deck_moves_what_is_left() {
    let mut g = Game::from_deck(vec![
        potion(2),
        potion(2),
        potion(3),
        potion(4),
        potion(5),
        potion(6),
    ]);
    assert_eq!(g.deck_len(), 2);
    g.play_room();
    g.play_card(0, FightMode::Barehanded);
    g.play_card(0, FightMode::Barehanded);
    g.play_card(0, FightMode::Barehanded);
    assert!(g.maybe_end_turn());
    assert_eq!(g.deck_len(), 0);
    assert_eq!(g.turn_inputs().len(), 3);
}

#[test]
fn avoid_room_deals_from_deck_front() {
    let mut g = Game::from_deck(vec![
        monster(14),
        monster(13),
        monster(12),
        monster(11),
        potion(2),
        weapon(3),
        potion(4),
        monster(5),
        potion(6),
        potion(7),
        potion(8),
        potion(9),
    ]);
    assert!(g.can_avoid_room());
    let deck_before = g.deck_len();
    g.avoid_room();
    assert_eq!(g.deck_len(), deck_before);
    let labels = g.turn_inputs();
    assert_eq!(labels.len(), 4);
    assert_eq!(labels[0], "Potion: 2");
    assert_eq!(labels[1], "Weapon 3");
    assert_eq!(labels[2], "Potion: 4");
    assert_eq!(labels[3], "Monster 5");
    assert!(!g.can_avoid_room());
}

#[test]
fn avoid_room_conserves_card_count() {
    let mut g = Game::new();
    let total_before = g.deck_len() + g.turn_inputs().len();
    g.avoid_room();
    assert_eq!(g.deck_len() + g.turn_inputs().len(), total_before);
}

#[test]
fn play_room_commits() {
    let mut g = Game::new();
    assert!(g.can_avoid_room());
    g.play_room();
    assert!(!g.can_avoid_room());
}

#[test]
fn turn_inputs_lists_room_in_order() {
    let mut g = Game::from_deck(vec![monster(2), weapon(5), potion(7), monster(11)]);
    let labels = g.turn_inputs();
    assert_eq!(
        labels,
        vec![
            String::from("Monster 2"),
            String::from("Weapon 5"),
            String::from("Potion: 7"),
            String::from("Monster 11"),
        ]
    );
}

#[test]
fn game_continues_when_not_terminal() {
    let mut g = Game::from_deck(vec![
        potion(2),
        potion(2),
        potion(3),
        potion(4),
        potion(5),
        potion(6),
        potion(7),
        potion(8),
    ]);
    g.play_room();
    g.play_card(0, FightMode::Barehanded);
    assert!(!g.maybe_end_turn());
    assert!(!g.maybe_end_game());
    assert_eq!(g.health, 20);
}

#[test]
fn last_card_monster_gives_no_bonus() {
    let mut g = Game::from_deck(vec![potion(5), potion(5), potion(5), monster(2)]);
    g.play_room();
    g.play_card(0, FightMode::Barehanded);
    g.play_card(0, FightMode::Barehanded);
    g.play_card(0, FightMode::Barehanded);
    g.play_card(0, FightMode::Barehanded);
    assert_eq!(g.health, 18);
    assert!(g.maybe_end_turn());
    assert!(g.maybe_end_game());
    assert_eq!(g.score, 18);
}
