#![allow(non_snake_case)]

use std::collections::HashMap;

use keyforge::card::{Card, CardDef, CardType, House, Rarity};
use keyforge::game::GameState;
use keyforge::view::to_client_view;
use keyforge::zones::Flank;


fn DEF_A() -> CardDef {
    CardDef {
    name: "Alpha".to_string(),
    card_type: CardType::Creature,
    house: House::Brobnar,
    power: Some(3),
    armor: None,
    keywords: vec![],
    bonus_icons: vec![],
    traits: vec![],
    rarity: Rarity::Common,
    on_reap: vec![],
    on_fight: vec![],
    on_play: vec![],
    on_destroyed: vec![],
    text: String::new(),
    }
}

fn DEF_B() -> CardDef {
    CardDef {
    name: "Beta".to_string(),
    card_type: CardType::Creature,
    house: House::Dis,
    power: Some(2),
    armor: Some(1),
    keywords: vec![],
    bonus_icons: vec![],
    traits: vec![],
    rarity: Rarity::Common,
    on_reap: vec![],
    on_fight: vec![],
    on_play: vec![],
    on_destroyed: vec![],
    text: String::new(),
    }
}

fn test_game() -> GameState {

    let mut cards = HashMap::new();
    // P0 cards: 1,2,3 in hand; 4 on battleline
    for id in 1..=4 {
        cards.insert(id, Card::new(id, DEF_A()));
    }
    // P1 cards: 5,6 in hand; 7 on battleline; 8 in archives
    for id in 5..=8 {
        cards.insert(id, Card::new(id, DEF_B()));
    }

    let mut game = GameState::new_no_draw(vec![], vec![], cards);
    game.players[0].zones.hand = vec![1, 2, 3];
    game.players[0].zones.battleline.add(4, Flank::Left);
    game.players[1].zones.hand = vec![5, 6];
    game.players[1].zones.battleline.add(7, Flank::Left);
    game.players[1].zones.archives = vec![8];
    game.players[0].player.aember_pool = 4;
    game.players[1].player.aember_pool = 2;
    game
}

#[test]
fn test_own_hand_visible() {
    let game = test_game();
    let view = to_client_view(&game, 0);
    assert_eq!(view.my_hand.len(), 3);
    assert_eq!(view.my_hand[0].name, "Alpha");
}

#[test]
fn test_opponent_hand_hidden() {
    let game = test_game();
    let view = to_client_view(&game, 0);
    assert_eq!(view.opp_hand_count, 2);
}

#[test]
fn test_battlelines_visible() {
    let game = test_game();
    let view = to_client_view(&game, 0);
    assert_eq!(view.my_battleline.len(), 1);
    assert_eq!(view.my_battleline[0].id, 4);
    assert_eq!(view.opp_battleline.len(), 1);
    assert_eq!(view.opp_battleline[0].id, 7);
}

#[test]
fn test_opponent_archives_hidden() {
    let game = test_game();
    let view = to_client_view(&game, 0);
    assert_eq!(view.opp_archives_count, 1);
}

#[test]
fn test_aember_pools() {
    let game = test_game();
    let view = to_client_view(&game, 0);
    assert_eq!(view.my_player.aember_pool, 4);
    assert_eq!(view.opp_player.aember_pool, 2);
}

#[test]
fn test_symmetry() {
    let game = test_game();
    let v0 = to_client_view(&game, 0);
    let v1 = to_client_view(&game, 1);
    assert_eq!(v0.my_hand.len(), v1.opp_hand_count);
    assert_eq!(v1.my_hand.len(), v0.opp_hand_count);
    assert_eq!(v0.my_index, 0);
    assert_eq!(v1.my_index, 1);
}

#[test]
fn test_card_view_mutable_state() {
    let mut game = test_game();
    game.cards.get_mut(&4).unwrap().damage = 2;
    game.cards.get_mut(&4).unwrap().stun = true;
    let view = to_client_view(&game, 0);
    assert_eq!(view.my_battleline[0].damage, 2);
    assert!(view.my_battleline[0].stun);
}

#[test]
fn test_keys_in_view() {
    let mut game = test_game();
    game.players[0].player.keys.forge(keyforge::victory::KeyColor::Red);
    let view = to_client_view(&game, 0);
    assert_eq!(view.my_player.keys.len(), 3);
    assert!(view.my_player.keys[0].forged); // Red
    assert!(!view.my_player.keys[1].forged); // Blue
}
