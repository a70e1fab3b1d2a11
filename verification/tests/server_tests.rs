#![allow(non_snake_case)]

use keyforge::card::{CardDef, CardType, House, Keyword, Rarity};
use keyforge::cards::{SMAAASH, TROLL, VEZYMA_THINKDRONE};
use keyforge::deck::{IdAllocator, build_deck};
use keyforge::game::GameState;
use keyforge::protocol::ClientMessage;
use keyforge::server::dispatch_message;
use keyforge::zones::Flank;

fn game_with(p0: Vec<CardDef>, p1: Vec<CardDef>) -> GameState {
    let mut alloc = IdAllocator::new();
    let (mut cards, ids0) = build_deck(&mut alloc, p0);
    let (cards1, ids1) = build_deck(&mut alloc, p1);
    cards.extend(cards1);
    GameState::new_no_draw(ids0, ids1, cards)
}



// ---- ChooseHouse ----

#[test]
fn test_dispatch_choose_house() {
    let mut game = game_with(vec![TROLL()], vec![TROLL()]);
    let msg = ClientMessage::ChooseHouse { house: House::Brobnar, pick_up_archives: false };
    assert!(dispatch_message(&mut game, 0, msg).is_ok());
    assert_eq!(game.active_house, Some(House::Brobnar));
}

#[test]
fn test_dispatch_choose_house_picks_up_archives() {
    let mut game = game_with(vec![TROLL()], vec![TROLL()]);
    let archived_id = *game.players[0].zones.deck.last().unwrap();
    game.players[0].zones.deck.retain(|&id| id != archived_id);
    game.players[0].zones.archives.push(archived_id);

    let msg = ClientMessage::ChooseHouse { house: House::Brobnar, pick_up_archives: true };
    dispatch_message(&mut game, 0, msg).unwrap();

    assert!(game.players[0].zones.hand.contains(&archived_id));
    assert!(game.players[0].zones.archives.is_empty());
}

// ---- PlayCard ----

#[test]
fn test_dispatch_play_card() {
    let mut game = game_with(vec![TROLL()], vec![TROLL()]);
    let id = game.players[0].zones.draw().unwrap();
    let msg = ClientMessage::PlayCard { card_id: id, flank: Flank::Left };
    dispatch_message(&mut game, 0, msg).unwrap();
    assert!(game.players[0].zones.battleline.creature_ids().contains(&id));
}

#[test]
fn test_dispatch_play_card_not_in_hand() {
    let mut game = game_with(vec![TROLL()], vec![TROLL()]);
    let bogus_id = 9999;
    let msg = ClientMessage::PlayCard { card_id: bogus_id, flank: Flank::Left };
    let err = dispatch_message(&mut game, 0, msg).unwrap_err();
    assert_eq!(err, "Card not in hand");
}

// ---- PlayCardDeployed ----

fn DEPLOY_DEF() -> CardDef {
    CardDef {
    name: "Deploy".to_string(),
    card_type: CardType::Creature,
    house: House::Logos,
    power: Some(2),
    armor: None,
    keywords: vec![Keyword::Deploy],
    bonus_icons: vec![],
    traits: vec![],
    rarity: Rarity::Common,
    on_reap: vec![],
    on_fight: vec![],
    on_play: vec![],
    on_destroyed: vec![],
    text: String::new(),
    }
}

#[test]
fn test_dispatch_play_card_deployed() {
    let mut game = game_with(vec![TROLL(), TROLL(), DEPLOY_DEF()], vec![TROLL()]);
    let left = game.players[0].zones.draw().unwrap();
    let right = game.players[0].zones.draw().unwrap();
    dispatch_message(
        &mut game, 0,
        ClientMessage::PlayCard { card_id: left, flank: Flank::Left },
    ).unwrap();
    dispatch_message(
        &mut game, 0,
        ClientMessage::PlayCard { card_id: right, flank: Flank::Right },
    ).unwrap();
    let deploy_id = game.players[0].zones.draw().unwrap();
    let msg = ClientMessage::PlayCardDeployed { card_id: deploy_id, index: 1 };
    dispatch_message(&mut game, 0, msg).unwrap();
    let neighbors = game.players[0].zones.battleline.neighbors(deploy_id);
    assert_eq!(neighbors, (Some(left), Some(right)));
}

#[test]
fn test_dispatch_play_card_deployed_not_in_hand() {
    let mut game = game_with(vec![DEPLOY_DEF()], vec![TROLL()]);
    let err = dispatch_message(
        &mut game, 0,
        ClientMessage::PlayCardDeployed { card_id: 9999, index: 0 },
    ).unwrap_err();
    assert_eq!(err, "Card not in hand");
}

// ---- Reap ----

#[test]
fn test_dispatch_reap() {
    let mut game = game_with(vec![TROLL()], vec![TROLL()]);
    let id = game.players[0].zones.draw().unwrap();
    dispatch_message(
        &mut game, 0,
        ClientMessage::PlayCard { card_id: id, flank: Flank::Left },
    ).unwrap();
    dispatch_message(&mut game, 0, ClientMessage::Reap { card_id: id }).unwrap();
    assert!(game.cards[&id].exhausted);
    assert_eq!(game.players[0].player.aember_pool, 2); // bonus icon + reap
}

#[test]
fn test_dispatch_reap_not_on_battleline() {
    let mut game = game_with(vec![TROLL()], vec![TROLL()]);
    let id = game.players[0].zones.draw().unwrap(); // in hand, not played
    let err = dispatch_message(&mut game, 0, ClientMessage::Reap { card_id: id }).unwrap_err();
    assert_eq!(err, "Creature not on your battleline");
}

// ---- Attack ----

#[test]
fn test_dispatch_attack() {
    // Smaaash (3 power, Assault 2) vs Vezyma (1 power).
    // Assault(2) pre-damage destroys Vezyma before fight resolves.
    let mut game = game_with(vec![SMAAASH()], vec![VEZYMA_THINKDRONE()]);
    let att = game.players[0].zones.draw().unwrap();
    let def = game.players[1].zones.draw().unwrap();
    dispatch_message(
        &mut game, 0,
        ClientMessage::PlayCard { card_id: att, flank: Flank::Left },
    ).unwrap();
    game.active_player = 1;
    dispatch_message(
        &mut game, 1,
        ClientMessage::PlayCard { card_id: def, flank: Flank::Left },
    ).unwrap();
    game.active_player = 0;

    dispatch_message(
        &mut game, 0,
        ClientMessage::Attack { attacker_id: att, defender_id: def },
    ).unwrap();

    assert!(game.cards[&att].exhausted);
    assert!(game.players[1].zones.battleline.is_empty());
}

#[test]
fn test_dispatch_attack_attacker_not_on_own_battleline() {
    let mut game = game_with(vec![SMAAASH()], vec![TROLL()]);
    let att = game.players[0].zones.draw().unwrap(); // in hand, not played
    let def = game.players[1].zones.draw().unwrap();
    game.active_player = 1;
    dispatch_message(
        &mut game, 1,
        ClientMessage::PlayCard { card_id: def, flank: Flank::Left },
    ).unwrap();
    game.active_player = 0;

    let err = dispatch_message(
        &mut game, 0,
        ClientMessage::Attack { attacker_id: att, defender_id: def },
    ).unwrap_err();
    assert_eq!(err, "Attacker not on your battleline");
}

#[test]
fn test_dispatch_attack_defender_not_on_opp_battleline() {
    let mut game = game_with(vec![SMAAASH()], vec![TROLL()]);
    let att = game.players[0].zones.draw().unwrap();
    let def = game.players[1].zones.draw().unwrap(); // not played
    dispatch_message(
        &mut game, 0,
        ClientMessage::PlayCard { card_id: att, flank: Flank::Left },
    ).unwrap();

    let err = dispatch_message(
        &mut game, 0,
        ClientMessage::Attack { attacker_id: att, defender_id: def },
    ).unwrap_err();
    assert_eq!(err, "Defender not on opponent battleline");
}

// ---- Unstun ----

#[test]
fn test_dispatch_unstun() {
    let mut game = game_with(vec![TROLL()], vec![TROLL()]);
    let id = game.players[0].zones.draw().unwrap();
    dispatch_message(
        &mut game, 0,
        ClientMessage::PlayCard { card_id: id, flank: Flank::Left },
    ).unwrap();
    game.cards.get_mut(&id).unwrap().stun = true;

    dispatch_message(&mut game, 0, ClientMessage::Unstun { card_id: id }).unwrap();

    assert!(!game.cards[&id].stun);
    assert!(game.cards[&id].exhausted);
}

#[test]
fn test_dispatch_unstun_not_on_battleline() {
    let mut game = game_with(vec![TROLL()], vec![TROLL()]);
    let id = game.players[0].zones.draw().unwrap();
    let err = dispatch_message(
        &mut game, 0,
        ClientMessage::Unstun { card_id: id },
    ).unwrap_err();
    assert_eq!(err, "Creature not on your battleline");
}

// ---- DiscardFromHand ----

#[test]
fn test_dispatch_discard_from_hand() {
    let mut game = game_with(vec![TROLL()], vec![TROLL()]);
    let id = game.players[0].zones.draw().unwrap();
    dispatch_message(
        &mut game, 0,
        ClientMessage::DiscardFromHand { card_id: id },
    ).unwrap();
    assert!(!game.players[0].zones.hand.contains(&id));
    assert!(game.players[0].zones.discard.contains(&id));
}

#[test]
fn test_dispatch_discard_from_hand_not_in_hand() {
    let mut game = game_with(vec![TROLL()], vec![TROLL()]);
    let err = dispatch_message(
        &mut game, 0,
        ClientMessage::DiscardFromHand { card_id: 9999 },
    ).unwrap_err();
    assert_eq!(err, "Card not in hand");
}

// ---- EndTurn ----

#[test]
fn test_dispatch_end_turn_switches_active_player() {
    let mut game = game_with(
        vec![TROLL(), TROLL(), TROLL(), TROLL(), TROLL(), TROLL(), TROLL()],
        vec![TROLL()],
    );
    assert_eq!(game.active_player, 0);
    dispatch_message(&mut game, 0, ClientMessage::EndTurn).unwrap();
    assert_eq!(game.active_player, 1);
}

#[test]
fn test_dispatch_end_turn_advances_turn_counter() {
    let mut game = game_with(
        vec![TROLL(), TROLL(), TROLL(), TROLL(), TROLL(), TROLL(), TROLL()],
        vec![TROLL()],
    );
    assert_eq!(game.turn, 1);
    dispatch_message(&mut game, 0, ClientMessage::EndTurn).unwrap();
    assert_eq!(game.turn, 2);
}

#[test]
fn test_dispatch_end_turn_forges_key_when_eligible() {
    let mut game = game_with(
        vec![TROLL(), TROLL(), TROLL(), TROLL(), TROLL(), TROLL(), TROLL()],
        vec![TROLL()],
    );
    // After end_turn, new active player is P1. Give P1 enough aember to forge.
    game.players[1].player.aember_pool = 6;
    dispatch_message(&mut game, 0, ClientMessage::EndTurn).unwrap();
    // step_forge_key runs for P1 (new active player)
    assert_eq!(game.players[1].player.keys.forged_count(), 1);
    assert_eq!(game.players[1].player.aember_pool, 0);
}
