#![allow(non_snake_case)]

use keyforge::card::{BonusIcon, CardDef, CardType, Effect, House, Keyword, Rarity};
use keyforge::cards::{PLAGUE, SILVERTOOTH, SMAAASH, TROLL, VEZYMA_THINKDRONE};
use keyforge::deck::{IdAllocator, build_deck};
use keyforge::game::{
    GameState, Player, attack, can_attack, can_fight_with, can_play, can_reap, choose_house,
    discard_card_from_hand, end_turn, is_active_house_card, play_card, play_card_deployed, reap,
    forge_key_at_cost, should_announce_check, step_forge_key, unstun,
};
use keyforge::zones::Flank;

fn two_player_game(p0: Vec<CardDef>, p1: Vec<CardDef>) -> GameState {
    let mut alloc = IdAllocator::new();
    let (mut cards, ids0) = build_deck(&mut alloc, p0);
    let (cards1, ids1) = build_deck(&mut alloc, p1);
    cards.extend(cards1);
    // Tests manage hands manually, so skip the setup draw.
    GameState::new_no_draw(ids0, ids1, cards)
}



// ---- helpers: card defs for tests that need specific keywords ----

fn ALPHA_CREATURE() -> CardDef {
    CardDef {
    name: "Alpha Beast".to_string(),
    card_type: CardType::Creature,
    house: House::Brobnar,
    power: Some(2),
    armor: None,
    keywords: vec![Keyword::Alpha],
    bonus_icons: vec![],
    traits: vec![],
    rarity: Rarity::Common,
    on_reap: vec![],
    on_fight: vec![],
    on_play: vec![],
    on_destroyed: vec![],
    text: String::new(),
    }
}

fn ELUSIVE_CREATURE() -> CardDef {
    CardDef {
    name: "Elusive One".to_string(),
    card_type: CardType::Creature,
    house: House::Shadows,
    power: Some(3),
    armor: None,
    keywords: vec![Keyword::Elusive],
    bonus_icons: vec![],
    traits: vec![],
    rarity: Rarity::Common,
    on_reap: vec![],
    on_fight: vec![],
    on_play: vec![],
    on_destroyed: vec![],
    text: String::new(),
    }
}

fn TAUNT_CREATURE() -> CardDef {
    CardDef {
    name: "Taunt Guard".to_string(),
    card_type: CardType::Creature,
    house: House::Brobnar,
    power: Some(4),
    armor: None,
    keywords: vec![Keyword::Taunt],
    bonus_icons: vec![],
    traits: vec![],
    rarity: Rarity::Common,
    on_reap: vec![],
    on_fight: vec![],
    on_play: vec![],
    on_destroyed: vec![],
    text: String::new(),
    }
}

fn CAPTURE_CREATURE() -> CardDef {
    CardDef {
    name: "Captor".to_string(),
    card_type: CardType::Creature,
    house: House::Dis,
    power: Some(2),
    armor: None,
    keywords: vec![Keyword::Capture],
    bonus_icons: vec![],
    traits: vec![],
    rarity: Rarity::Common,
    on_reap: vec![],
    on_fight: vec![],
    on_play: vec![],
    on_destroyed: vec![],
    text: String::new(),
    }
}

// High-power variant so the attacker survives to hold captured Aember.
fn STRONG_CAPTURE() -> CardDef {
    CardDef {
    name: "Strong Captor".to_string(),
    card_type: CardType::Creature,
    house: House::Dis,
    power: Some(10),
    armor: None,
    keywords: vec![Keyword::Capture],
    bonus_icons: vec![],
    traits: vec![],
    rarity: Rarity::Common,
    on_reap: vec![],
    on_fight: vec![],
    on_play: vec![],
    on_destroyed: vec![],
    text: String::new(),
    }
}

fn STEAL_CREATURE() -> CardDef {
    CardDef {
    name: "Thief".to_string(),
    card_type: CardType::Creature,
    house: House::Shadows,
    power: Some(2),
    armor: None,
    keywords: vec![Keyword::Steal],
    bonus_icons: vec![],
    traits: vec![],
    rarity: Rarity::Common,
    on_reap: vec![],
    on_fight: vec![],
    on_play: vec![],
    on_destroyed: vec![],
    text: String::new(),
    }
}

fn EXALT_CREATURE() -> CardDef {
    CardDef {
    name: "Exalted One".to_string(),
    card_type: CardType::Creature,
    house: House::Sanctum,
    power: Some(2),
    armor: None,
    keywords: vec![Keyword::Exalt],
    bonus_icons: vec![],
    traits: vec![],
    rarity: Rarity::Common,
    on_reap: vec![],
    on_fight: vec![],
    on_play: vec![],
    on_destroyed: vec![],
    text: String::new(),
    }
}

fn DEPLOY_CREATURE() -> CardDef {
    CardDef {
    name: "Deployer".to_string(),
    card_type: CardType::Creature,
    house: House::Logos,
    power: Some(3),
    armor: None,
    keywords: vec![Keyword::Deploy],
    bonus_icons: vec![],
    traits: vec![],
    rarity: Rarity::Common,
    on_reap: vec![],
    on_fight: vec![],
    on_play: vec![],
    on_destroyed: vec![],
    text: String::new(),
    }
}

fn REAP_GAIN_CREATURE() -> CardDef {
    CardDef {
    name: "Reap Gainer".to_string(),
    card_type: CardType::Creature,
    house: House::Untamed,
    power: Some(2),
    armor: None,
    keywords: vec![],
    bonus_icons: vec![],
    traits: vec![],
    rarity: Rarity::Common,
    on_reap: vec![Effect::GainAember(2)],
    on_fight: vec![],
    on_play: vec![Effect::DrawCards(1)],
    on_destroyed: vec![Effect::GainAember(1)],
    text: String::new(),
    }
}

fn FIGHT_DAMAGE_CREATURE() -> CardDef {
    CardDef {
    name: "Berserker".to_string(),
    card_type: CardType::Creature,
    house: House::Brobnar,
    power: Some(5),
    armor: None,
    keywords: vec![],
    bonus_icons: vec![],
    traits: vec![],
    rarity: Rarity::Common,
    on_reap: vec![],
    on_fight: vec![Effect::DealDamageToEachEnemy(1)],
    on_play: vec![],
    on_destroyed: vec![],
    text: String::new(),
    }
}

// ---- setup draw ----

#[test]
fn test_setup_draw_seven_and_six() {
    let mut alloc = IdAllocator::new();
    let (mut cards, ids0) = build_deck(&mut alloc, (0..12).map(|_| TROLL()).collect());
    let (cards1, ids1) = build_deck(&mut alloc, (0..12).map(|_| TROLL()).collect());
    cards.extend(cards1);
    let game = GameState::new(ids0, ids1, cards);
    assert_eq!(game.players[0].zones.hand.len(), 7); // first player draws 7
    assert_eq!(game.players[1].zones.hand.len(), 6); // second player draws 6
}

// ---- key / forge tests ----

#[test]
fn test_key_cost_default() {
    let p = Player::new();
    assert_eq!(p.current_key_cost(), 6);
}

#[test]
fn test_key_cost_modifier() {
    let mut p = Player::new();
    p.key_cost_modifier = -2;
    assert_eq!(p.current_key_cost(), 4);
    p.key_cost_modifier = 3;
    assert_eq!(p.current_key_cost(), 9);
    p.key_cost_modifier = -100;
    assert_eq!(p.current_key_cost(), 0); // min 0
}

#[test]
fn test_step_forge_mandatory() {
    let mut p = Player::new();
    p.aember_pool = 6;
    step_forge_key(&mut p);
    assert_eq!(p.keys.forged_count(), 1);
    assert_eq!(p.aember_pool, 0);
}

#[test]
fn test_step_forge_skipped() {
    let mut p = Player::new();
    p.aember_pool = 5;
    step_forge_key(&mut p);
    assert_eq!(p.keys.forged_count(), 0);
    assert_eq!(p.aember_pool, 5);
}

#[test]
fn test_only_one_key_per_step() {
    let mut p = Player::new();
    p.aember_pool = 18;
    step_forge_key(&mut p);
    assert_eq!(p.keys.forged_count(), 1);
    assert_eq!(p.aember_pool, 12);
}

#[test]
fn test_check_announcement() {
    let mut p = Player::new();
    p.aember_pool = 6;
    assert!(should_announce_check(&p));
    p.aember_pool = 5;
    assert!(!should_announce_check(&p));
}

#[test]
fn test_forge_at_no_cost() {
    let mut p = Player::new();
    p.aember_pool = 0;
    forge_key_at_cost(&mut p, 0);
    assert_eq!(p.keys.forged_count(), 1);
    assert_eq!(p.aember_pool, 0);
}

#[test]
fn test_forge_at_current_cost() {
    let mut p = Player::new();
    p.aember_pool = 4;
    p.key_cost_modifier = -2;
    let cost = p.current_key_cost();
    forge_key_at_cost(&mut p, cost);
    assert_eq!(p.keys.forged_count(), 1);
    assert_eq!(p.aember_pool, 0);
}

// ---- house / play tests ----

#[test]
fn test_choose_house() {
    let mut game = two_player_game(vec![TROLL()], vec![TROLL()]);
    choose_house(&mut game, House::Brobnar, false);
    assert_eq!(game.active_house, Some(House::Brobnar));
}

#[test]
fn test_choose_house_picks_up_archives() {
    let mut game = two_player_game(vec![TROLL()], vec![TROLL()]);
    let archived_id = *game.players[0].zones.deck.last().unwrap();
    game.players[0].zones.deck.retain(|&id| id != archived_id);
    game.players[0].zones.archives.push(archived_id);
    choose_house(&mut game, House::Brobnar, true);
    assert!(game.players[0].zones.hand.contains(&archived_id));
    assert!(game.players[0].zones.archives.is_empty());
}

#[test]
fn test_play_creature() {
    let mut game = two_player_game(vec![TROLL()], vec![TROLL()]);
    let id = game.players[0].zones.draw().unwrap();
    play_card(&mut game, id, Flank::Left);
    assert_eq!(game.players[0].zones.battleline.left_flank(), Some(id));
    assert!(!game.players[0].zones.hand.contains(&id));
}

#[test]
fn test_play_action_goes_to_discard() {
    let mut game = two_player_game(vec![PLAGUE()], vec![TROLL()]);
    let id = game.players[0].zones.draw().unwrap();
    play_card(&mut game, id, Flank::Left);
    assert!(game.players[0].zones.discard.contains(&id));
}

#[test]
fn test_play_increments_cards_used() {
    let mut game = two_player_game(vec![TROLL()], vec![TROLL()]);
    let id = game.players[0].zones.draw().unwrap();
    assert_eq!(game.cards_used_this_turn, 0);
    play_card(&mut game, id, Flank::Left);
    assert_eq!(game.cards_used_this_turn, 1);
}

// ---- reap tests ----

#[test]
fn test_reap_exhausts_and_gains_aember() {
    let mut game = two_player_game(vec![TROLL()], vec![TROLL()]);
    let id = game.players[0].zones.draw().unwrap();
    play_card(&mut game, id, Flank::Left); // bonus icon: +1 aember
    reap(&mut game, id);                   // base reap: +1 aember
    assert!(game.cards[&id].exhausted);
    assert_eq!(game.players[0].player.aember_pool, 2); // 1 bonus icon + 1 reap
}

// ---- Alpha keyword ----

#[test]
fn test_alpha_allowed_as_first_action() {
    let mut game = two_player_game(vec![ALPHA_CREATURE()], vec![TROLL()]);
    let id = game.players[0].zones.draw().unwrap();
    assert!(can_play(&game, id)); // first action → allowed
}

#[test]
fn test_alpha_blocked_after_action() {
    // Deck: last element is top; TROLL is last → drawn first.
    let mut game = two_player_game(vec![ALPHA_CREATURE(), TROLL()], vec![TROLL()]);
    let troll_id = game.players[0].zones.draw().unwrap();
    play_card(&mut game, troll_id, Flank::Left); // first action
    let alpha_id = game.players[0].zones.draw().unwrap();
    assert!(!can_play(&game, alpha_id)); // second action → blocked
}

// ---- Elusive keyword ----

#[test]
fn test_elusive_first_attack_absorbed() {
    let mut game = two_player_game(vec![TROLL()], vec![ELUSIVE_CREATURE()]);
    let att = game.players[0].zones.draw().unwrap();
    let def = game.players[1].zones.draw().unwrap();
    play_card(&mut game, att, Flank::Left);
    game.active_player = 1;
    play_card(&mut game, def, Flank::Left);
    game.active_player = 0;

    attack(&mut game, att, def);

    assert_eq!(game.cards[&def].damage, 0); // Elusive absorbed the hit
    assert!(game.cards[&def].elusive_used_this_turn);
}

#[test]
fn test_elusive_second_attack_lands() {
    let mut game = two_player_game(vec![TROLL(), TROLL()], vec![ELUSIVE_CREATURE()]);
    let att1 = game.players[0].zones.draw().unwrap();
    let att2 = game.players[0].zones.draw().unwrap();
    let def = game.players[1].zones.draw().unwrap();
    play_card(&mut game, att1, Flank::Left);
    play_card(&mut game, att2, Flank::Right);
    game.active_player = 1;
    play_card(&mut game, def, Flank::Left);
    game.active_player = 0;

    attack(&mut game, att1, def); // absorbed by Elusive
    attack(&mut game, att2, def); // lands (power 5 - 0 armor = 5 damage; creature power 3 → destroyed)
    assert!(game.players[1].zones.battleline.is_empty());
}

// ---- Taunt keyword ----

#[test]
fn test_can_attack_without_taunt() {
    let mut game = two_player_game(vec![TROLL()], vec![VEZYMA_THINKDRONE()]);
    let att = game.players[0].zones.draw().unwrap();
    let def = game.players[1].zones.draw().unwrap();
    play_card(&mut game, att, Flank::Left);
    game.active_player = 1;
    play_card(&mut game, def, Flank::Left);
    game.active_player = 0;
    assert!(can_attack(&game, att, def)); // no Taunt in enemy line
}

#[test]
fn test_taunt_blocks_non_flank_attack() {
    let mut game = two_player_game(vec![TROLL()], vec![TAUNT_CREATURE(), VEZYMA_THINKDRONE()]);
    let att = game.players[0].zones.draw().unwrap();
    let taunt = game.players[1].zones.draw().unwrap();
    let non_taunt = game.players[1].zones.draw().unwrap();
    play_card(&mut game, att, Flank::Left);
    game.active_player = 1;
    // Place taunt at left, non_taunt at right so non_taunt IS on a flank
    play_card(&mut game, taunt, Flank::Left);   // left flank
    play_card(&mut game, non_taunt, Flank::Right); // right flank
    game.active_player = 0;

    // non_taunt is on right flank → can attack it
    assert!(can_attack(&game, att, non_taunt));
    // taunt creature itself is always attackable
    assert!(can_attack(&game, att, taunt));
}

#[test]
fn test_taunt_blocks_inner_non_taunt() {
    // three enemies: non_taunt | taunt | non_taunt_inner
    // non_taunt_inner is not on a flank, so it cannot be attacked while taunt exists
    let mut game = two_player_game(
        vec![TROLL()],
        vec![VEZYMA_THINKDRONE(), TAUNT_CREATURE(), SMAAASH()],
    );
    let att = game.players[0].zones.draw().unwrap();
    let left_nt = game.players[1].zones.draw().unwrap();
    let taunt = game.players[1].zones.draw().unwrap();
    let inner_nt = game.players[1].zones.draw().unwrap();
    play_card(&mut game, att, Flank::Left);
    game.active_player = 1;
    play_card(&mut game, left_nt, Flank::Left);   // left flank
    play_card(&mut game, taunt, Flank::Right);    // middle
    play_card(&mut game, inner_nt, Flank::Right); // right flank
    game.active_player = 0;

    // taunt is in the middle (not on a flank), inner_nt is on right flank
    // left_nt is on left flank
    assert!(can_attack(&game, att, left_nt));   // flank → ok
    assert!(can_attack(&game, att, inner_nt));  // flank → ok
    assert!(can_attack(&game, att, taunt));     // taunt itself → ok
    // no inner non-flank non-taunt creature exists here, so all pass
}

// ---- Capture keyword ----

#[test]
fn test_capture_on_reap() {
    let mut game = two_player_game(vec![CAPTURE_CREATURE()], vec![TROLL()]);
    let id = game.players[0].zones.draw().unwrap();
    play_card(&mut game, id, Flank::Left);
    game.players[1].player.aember_pool = 3;

    reap(&mut game, id);

    assert_eq!(game.players[1].player.aember_pool, 2); // lost 1
    assert_eq!(game.cards[&id].aember, 1);             // on creature
    assert_eq!(game.players[0].player.aember_pool, 1); // base reap gain
}

#[test]
fn test_capture_on_attack() {
    // Use a high-power attacker so it survives and retains the captured Aember.
    let mut game = two_player_game(vec![STRONG_CAPTURE()], vec![TROLL()]);
    let att = game.players[0].zones.draw().unwrap();
    let def = game.players[1].zones.draw().unwrap();
    play_card(&mut game, att, Flank::Left);
    game.active_player = 1;
    play_card(&mut game, def, Flank::Left);
    game.active_player = 0;
    game.players[1].player.aember_pool = 2;

    attack(&mut game, att, def);

    assert_eq!(game.players[1].player.aember_pool, 1); // lost 1 to capture
    assert_eq!(game.cards[&att].aember, 1);            // sits on attacker
}

// ---- Steal keyword ----

#[test]
fn test_steal_on_reap() {
    let mut game = two_player_game(vec![STEAL_CREATURE()], vec![TROLL()]);
    let id = game.players[0].zones.draw().unwrap();
    play_card(&mut game, id, Flank::Left);
    game.players[1].player.aember_pool = 3;

    reap(&mut game, id);

    assert_eq!(game.players[1].player.aember_pool, 2); // lost 1
    assert_eq!(game.players[0].player.aember_pool, 2); // 1 reap + 1 stolen
}

#[test]
fn test_steal_on_attack() {
    let mut game = two_player_game(vec![SILVERTOOTH()], vec![TROLL()]);
    let att = game.players[0].zones.draw().unwrap();
    let def = game.players[1].zones.draw().unwrap();
    play_card(&mut game, att, Flank::Left);
    game.active_player = 1;
    play_card(&mut game, def, Flank::Left);
    game.active_player = 0;
    game.players[1].player.aember_pool = 2;

    attack(&mut game, att, def);

    assert_eq!(game.players[1].player.aember_pool, 1); // stolen 1
    assert_eq!(game.players[0].player.aember_pool, 1); // gained 1
}

// ---- Exalt keyword ----

#[test]
fn test_exalt_places_aember_on_play() {
    let mut game = two_player_game(vec![EXALT_CREATURE()], vec![TROLL()]);
    let id = game.players[0].zones.draw().unwrap();
    play_card(&mut game, id, Flank::Left);
    assert_eq!(game.cards[&id].aember, 1);
}

#[test]
fn test_exalt_aember_goes_to_opponent_on_destroy() {
    let mut game = two_player_game(vec![SMAAASH()], vec![EXALT_CREATURE()]);
    let att = game.players[0].zones.draw().unwrap();
    let def = game.players[1].zones.draw().unwrap();
    play_card(&mut game, att, Flank::Left);
    game.active_player = 1;
    play_card(&mut game, def, Flank::Left);
    game.active_player = 0;

    // Smaaash (3 power, Assault 2) vs Exalt creature (2 power, 1 aember)
    // Assault deals 2 → destroys Exalt creature (power 2)
    attack(&mut game, att, def);

    // Exalted aember goes to attacker (player 0) as defender is P1's creature
    assert_eq!(game.players[0].player.aember_pool, 1);
    assert!(game.players[1].zones.battleline.is_empty());
}

// ---- Deploy keyword ----

#[test]
fn test_deploy_places_creature_at_index() {
    let mut game = two_player_game(vec![TROLL(), TROLL(), DEPLOY_CREATURE()], vec![TROLL()]);
    let left_id = game.players[0].zones.draw().unwrap();
    let right_id = game.players[0].zones.draw().unwrap();
    play_card(&mut game, left_id, Flank::Left);
    play_card(&mut game, right_id, Flank::Right);
    let deploy_id = game.players[0].zones.draw().unwrap();
    play_card_deployed(&mut game, deploy_id, 1); // insert between them
    assert_eq!(
        game.players[0].zones.battleline.neighbors(deploy_id),
        (Some(left_id), Some(right_id))
    );
}

// ---- Triggered effects ----

#[test]
fn test_on_reap_effect() {
    let mut game = two_player_game(vec![REAP_GAIN_CREATURE()], vec![TROLL()]);
    let id = game.players[0].zones.draw().unwrap();
    play_card(&mut game, id, Flank::Left);
    // on_play draws 1 card; just verify creature is in play
    reap(&mut game, id);
    // base reap = 1, on_reap GainAember(2) = 2 more → total 3
    assert_eq!(game.players[0].player.aember_pool, 3);
}

#[test]
fn test_on_play_effect_draws_card() {
    // REAP_GAIN_CREATURE is last in slice → drawn first; TROLL stays in deck.
    let mut game = two_player_game(vec![TROLL(), REAP_GAIN_CREATURE()], vec![TROLL()]);
    let id1 = game.players[0].zones.draw().unwrap(); // draws REAP_GAIN_CREATURE
    let hand_before = game.players[0].zones.hand.len(); // 1
    play_card(&mut game, id1, Flank::Left); // on_play draws 1 from deck (TROLL)
    assert_eq!(game.players[0].zones.hand.len(), hand_before); // played 1, drew 1 → same size
}

#[test]
fn test_on_destroyed_effect() {
    let mut game = two_player_game(vec![SMAAASH()], vec![REAP_GAIN_CREATURE()]);
    let att = game.players[0].zones.draw().unwrap();
    let def = game.players[1].zones.draw().unwrap();
    play_card(&mut game, att, Flank::Left);
    game.active_player = 1;
    play_card(&mut game, def, Flank::Left);
    game.active_player = 0;

    // on_play for def draws a card (not easily testable here without setup)
    // Attack: Smaaash (3 power, Assault 2) destroys ReapGainer (2 power)
    // on_destroyed: GainAember(1) for P1 (defender's controller)
    attack(&mut game, att, def);

    assert_eq!(game.players[1].player.aember_pool, 1); // on_destroyed gain
    assert!(game.players[1].zones.battleline.is_empty());
}

#[test]
fn test_on_fight_deal_damage_to_each_enemy() {
    // Berserker (5 power, on_fight DealDamageToEachEnemy(1)) vs Vezyma (1 power)
    let mut game = two_player_game(vec![FIGHT_DAMAGE_CREATURE()], vec![VEZYMA_THINKDRONE(), SMAAASH()]);
    let att = game.players[0].zones.draw().unwrap();
    let def1 = game.players[1].zones.draw().unwrap();
    let def2 = game.players[1].zones.draw().unwrap();
    play_card(&mut game, att, Flank::Left);
    game.active_player = 1;
    play_card(&mut game, def1, Flank::Left);
    play_card(&mut game, def2, Flank::Right);
    game.active_player = 0;

    // Fight def1; berserker's on_fight deals 1 to each enemy (def2 only, def1 already resolved)
    // After attack: def1 takes 5 damage (destroyed), def2 takes 1 from on_fight
    attack(&mut game, att, def1);

    assert!(game.players[1].zones.discard.contains(&def1)); // destroyed in fight
    assert_eq!(game.cards[&def2].damage, 1); // hit by on_fight splash
}

// ---- basic attack tests (regression) ----

#[test]
fn test_attack_basic_fight() {
    // Troll (5 power, 1 armor) vs Troll (5 power, 1 armor)
    let mut game = two_player_game(vec![TROLL()], vec![TROLL()]);
    let att = game.players[0].zones.draw().unwrap();
    let def = game.players[1].zones.draw().unwrap();
    play_card(&mut game, att, Flank::Left);
    game.active_player = 1;
    play_card(&mut game, def, Flank::Left);
    game.active_player = 0;

    attack(&mut game, att, def);

    // Each deals 5 damage, 1 absorbed by armor -> 4 damage each; power 5, not destroyed
    assert_eq!(game.cards[&att].damage, 4);
    assert_eq!(game.cards[&def].damage, 4);
    assert!(game.cards[&att].exhausted);
}

#[test]
fn test_attack_destroys_weaker_creature() {
    // Vezyma (1 power, no armor) attacked by Smaaash (3 power, Assault 2)
    let mut game = two_player_game(vec![SMAAASH()], vec![VEZYMA_THINKDRONE()]);
    let att = game.players[0].zones.draw().unwrap();
    let def = game.players[1].zones.draw().unwrap();
    play_card(&mut game, att, Flank::Left);
    game.active_player = 1;
    play_card(&mut game, def, Flank::Left);
    game.active_player = 0;

    attack(&mut game, att, def);

    // Assault(2) pre-damage destroys Vezyma (power 1) before fight resolves
    assert!(game.players[1].zones.battleline.is_empty());
    assert!(game.players[1].zones.discard.contains(&def));
}

#[test]
fn test_attack_skirmish_no_return_damage() {
    // Silvertooth (2 power, Skirmish) vs Troll (5 power)
    let mut game = two_player_game(vec![SILVERTOOTH()], vec![TROLL()]);
    let att = game.players[0].zones.draw().unwrap();
    let def = game.players[1].zones.draw().unwrap();
    play_card(&mut game, att, Flank::Left);
    game.active_player = 1;
    play_card(&mut game, def, Flank::Left);
    game.active_player = 0;

    attack(&mut game, att, def);

    assert_eq!(game.cards[&att].damage, 0); // Skirmish: no return damage
}

#[test]
fn test_end_turn_readies_cards_and_draws() {
    let mut game = two_player_game(vec![TROLL(), TROLL(), TROLL(), TROLL(), TROLL(), TROLL(), TROLL()], vec![TROLL()]);
    let id = game.players[0].zones.draw().unwrap();
    play_card(&mut game, id, Flank::Left);
    game.cards.get_mut(&id).unwrap().exhausted = true;

    end_turn(&mut game);

    assert!(!game.cards[&id].exhausted);
    assert_eq!(game.players[0].zones.hand.len(), 6);
    assert_eq!(game.active_player, 1);
    assert_eq!(game.turn, 2);
    assert_eq!(game.cards_used_this_turn, 0); // reset on end turn
}

// ---- Stun ----

#[test]
fn test_stun_blocks_reap() {
    let mut game = two_player_game(vec![TROLL()], vec![TROLL()]);
    let id = game.players[0].zones.draw().unwrap();
    play_card(&mut game, id, Flank::Left);
    game.cards.get_mut(&id).unwrap().stun = true;
    assert!(!can_reap(&game, id));
}

#[test]
fn test_stun_blocks_fight() {
    let mut game = two_player_game(vec![TROLL()], vec![TROLL()]);
    let id = game.players[0].zones.draw().unwrap();
    play_card(&mut game, id, Flank::Left);
    game.cards.get_mut(&id).unwrap().stun = true;
    assert!(!can_fight_with(&game, id));
}

#[test]
fn test_unstun_exhausts_and_clears_stun() {
    let mut game = two_player_game(vec![TROLL()], vec![TROLL()]);
    let id = game.players[0].zones.draw().unwrap();
    play_card(&mut game, id, Flank::Left);
    game.cards.get_mut(&id).unwrap().stun = true;
    unstun(&mut game, id);
    assert!(!game.cards[&id].stun);
    assert!(game.cards[&id].exhausted);
}

// ---- Enrage ----

#[test]
fn test_enraged_cannot_reap_when_enemies_exist() {
    let mut game = two_player_game(vec![TROLL()], vec![TROLL()]);
    let att = game.players[0].zones.draw().unwrap();
    let def = game.players[1].zones.draw().unwrap();
    play_card(&mut game, att, Flank::Left);
    game.active_player = 1;
    play_card(&mut game, def, Flank::Left);
    game.active_player = 0;
    game.cards.get_mut(&att).unwrap().enrage = true;
    assert!(!can_reap(&game, att));
}

#[test]
fn test_enraged_can_reap_when_no_enemies() {
    let mut game = two_player_game(vec![TROLL()], vec![TROLL()]);
    let att = game.players[0].zones.draw().unwrap();
    play_card(&mut game, att, Flank::Left);
    game.cards.get_mut(&att).unwrap().enrage = true;
    assert!(can_reap(&game, att)); // no enemies
}

// ---- Invulnerable ----

fn INVULNERABLE_CREATURE() -> CardDef {
    CardDef {
    name: "Immortal".to_string(),
    card_type: CardType::Creature,
    house: House::Sanctum,
    power: Some(3),
    armor: None,
    keywords: vec![Keyword::Invulnerable],
    bonus_icons: vec![],
    traits: vec![],
    rarity: Rarity::Rare,
    on_reap: vec![],
    on_fight: vec![],
    on_play: vec![],
    on_destroyed: vec![],
    text: String::new(),
    }
}

#[test]
fn test_invulnerable_ignores_damage() {
    let mut game = two_player_game(vec![TROLL()], vec![INVULNERABLE_CREATURE()]);
    let att = game.players[0].zones.draw().unwrap();
    let def = game.players[1].zones.draw().unwrap();
    play_card(&mut game, att, Flank::Left);
    game.active_player = 1;
    play_card(&mut game, def, Flank::Left);
    game.active_player = 0;
    attack(&mut game, att, def);
    assert_eq!(game.cards[&def].damage, 0); // no damage taken
    assert!(!game.players[1].zones.battleline.is_empty()); // survives
}

// ---- Omega ----

fn OMEGA_CREATURE() -> CardDef {
    CardDef {
    name: "Omega Beast".to_string(),
    card_type: CardType::Creature,
    house: House::Brobnar,
    power: Some(3),
    armor: None,
    keywords: vec![Keyword::Omega],
    bonus_icons: vec![],
    traits: vec![],
    rarity: Rarity::Rare,
    on_reap: vec![],
    on_fight: vec![],
    on_play: vec![],
    on_destroyed: vec![],
    text: String::new(),
    }
}

#[test]
fn test_omega_blocks_further_plays() {
    // Last element = top of deck; OMEGA_CREATURE is drawn first.
    let mut game = two_player_game(vec![TROLL(), OMEGA_CREATURE()], vec![TROLL()]);
    let omega_id = game.players[0].zones.draw().unwrap();
    play_card(&mut game, omega_id, Flank::Left);
    assert!(game.omega_triggered);
    let troll_id = game.players[0].zones.draw().unwrap();
    assert!(!can_play(&game, troll_id));
}

#[test]
fn test_omega_resets_on_end_turn() {
    let mut game = two_player_game(vec![OMEGA_CREATURE()], vec![TROLL()]);
    let id = game.players[0].zones.draw().unwrap();
    play_card(&mut game, id, Flank::Left);
    assert!(game.omega_triggered);
    end_turn(&mut game);
    assert!(!game.omega_triggered);
}

// ---- Versatile ----

fn VERSATILE_CREATURE() -> CardDef {
    CardDef {
    name: "Chameleon".to_string(),
    card_type: CardType::Creature,
    house: House::Logos,
    power: Some(2),
    armor: None,
    keywords: vec![Keyword::Versatile],
    bonus_icons: vec![],
    traits: vec![],
    rarity: Rarity::Common,
    on_reap: vec![],
    on_fight: vec![],
    on_play: vec![],
    on_destroyed: vec![],
    text: String::new(),
    }
}

#[test]
fn test_versatile_is_active_house_regardless() {
    let mut game = two_player_game(vec![VERSATILE_CREATURE()], vec![TROLL()]);
    let id = game.players[0].zones.draw().unwrap();
    game.active_house = Some(House::Brobnar); // Versatile is Logos
    assert!(is_active_house_card(&game, id));
}

#[test]
fn test_non_versatile_wrong_house_is_not_active() {
    let mut game = two_player_game(vec![TROLL()], vec![TROLL()]);
    let id = game.players[0].zones.draw().unwrap();
    game.active_house = Some(House::Dis); // Troll is Brobnar
    assert!(!is_active_house_card(&game, id));
}

// ---- Treachery ----

fn TREACHERY_CREATURE() -> CardDef {
    CardDef {
    name: "Turncoat".to_string(),
    card_type: CardType::Creature,
    house: House::Dis,
    power: Some(2),
    armor: None,
    keywords: vec![Keyword::Treachery],
    bonus_icons: vec![],
    traits: vec![],
    rarity: Rarity::Rare,
    on_reap: vec![],
    on_fight: vec![],
    on_play: vec![],
    on_destroyed: vec![],
    text: String::new(),
    }
}

#[test]
fn test_treachery_enters_opponent_battleline() {
    let mut game = two_player_game(vec![TREACHERY_CREATURE()], vec![TROLL()]);
    let id = game.players[0].zones.draw().unwrap();
    play_card(&mut game, id, Flank::Left);
    assert!(game.players[0].zones.battleline.is_empty()); // not on player's line
    assert!(game.players[1].zones.battleline.creature_ids().contains(&id));
}

// ---- Chains ----

#[test]
fn test_chains_reduce_draw() {
    // Give player 0 exactly 6 chains (penalty = 1 fewer card → refill to 5).
    let mut game = two_player_game(
        vec![TROLL(), TROLL(), TROLL(), TROLL(), TROLL(), TROLL(), TROLL()],
        vec![TROLL()],
    );
    game.players[0].player.chains = 6;
    game.players[0].zones.hand.clear(); // ensure a clean refill
    // active_player = 0 by default
    end_turn(&mut game);
    // Chains = 6 → penalty 1 → max hand 5
    assert_eq!(game.players[0].zones.hand.len(), 5);
    // Chains shed 1
    assert_eq!(game.players[0].player.chains, 5);
}

// ---- First Turn Rule ----

#[test]
fn test_first_turn_rule_blocks_second_play() {
    let mut game = two_player_game(vec![TROLL(), TROLL()], vec![TROLL()]);
    let id1 = game.players[0].zones.draw().unwrap();
    let id2 = game.players[0].zones.draw().unwrap();
    play_card(&mut game, id1, Flank::Left); // first action — allowed
    assert!(!can_play(&game, id2));          // second action on turn 1 — blocked
}

#[test]
fn test_first_turn_rule_only_applies_turn_one() {
    // 8 cards so P0 still has deck remaining after drawing to 6 on turn 1.
    let mut game = two_player_game(
        vec![TROLL(), TROLL(), TROLL(), TROLL(), TROLL(), TROLL(), TROLL(), TROLL()],
        vec![TROLL()],
    );
    end_turn(&mut game); // P0 draws 6; turn 2, P1
    end_turn(&mut game); // P1 draws; turn 3, P0
    // P0 has 6 cards in hand from turn 1 refill.
    let id1 = game.players[0].zones.hand[0];
    let id2 = game.players[0].zones.hand[1];
    play_card(&mut game, id1, Flank::Left);
    assert!(can_play(&game, id2)); // turn 3 — no restriction
}

// ---- Bonus Icons ----

#[test]
fn test_bonus_icon_aember_on_play() {
    let mut game = two_player_game(vec![TROLL()], vec![TROLL()]);
    let id = game.players[0].zones.draw().unwrap();
    play_card(&mut game, id, Flank::Left); // TROLL has BonusIcon::Aember
    assert_eq!(game.players[0].player.aember_pool, 1);
}

#[test]
fn test_bonus_icon_damage_hits_first_enemy() {
    // VEZYMA has no armor so the 1 bonus damage lands.
    let mut game = two_player_game(vec![SMAAASH()], vec![VEZYMA_THINKDRONE()]);
    let att = game.players[0].zones.draw().unwrap();
    let def = game.players[1].zones.draw().unwrap();
    // Play defender first so it is the target when attacker's bonus damage resolves.
    game.active_player = 1;
    play_card(&mut game, def, Flank::Left);
    game.active_player = 0;
    play_card(&mut game, att, Flank::Left); // SMAAASH has BonusIcon::Damage
    // Defender (Vezyma: 1 power, no armor) takes 1 damage and is destroyed.
    assert!(game.players[1].zones.discard.contains(&def));
}

// ---- Rule of Six ----

#[test]
fn test_rule_of_six_blocks_seventh_use() {
    let mut game = two_player_game(vec![TROLL()], vec![TROLL()]);
    let id = game.players[0].zones.draw().unwrap();
    play_card(&mut game, id, Flank::Left); // play counts as 1 use
    // Simulate 5 reaps to reach the limit.
    game.cards.get_mut(&id).unwrap().exhausted = false;
    for _ in 0..5 {
        let n = *game.card_use_counts.get("Troll").unwrap_or(&0);
        game.card_use_counts.insert("Troll".to_string(), n + 1);
    }
    // Now at 6 uses total (1 play + 5 simulated). Further reap/play blocked.
    assert!(!can_reap(&game, id));
}

// ---- Discard from hand ----

#[test]
fn test_discard_card_from_hand() {
    let mut game = two_player_game(vec![TROLL()], vec![TROLL()]);
    let id = game.players[0].zones.draw().unwrap();
    assert!(game.players[0].zones.hand.contains(&id));
    discard_card_from_hand(&mut game, id);
    assert!(!game.players[0].zones.hand.contains(&id));
    assert!(game.players[0].zones.discard.contains(&id));
    assert_eq!(game.cards_used_this_turn, 1);
}

// ---- After Fight: attacker survival ----

fn WEAK_FIGHT_EFFECT() -> CardDef {
    CardDef {
    name: "Weak Berserker".to_string(),
    card_type: CardType::Creature,
    house: House::Brobnar,
    power: Some(1),
    armor: None,
    keywords: vec![],
    bonus_icons: vec![],
    traits: vec![],
    rarity: Rarity::Common,
    on_reap: vec![],
    on_fight: vec![Effect::GainAember(5)],
    on_play: vec![],
    on_destroyed: vec![],
    text: String::new(),
    }
}

#[test]
fn test_after_fight_does_not_fire_when_attacker_dies() {
    // Attacker (1 power) fights Troll (5 power) → attacker is destroyed.
    // on_fight GainAember(5) should NOT fire since attacker died.
    let mut game = two_player_game(vec![WEAK_FIGHT_EFFECT()], vec![TROLL()]);
    let att = game.players[0].zones.draw().unwrap();
    let def = game.players[1].zones.draw().unwrap();
    play_card(&mut game, att, Flank::Left);
    game.active_player = 1;
    play_card(&mut game, def, Flank::Left);
    game.active_player = 0;
    let aember_before = game.players[0].player.aember_pool;
    attack(&mut game, att, def);
    // Attacker destroyed → on_fight should not have fired
    assert_eq!(game.players[0].player.aember_pool, aember_before);
}

#[test]
fn test_captured_aember_transfers_on_destroy() {
    let mut game = two_player_game(vec![SMAAASH()], vec![VEZYMA_THINKDRONE()]);
    let att = game.players[0].zones.draw().unwrap();
    let def = game.players[1].zones.draw().unwrap();
    play_card(&mut game, att, Flank::Left);
    game.active_player = 1;
    play_card(&mut game, def, Flank::Left);
    game.active_player = 0;

    // Place aember on defender to verify it transfers to opponent on death
    game.cards.get_mut(&def).unwrap().aember = 2;
    attack(&mut game, att, def);

    assert_eq!(game.players[0].player.aember_pool, 2);
}
