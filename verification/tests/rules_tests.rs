use keyforge::card::{CardDef, Keyword};
use keyforge::cards::{BANNER_OF_BATTLE, PLAGUE, SILVERTOOTH, SMAAASH, TROLL, VEZYMA_THINKDRONE};
use keyforge::deck::{IdAllocator, build_deck};
use keyforge::game::{GameState, end_turn, play_card, reap};
use keyforge::protocol::ClientMessage;
use keyforge::server::dispatch_message;
use keyforge::view::to_client_view;
use keyforge::zones::Flank;

fn game(p0: Vec<CardDef>, p1: Vec<CardDef>) -> GameState {
    let mut alloc = IdAllocator::new();
    let (mut cards, ids0) = build_deck(&mut alloc, p0);
    let (cards1, ids1) = build_deck(&mut alloc, p1);
    cards.extend(cards1);
    GameState::new_no_draw(ids0, ids1, cards)
}

fn snapshot(g: &GameState) -> (Vec<u32>, Vec<u32>, Vec<u32>, u32, u32, u32, usize) {
    (
        g.players[0].zones.hand.clone(),
        g.players[0].zones.battleline.creature_ids(),
        g.players[0].zones.discard.clone(),
        g.players[0].player.aember_pool,
        g.players[1].player.aember_pool,
        g.cards_used_this_turn,
        g.active_player,
    )
}

#[test]
fn refused_requests_leave_the_game_unchanged() {
    let mut g = game(vec![TROLL(), TROLL()], vec![TROLL()]);
    let id = g.players[0].zones.draw().unwrap();
    let before = snapshot(&g);
    let requests = [
        ClientMessage::PlayCard { card_id: 9999, flank: Flank::Left },
        ClientMessage::PlayCardDeployed { card_id: 9999, index: 0 },
        ClientMessage::Reap { card_id: id },
        ClientMessage::Unstun { card_id: id },
        ClientMessage::Attack { attacker_id: id, defender_id: 1 },
        ClientMessage::DiscardFromHand { card_id: 9999 },
    ];
    for m in requests {
        assert!(dispatch_message(&mut g, 0, m).is_err());
        assert_eq!(snapshot(&g), before);
    }
}

#[test]
fn steal_moves_aember_between_pools() {
    let mut g = game(vec![SILVERTOOTH()], vec![TROLL()]);
    let id = g.players[0].zones.draw().unwrap();
    play_card(&mut g, id, Flank::Left);
    g.players[1].player.aember_pool = 3;
    let before = g.players[0].player.aember_pool + g.players[1].player.aember_pool;
    reap(&mut g, id);
    // One Aember from reaping, one stolen: the pools grow by the reap only.
    assert_eq!(g.players[0].player.aember_pool + g.players[1].player.aember_pool, before + 1);
    assert_eq!(g.players[1].player.aember_pool, 2);
}

#[test]
fn plague_damages_each_enemy_creature() {
    let mut g = game(vec![PLAGUE()], vec![TROLL(), VEZYMA_THINKDRONE()]);
    let a = g.players[1].zones.draw().unwrap();
    let b = g.players[1].zones.draw().unwrap();
    g.active_player = 1;
    play_card(&mut g, a, Flank::Left);
    play_card(&mut g, b, Flank::Left);
    g.active_player = 0;
    let p = g.players[0].zones.draw().unwrap();
    play_card(&mut g, p, Flank::Left);
    assert!(g.players[0].zones.discard.contains(&p));
    // Vezyma (power 1) is destroyed; Troll's armor absorbs the point.
    assert_eq!(g.players[1].zones.battleline.creature_ids().len(), 1);
    assert!(g.players[1].zones.discard.contains(&a));
    assert_eq!(g.cards[&b].damage, 0);
}

#[test]
fn vezyma_draws_when_it_reaps() {
    let mut g = game(vec![TROLL(), VEZYMA_THINKDRONE()], vec![TROLL()]);
    let id = g.players[0].zones.draw().unwrap();
    play_card(&mut g, id, Flank::Left);
    assert!(g.players[0].zones.hand.is_empty());
    reap(&mut g, id);
    assert_eq!(g.players[0].zones.hand.len(), 1);
}

#[test]
fn end_turn_readies_artifacts_and_clears_counts() {
    let mut g = game(vec![BANNER_OF_BATTLE()], vec![TROLL()]);
    let id = g.players[0].zones.draw().unwrap();
    play_card(&mut g, id, Flank::Left);
    g.cards.get_mut(&id).unwrap().exhausted = true;
    end_turn(&mut g);
    assert!(!g.cards[&id].exhausted);
    assert_eq!(g.card_use_counts.get("Banner of Battle"), None);
    assert_eq!(g.active_house, None);
    assert_eq!(g.active_player, 1);
}

#[test]
fn new_game_deals_seven_and_six_from_the_top() {
    let mut alloc = IdAllocator::new();
    let (mut cards, d0) = build_deck(&mut alloc, (0..10).map(|_| TROLL()).collect());
    let (c1, d1) = build_deck(&mut alloc, (0..10).map(|_| TROLL()).collect());
    cards.extend(c1);
    let g = GameState::new(d0.clone(), d1.clone(), cards);
    assert_eq!(g.players[0].zones.hand.len(), 7);
    assert_eq!(g.players[0].zones.deck, d0[..3].to_vec());
    assert_eq!(g.players[0].zones.hand[0], d0[9]);
    assert_eq!(g.players[1].zones.hand.len(), 6);
    assert_eq!(g.players[1].zones.deck.len(), 4);
}

#[test]
fn view_hides_the_opponents_hand() {
    let mut g = game(vec![TROLL(), TROLL()], vec![TROLL(), TROLL()]);
    g.players[1].zones.draw();
    let v1 = to_client_view(&g, 0);
    // Swap the opponent's hand card for the one in their deck.
    let h = g.players[1].zones.hand[0];
    g.players[1].zones.hand[0] = g.players[1].zones.deck[0];
    g.players[1].zones.deck[0] = h;
    let v2 = to_client_view(&g, 0);
    assert_eq!(v1.opp_hand_count, v2.opp_hand_count);
    assert_eq!(v1.opp_deck_count, v2.opp_deck_count);
    assert_eq!(v1.my_hand.len(), v2.my_hand.len());
    let v_opp = to_client_view(&g, 1);
    assert_eq!(v_opp.my_hand[0].id, g.players[1].zones.hand[0]);
}

#[test]
fn end_turn_request_forges_for_the_next_player() {
    let mut g = game(vec![TROLL()], vec![TROLL()]);
    g.players[1].player.aember_pool = 13;
    dispatch_message(&mut g, 0, ClientMessage::EndTurn).unwrap();
    // Only one key per Step 1, even with Aember for two.
    assert_eq!(g.players[1].player.keys.forged_count(), 1);
    assert_eq!(g.players[1].player.aember_pool, 7);
}

fn all_zone_ids(g: &GameState) -> Vec<u32> {
    let mut all = Vec::new();
    for p in g.players.iter() {
        let z = &p.zones;
        for v in [&z.deck, &z.hand, &z.artifacts, &z.discard, &z.archives, &z.purged] {
            all.extend(v.iter().copied());
        }
        all.extend(z.battleline.creature_ids());
    }
    all.sort();
    all
}

#[test]
fn every_card_stays_in_one_zone_through_a_game() {
    let mut alloc = IdAllocator::new();
    let (mut cards, d0) = build_deck(&mut alloc, vec![TROLL(), SMAAASH(), PLAGUE(), VEZYMA_THINKDRONE(), TROLL(), TROLL(), TROLL(), TROLL()]);
    let (c1, d1) = build_deck(&mut alloc, vec![VEZYMA_THINKDRONE(), TROLL(), SILVERTOOTH(), TROLL(), TROLL(), TROLL(), TROLL()]);
    cards.extend(c1);
    let mut g = GameState::new(d0, d1, cards);
    let expected: Vec<u32> = (1..=15).collect();
    assert_eq!(all_zone_ids(&g), expected);
    let requests = [
        (0, ClientMessage::ChooseHouse { house: keyforge::card::House::Brobnar, pick_up_archives: true }),
        (0, ClientMessage::PlayCard { card_id: 8, flank: keyforge::zones::Flank::Left }),
        (0, ClientMessage::EndTurn),
        (1, ClientMessage::PlayCard { card_id: 15, flank: keyforge::zones::Flank::Right }),
        (1, ClientMessage::PlayCard { card_id: 14, flank: keyforge::zones::Flank::Right }),
        (1, ClientMessage::EndTurn),
        (0, ClientMessage::Reap { card_id: 8 }),
        (0, ClientMessage::DiscardFromHand { card_id: 7 }),
        (0, ClientMessage::EndTurn),
        (1, ClientMessage::Attack { attacker_id: 15, defender_id: 8 }),
        (1, ClientMessage::EndTurn),
    ];
    for (p, m) in requests {
        let _ = dispatch_message(&mut g, p, m);
        assert_eq!(all_zone_ids(&g), expected);
    }
}

fn creature(name: &str, power: u32, keywords: Vec<keyforge::card::Keyword>) -> CardDef {
    CardDef {
        name: name.to_string(),
        card_type: keyforge::card::CardType::Creature,
        house: keyforge::card::House::Dis,
        power: Some(power),
        armor: None,
        keywords,
        bonus_icons: vec![],
        traits: vec![],
        rarity: keyforge::card::Rarity::Common,
        on_reap: vec![],
        on_fight: vec![],
        on_play: vec![],
        on_destroyed: vec![],
        text: String::new(),
    }
}

#[test]
fn treachery_card_leaves_the_hand() {
    let mut g = game(vec![creature("Turncoat", 2, vec![Keyword::Treachery])], vec![TROLL()]);
    let id = g.players[0].zones.draw().unwrap();
    play_card(&mut g, id, Flank::Left);
    assert!(!g.players[0].zones.hand.contains(&id));
    assert!(g.players[0].zones.battleline.is_empty());
    assert_eq!(g.players[1].zones.battleline.creature_ids(), vec![id]);
    assert!(!g.players[1].zones.hand.contains(&id));
}

#[test]
fn attack_absorbed_by_elusive_counts_as_a_use() {
    let mut g = game(vec![TROLL()], vec![creature("Elusive One", 3, vec![Keyword::Elusive])]);
    let att = g.players[0].zones.draw().unwrap();
    let def = g.players[1].zones.draw().unwrap();
    play_card(&mut g, att, Flank::Left);
    g.active_player = 1;
    play_card(&mut g, def, Flank::Left);
    g.active_player = 0;
    keyforge::game::attack(&mut g, att, def);
    assert_eq!(g.cards[&def].damage, 0);
    assert_eq!(g.card_use_counts.get("Troll"), Some(&2)); // the play and the attack
    assert_eq!(g.cards_used_this_turn, 3); // two plays and the attack
}

#[test]
fn poison_needs_damage_from_the_fight() {
    // Smaaash damages itself with its own Damage icon, then Assault kills Vezyma before
    // the fight: Vezyma deals no power damage, so its Poison does nothing.
    let mut g = game(vec![SMAAASH()], vec![VEZYMA_THINKDRONE()]);
    let att = g.players[0].zones.draw().unwrap();
    let def = g.players[1].zones.draw().unwrap();
    play_card(&mut g, att, Flank::Left);
    assert_eq!(g.cards[&att].damage, 1);
    g.active_player = 1;
    play_card(&mut g, def, Flank::Left);
    g.active_player = 0;
    keyforge::game::attack(&mut g, att, def);
    assert!(g.players[1].zones.discard.contains(&def));
    assert_eq!(g.players[0].zones.battleline.creature_ids(), vec![att]);
    assert_eq!(g.cards[&att].damage, 1);
}

#[test]
fn poison_destroys_what_it_damages_and_not_what_armor_saves() {
    // Power 2 through Troll's 1 armor deals 1 damage: Poison destroys the Troll.
    let mut g = game(vec![creature("Viper", 2, vec![Keyword::Poison])], vec![TROLL()]);
    let att = g.players[0].zones.draw().unwrap();
    let def = g.players[1].zones.draw().unwrap();
    play_card(&mut g, att, Flank::Left);
    g.active_player = 1;
    play_card(&mut g, def, Flank::Left);
    g.active_player = 0;
    keyforge::game::attack(&mut g, att, def);
    assert!(g.players[1].zones.discard.contains(&def));
    // Power 1 is all absorbed by the armor: no damage, so no Poison.
    let mut g = game(vec![creature("Adder", 1, vec![Keyword::Poison, Keyword::Skirmish])], vec![TROLL()]);
    let att = g.players[0].zones.draw().unwrap();
    let def = g.players[1].zones.draw().unwrap();
    play_card(&mut g, att, Flank::Left);
    g.active_player = 1;
    play_card(&mut g, def, Flank::Left);
    g.active_player = 0;
    keyforge::game::attack(&mut g, att, def);
    assert_eq!(g.cards[&def].damage, 0);
    assert_eq!(g.players[1].zones.battleline.creature_ids(), vec![def]);
}

#[test]
fn server_refuses_what_the_rules_forbid() {
    let mut g = game(vec![TROLL(), TROLL()], vec![creature("Guard", 3, vec![Keyword::Taunt]), creature("Guarded", 3, vec![]), creature("Other", 3, vec![])]);
    let a = g.players[0].zones.draw().unwrap();
    dispatch_message(&mut g, 0, ClientMessage::PlayCard { card_id: a, flank: Flank::Left }).unwrap();
    // The opponent's line: Other, Guard, Guarded... built on player 1's turn.
    g.active_player = 1;
    let x = g.players[1].zones.draw().unwrap(); // Other
    let y = g.players[1].zones.draw().unwrap(); // Guarded
    let z = g.players[1].zones.draw().unwrap(); // Guard
    play_card(&mut g, x, Flank::Right);
    play_card(&mut g, z, Flank::Right);
    play_card(&mut g, y, Flank::Right);
    g.active_player = 0;
    // Not player 1's turn.
    let before = snapshot(&g);
    assert_eq!(dispatch_message(&mut g, 1, ClientMessage::EndTurn).unwrap_err(), "Not your turn");
    assert_eq!(snapshot(&g), before);
    // Guard has Taunt; Guarded and Other are on the flanks, Guard in the middle: all may
    // be attacked, so use an exhausted attacker to get a refusal.
    g.cards.get_mut(&a).unwrap().exhausted = true;
    assert_eq!(
        dispatch_message(&mut g, 0, ClientMessage::Attack { attacker_id: a, defender_id: y }).unwrap_err(),
        "Creature cannot fight now"
    );
    assert_eq!(
        dispatch_message(&mut g, 0, ClientMessage::Reap { card_id: a }).unwrap_err(),
        "Creature cannot reap now"
    );
    assert_eq!(
        dispatch_message(&mut g, 0, ClientMessage::Unstun { card_id: a }).unwrap_err(),
        "Creature is not stunned and ready"
    );
    assert_eq!(snapshot(&g), before);
    g.omega_triggered = true;
    let b = g.players[0].zones.draw().unwrap();
    assert_eq!(
        dispatch_message(&mut g, 0, ClientMessage::PlayCard { card_id: b, flank: Flank::Left }).unwrap_err(),
        "Card cannot be played now"
    );
}

#[test]
fn taunt_protects_a_creature_in_the_middle() {
    let mut g = game(vec![TROLL()], vec![creature("A", 3, vec![]), creature("B", 3, vec![]), creature("T", 3, vec![Keyword::Taunt])]);
    let a = g.players[0].zones.draw().unwrap();
    play_card(&mut g, a, Flank::Left);
    g.active_player = 1;
    let t = g.players[1].zones.draw().unwrap();
    let b = g.players[1].zones.draw().unwrap();
    let c = g.players[1].zones.draw().unwrap();
    play_card(&mut g, c, Flank::Right);
    play_card(&mut g, b, Flank::Right);
    play_card(&mut g, t, Flank::Right);
    // Line: A, B, T — B is in the middle and T has Taunt.
    g.active_player = 0;
    assert_eq!(
        dispatch_message(&mut g, 0, ClientMessage::Attack { attacker_id: a, defender_id: b }).unwrap_err(),
        "A creature with Taunt protects the defender"
    );
    assert!(dispatch_message(&mut g, 0, ClientMessage::Attack { attacker_id: a, defender_id: c }).is_ok());
}

#[test]
fn end_turn_refills_from_deck_and_discard_up_to_what_is_left() {
    // Two cards in the deck and one in the discard pile: the hand ends with all three.
    let mut g = game(vec![TROLL(), TROLL(), TROLL()], vec![TROLL()]);
    let id = g.players[0].zones.draw().unwrap();
    g.players[0].zones.hand.retain(|&c| c != id);
    g.players[0].zones.discard.push(id);
    end_turn(&mut g);
    assert_eq!(g.players[0].zones.hand.len(), 3);
    assert!(g.players[0].zones.deck.is_empty());
    assert!(g.players[0].zones.discard.is_empty());
}

#[test]
fn end_turn_keeps_a_hand_above_the_limit() {
    // Seven cards in hand and seven chains: the limit is four, nothing is drawn or lost.
    let mut g = game((0..9).map(|_| TROLL()).collect(), vec![TROLL()]);
    for _ in 0..7 {
        g.players[0].zones.draw();
    }
    g.players[0].player.chains = 7;
    end_turn(&mut g);
    assert_eq!(g.players[0].zones.hand.len(), 7);
    assert_eq!(g.players[0].zones.deck.len(), 2);
}

#[test]
fn dispatcher_checks_the_attackers_place_first() {
    let mut g = game(vec![TROLL()], vec![TROLL()]);
    let mine = g.players[0].zones.draw().unwrap();
    let theirs = g.players[1].zones.draw().unwrap();
    // Neither creature is in play: the attacker's place is reported.
    let r = dispatch_message(&mut g, 0, ClientMessage::Attack { attacker_id: mine, defender_id: theirs });
    assert_eq!(r, Err("Attacker not on your battleline".to_string()));
    play_card(&mut g, mine, Flank::Left);
    let r = dispatch_message(&mut g, 0, ClientMessage::Attack { attacker_id: mine, defender_id: theirs });
    assert_eq!(r, Err("Defender not on opponent battleline".to_string()));
    let r = dispatch_message(&mut g, 0, ClientMessage::Unstun { card_id: theirs });
    assert_eq!(r, Err("Creature not on your battleline".to_string()));
}

#[test]
fn card_definitions_carry_traits_and_text() {
    let v = VEZYMA_THINKDRONE();
    assert_eq!(v.traits, vec!["Human".to_string(), "Scientist".to_string()]);
    assert_eq!(v.text, "Poison. Reap: Draw a card.");
    assert!(PLAGUE().traits.is_empty());
    assert_eq!(TROLL().traits, vec!["Giant".to_string()]);
}

#[test]
fn a_fight_exhausts_the_attacker_and_counts_one_use() {
    let mut g = game(vec![TROLL()], vec![VEZYMA_THINKDRONE()]);
    let att = g.players[0].zones.draw().unwrap();
    let def = g.players[1].zones.draw().unwrap();
    play_card(&mut g, att, Flank::Left);
    g.active_player = 1;
    play_card(&mut g, def, Flank::Left);
    g.active_player = 0;
    let used = g.cards_used_this_turn;
    keyforge::game::attack(&mut g, att, def);
    assert!(g.cards[&att].exhausted);
    assert_eq!(g.cards_used_this_turn, used + 1);
    assert_eq!(g.card_use_counts.get("Troll"), Some(&2));
    assert_eq!(g.card_use_counts.get("Vezyma Thinkdrone"), Some(&1));
    assert_eq!(g.active_player, 0);
    assert_eq!(g.turn, 1);
}

#[test]
fn played_cards_land_where_the_rules_put_them() {
    let omega = creature("Closer", 2, vec![Keyword::Omega, Keyword::Exalt]);
    let mut g = game(vec![BANNER_OF_BATTLE(), TROLL(), omega], vec![TROLL()]);
    let o = g.players[0].zones.draw().unwrap();
    let t = g.players[0].zones.draw().unwrap();
    let b = g.players[0].zones.draw().unwrap();
    play_card(&mut g, b, Flank::Left);
    assert_eq!(g.players[0].zones.artifacts.last(), Some(&b));
    play_card(&mut g, t, Flank::Right);
    assert_eq!(g.players[0].zones.battleline.creature_ids().last(), Some(&t));
    assert!(!g.omega_triggered);
    play_card(&mut g, o, Flank::Left);
    assert_eq!(g.players[0].zones.battleline.creature_ids()[0], o);
    assert!(g.omega_triggered);
    assert_eq!(g.cards[&o].aember, 1);
    assert!(g.players[0].zones.hand.is_empty());
    assert_eq!(g.cards_used_this_turn, 3);
}
