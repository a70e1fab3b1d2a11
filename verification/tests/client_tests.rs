use keyforge::card::{CardType, House, Rarity};
use keyforge::client::{can_use_card, card_sub_view, forged_keys, ClientState};
use keyforge::protocol::{CardView, ClientGameView, ClientMessage, KeyView, PlayerView, ServerMessage};
use keyforge::victory::KeyColor;
use keyforge::zones::Flank;

fn card(id: u32, house: House, card_type: CardType) -> CardView {
    CardView {
        id,
        name: "Troll".to_string(),
        card_type,
        house,
        power: Some(5),
        armor: Some(1),
        keywords: vec![],
        bonus_icons: vec![],
        traits: vec![],
        rarity: Rarity::Common,
        on_reap: vec![],
        on_fight: vec![],
        on_play: vec![],
        on_destroyed: vec![],
        text: String::new(),
        exhausted: false,
        damage: 0,
        aember: 0,
        stun: false,
        ward: false,
        enrage: false,
        power_counters: 0,
        armor_bonus: 0,
    }
}

fn player() -> PlayerView {
    PlayerView {
        aember_pool: 0,
        keys: vec![
            KeyView { color: KeyColor::Red, forged: true },
            KeyView { color: KeyColor::Blue, forged: false },
            KeyView { color: KeyColor::Yellow, forged: true },
        ],
        chains: 0,
    }
}

fn view(active_house: Option<House>) -> ClientGameView {
    ClientGameView {
        my_index: 0,
        active_player: 0,
        active_house,
        turn: 1,
        my_player: player(),
        my_hand: vec![card(3, House::Brobnar, CardType::Creature)],
        my_battleline: vec![card(1, House::Brobnar, CardType::Creature)],
        my_artifacts: vec![],
        my_discard: vec![],
        my_archives: vec![],
        my_deck_count: 0,
        opp_player: player(),
        opp_hand_count: 0,
        opp_battleline: vec![card(2, House::Dis, CardType::Creature)],
        opp_artifacts: vec![],
        opp_discard: vec![],
        opp_archives_count: 0,
        opp_deck_count: 0,
    }
}

#[test]
fn sub_line_of_a_creature_and_of_other_cards() {
    let mut c = card(1, House::Brobnar, CardType::Creature);
    c.damage = 12;
    c.power_counters = 7;
    assert_eq!(card_sub_view(&c), "PWR:12 DMG:12");
    c.power_counters = -9;
    c.damage = 0;
    assert_eq!(card_sub_view(&c), "PWR:0 DMG:0");
    assert_eq!(card_sub_view(&card(1, House::Dis, CardType::Artifact)), "Artifact");
    assert_eq!(card_sub_view(&card(1, House::Dis, CardType::Action)), "Action");
    assert_eq!(card_sub_view(&card(1, House::Dis, CardType::Upgrade)), "Upgrade");
}

#[test]
fn cards_of_the_chosen_house_can_be_used() {
    let c = card(1, House::Brobnar, CardType::Creature);
    assert!(can_use_card(Some(House::Brobnar), &c));
    assert!(!can_use_card(Some(House::Dis), &c));
    assert!(!can_use_card(None, &c));
}

#[test]
fn forged_keys_are_counted() {
    assert_eq!(forged_keys(&player().keys), 2);
}

#[test]
fn messages_from_the_server_set_the_status() {
    let mut s = ClientState::new();
    assert_eq!(s.msg, "Connecting...");
    s.receive(ServerMessage::Welcome { player_index: 1 });
    assert_eq!(s.msg, "Connected as player 1. Waiting for game state...");
    s.receive(ServerMessage::GameState(view(None)));
    assert_eq!(s.msg, "Your turn. Choose a house.");
    assert!(s.is_my_turn());
    let mut v = view(None);
    v.active_player = 1;
    s.receive(ServerMessage::GameState(v));
    assert_eq!(s.msg, "Opponent's turn.");
    assert!(!s.is_my_turn());
    s.receive(ServerMessage::Error("Card not in hand".to_string()));
    assert_eq!(s.msg, "Error: Card not in hand");
    s.receive(ServerMessage::GameOver { winner: 0 });
    assert_eq!(s.game_over, Some(0));
}

#[test]
fn clicking_own_creature_selects_then_reaps() {
    let mut s = ClientState::new();
    s.receive(ServerMessage::GameState(view(None)));
    assert_eq!(s.click_own_creature(0), None);
    assert_eq!(s.msg, "Choose a house first.");
    s.receive(ServerMessage::GameState(view(Some(House::Dis))));
    assert_eq!(s.click_own_creature(0), None);
    assert_eq!(s.msg, "Troll is not a Brobnar card \u{2014} choose its house to use it.");
    s.receive(ServerMessage::GameState(view(Some(House::Brobnar))));
    assert_eq!(s.click_own_creature(0), None);
    assert_eq!(s.selected_creature, Some(1));
    assert_eq!(s.click_own_creature(0), Some(ClientMessage::Reap { card_id: 1 }));
    assert_eq!(s.selected_creature, None);
    assert_eq!(s.msg, "Reap sent.");
}

#[test]
fn clicking_an_enemy_with_a_creature_selected_attacks() {
    let mut s = ClientState::new();
    s.receive(ServerMessage::GameState(view(Some(House::Brobnar))));
    assert_eq!(s.click_enemy_creature(2, true), None);
    s.click_own_creature(0);
    assert_eq!(s.click_enemy_creature(2, false), None);
    assert_eq!(
        s.click_enemy_creature(2, true),
        Some(ClientMessage::Attack { attacker_id: 1, defender_id: 2 })
    );
    assert_eq!(s.msg, "Attack sent.");
}

#[test]
fn dropping_a_dragged_card() {
    let mut s = ClientState::new();
    s.click_hand_card(3);
    assert_eq!(s.release_drag(true, true, false, false), Some(ClientMessage::DiscardFromHand { card_id: 3 }));
    assert_eq!(s.drag_card, None);
    s.click_hand_card(3);
    assert_eq!(
        s.release_drag(false, false, true, false),
        Some(ClientMessage::PlayCard { card_id: 3, flank: Flank::Left })
    );
    s.click_hand_card(3);
    assert_eq!(
        s.release_drag(false, true, false, false),
        Some(ClientMessage::PlayCard { card_id: 3, flank: Flank::Right })
    );
    s.click_hand_card(3);
    assert_eq!(s.release_drag(false, false, false, false), None);
    assert_eq!(s.selected_hand, Some(3));
    assert_eq!(s.msg, "Card selected \u{2014} drop in a zone to play or discard.");
    assert_eq!(
        s.click_play_zone(Some(Flank::Right)),
        Some(ClientMessage::PlayCard { card_id: 3, flank: Flank::Right })
    );
    assert_eq!(s.selected_hand, None);
}

#[test]
fn house_and_end_turn_buttons() {
    let mut s = ClientState::new();
    assert_eq!(
        s.choose_house_click(House::Shadows),
        ClientMessage::ChooseHouse { house: House::Shadows, pick_up_archives: false }
    );
    assert_eq!(s.msg, "House Shadows chosen.");
    s.click_hand_card(3);
    assert_eq!(s.end_turn_click(), ClientMessage::EndTurn);
    assert_eq!(s.drag_card, None);
    assert_eq!(s.msg, "End turn sent.");
}
