use keyforge::card::{Card, CardDef, CardType, House, Keyword, Rarity};

fn creature_def() -> CardDef {
    CardDef {
        name: "Test Creature".to_string(),
        card_type: CardType::Creature,
        house: House::Brobnar,
        power: Some(4),
        armor: Some(2),
        keywords: vec![],
        bonus_icons: vec![],
        traits: vec![],
        rarity: Rarity::Common,
        on_reap: vec![],
        on_fight: vec![],
        on_play: vec![],
        on_destroyed: vec![],
        text: "Reap: Gain 1 aember.".to_string(),
    }
}

fn no_armor_def() -> CardDef {
    CardDef {
        name: "Fragile".to_string(),
        card_type: CardType::Creature,
        house: House::Dis,
        power: Some(3),
        armor: None,
        keywords: vec![],
        bonus_icons: vec![],
        traits: vec![],
        rarity: Rarity::Common,
        on_reap: vec![],
        on_fight: vec![],
        on_play: vec![],
        on_destroyed: vec![],
        text: "Fight: Deal 1 damage to a friendly creature.".to_string(),
    }
}

fn keyword_def() -> CardDef {
    CardDef {
        name: "Assaulter".to_string(),
        card_type: CardType::Creature,
        house: House::Logos,
        power: Some(2),
        armor: None,
        keywords: vec![Keyword::Assault(3), Keyword::Skirmish],
        bonus_icons: vec![],
        traits: vec![],
        rarity: Rarity::Common,
        on_reap: vec![],
        on_fight: vec![],
        on_play: vec![],
        on_destroyed: vec![],
        text: "Assault 3. Skirmish.".to_string(),
    }
}

#[test]
fn test_card_new() {
    let c = Card::new(1, creature_def());
    assert!(!c.exhausted);
    assert_eq!(c.damage, 0);
    assert_eq!(c.aember, 0);
    assert!(c.upgrades.is_empty());
    assert!(!c.stun);
    assert!(!c.ward);
    assert!(!c.elusive_used_this_turn);
}

#[test]
fn test_power_with_counters() {
    let mut c = Card::new(1, creature_def());
    assert_eq!(c.power(), 4);
    c.power_counters = 2;
    assert_eq!(c.power(), 6);
    c.power_counters = -10;
    assert_eq!(c.power(), 0); // min 0
}

#[test]
fn test_armor_prevents_damage() {
    let mut c = Card::new(1, creature_def()); // armor 2
    c.deal_damage(5);
    assert_eq!(c.damage, 3); // 5 - 2 absorbed
}

#[test]
fn test_armor_resets_each_turn() {
    let mut c = Card::new(1, creature_def()); // armor 2
    c.deal_damage(2); // uses all armor
    assert_eq!(c.damage, 0);
    c.reset_turn();
    c.deal_damage(2); // armor restored
    assert_eq!(c.damage, 0);
}

#[test]
fn test_armor_stacks() {
    let mut c = Card::new(1, no_armor_def()); // base armor 0
    c.armor_bonus = 3;
    assert_eq!(c.armor(), 3);
    c.deal_damage(1);
    assert_eq!(c.damage, 0); // absorbed by bonus armor
}

#[test]
fn test_deal_damage() {
    let mut c = Card::new(1, no_armor_def()); // no armor
    c.deal_damage(2);
    assert_eq!(c.damage, 2);
}

#[test]
fn test_is_destroyed() {
    let mut c = Card::new(1, no_armor_def()); // power 3
    c.damage = 2;
    assert!(!c.is_destroyed());
    c.damage = 3;
    assert!(c.is_destroyed());
}

#[test]
fn test_heal() {
    let mut c = Card::new(1, no_armor_def());
    c.damage = 5;
    c.heal(3);
    assert_eq!(c.damage, 2);
    c.heal(100);
    assert_eq!(c.damage, 0); // cannot go below 0
}

#[test]
fn test_full_heal() {
    let mut c = Card::new(1, no_armor_def());
    c.damage = 10;
    c.full_heal();
    assert_eq!(c.damage, 0);
}

#[test]
fn test_has_keyword() {
    let c = Card::new(1, keyword_def());
    assert!(c.has_keyword(Keyword::Skirmish));
    assert!(!c.has_keyword(Keyword::Poison));
}

#[test]
fn test_assault_value() {
    let c = Card::new(1, keyword_def());
    let value = c.def.keywords.iter().find_map(|kw| {
        if let Keyword::Assault(x) = kw { Some(*x) } else { None }
    });
    assert_eq!(value, Some(3));
}

#[test]
fn test_belongs_to_house() {
    let c = Card::new(1, creature_def()); // house Brobnar
    assert!(c.belongs_to_house(House::Brobnar));
    assert!(!c.belongs_to_house(House::Dis));
}

#[test]
fn test_belongs_to_bonus_house() {
    let mut c = Card::new(1, creature_def()); // house Brobnar
    c.extra_houses.push(House::Logos);
    assert!(c.belongs_to_house(House::Logos));
}

#[test]
fn test_ward_prevents_damage() {
    let mut c = Card::new(1, no_armor_def());
    c.ward = true;
    c.deal_damage(99);
    assert_eq!(c.damage, 0); // ward blocked
    assert!(!c.ward); // ward consumed
    c.deal_damage(1); // next hit lands
    assert_eq!(c.damage, 1);
}

#[test]
fn test_stun_state() {
    let mut c = Card::new(1, no_armor_def());
    assert!(!c.stun);
    c.stun = true;
    assert!(c.stun);
    c.stun = false;
    assert!(!c.stun);
}

#[test]
fn test_elusive_resets_each_turn() {
    let mut c = Card::new(1, no_armor_def());
    c.elusive_used_this_turn = true;
    c.reset_turn();
    assert!(!c.elusive_used_this_turn);
}

// ---- further cases ----

#[test]
fn invulnerable_card_takes_no_damage() {
    let mut d = no_armor_def();
    d.keywords = vec![Keyword::Invulnerable];
    let mut c = Card::new(1, d);
    c.deal_damage(7);
    assert_eq!(c.damage, 0);
    assert_eq!(c.armor_used_this_turn, 0);
}

#[test]
fn armor_is_shared_between_hits_of_a_turn() {
    let mut c = Card::new(1, creature_def()); // armor 2
    c.deal_damage(1);
    c.deal_damage(3);
    assert_eq!(c.damage, 2); // 1 + 1 absorbed, then 2 land
    assert_eq!(c.remaining_armor(), 0);
    let mut d = Card::new(2, creature_def());
    d.deal_damage(4);
    assert_eq!(d.damage, c.damage);
}

#[test]
fn zero_power_creature_is_destroyed() {
    let mut d = no_armor_def();
    d.power = Some(0);
    let c = Card::new(1, d);
    assert!(c.is_destroyed()); // damage 0 >= power 0
    let mut e = Card::new(2, no_armor_def()); // power 3
    e.power_counters = -5;
    assert!(e.is_destroyed());
}

#[test]
fn card_new_keeps_id_and_definition() {
    let c = Card::new(42, keyword_def());
    assert_eq!(c.id, 42);
    assert_eq!(c.def.name, "Assaulter");
    assert_eq!(c.power_counters, 0);
    assert_eq!(c.armor_bonus, 0);
    assert!(c.extra_houses.is_empty());
}
