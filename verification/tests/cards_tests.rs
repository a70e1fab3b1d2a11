use keyforge::card::{BonusIcon, CardType, Effect, House, Keyword, Rarity};
use keyforge::cards::{BANNER_OF_BATTLE, PLAGUE, SHADOW_SELF, SILVERTOOTH, SMAAASH, TROLL, VEZYMA_THINKDRONE};

#[test]
fn troll_definition() {
    let d = TROLL();
    assert_eq!(d.name, "Troll");
    assert_eq!(d.card_type, CardType::Creature);
    assert_eq!(d.house, House::Brobnar);
    assert_eq!(d.power, Some(5));
    assert_eq!(d.armor, Some(1));
    assert_eq!(d.keywords, vec![Keyword::Taunt]);
    assert_eq!(d.bonus_icons, vec![BonusIcon::Aember]);
    assert_eq!(d.traits, vec!["Giant".to_string()]);
    assert_eq!(d.rarity, Rarity::Common);
}

#[test]
fn house_and_type_of_every_card() {
    let defs = [BANNER_OF_BATTLE(), SMAAASH(), VEZYMA_THINKDRONE(), PLAGUE(), SILVERTOOTH(), SHADOW_SELF()];
    let expected = [
        (House::Brobnar, CardType::Artifact),
        (House::Brobnar, CardType::Creature),
        (House::Dis, CardType::Creature),
        (House::Dis, CardType::Action),
        (House::Shadows, CardType::Creature),
        (House::Shadows, CardType::Upgrade),
    ];
    for (d, (h, t)) in defs.iter().zip(expected.iter()) {
        assert_eq!(d.house, *h);
        assert_eq!(d.card_type, *t);
    }
}

#[test]
fn triggered_effects() {
    assert_eq!(VEZYMA_THINKDRONE().on_reap, vec![Effect::DrawCards(1)]);
    assert_eq!(PLAGUE().on_play, vec![Effect::DealDamageToEachEnemy(1)]);
    assert!(TROLL().on_reap.is_empty());
    assert_eq!(SMAAASH().keywords, vec![Keyword::Assault(2)]);
    assert_eq!(SILVERTOOTH().keywords, vec![Keyword::Skirmish, Keyword::Steal]);
}
