//! The card definitions of the three playable houses.
#![allow(non_snake_case)]

use vstd::prelude::*;

use crate::card::{BonusIcon, CardDef, CardType, Effect, House, Keyword, Rarity};

verus! {

/// A card definition with the given name, type, house, power, armor, keywords, bonus icons
/// and rarity.
pub open spec fn def_is(
    d: CardDef,
    name: Seq<char>,
    card_type: CardType,
    house: House,
    power: Option<u32>,
    armor: Option<u32>,
    keywords: Seq<Keyword>,
    bonus_icons: Seq<BonusIcon>,
    rarity: Rarity,
) -> bool {
    &&& d.name@ == name
    &&& d.card_type == card_type
    &&& d.house == house
    &&& d.power == power
    &&& d.armor == armor
    &&& d.keywords@ == keywords
    &&& d.bonus_icons@ == bonus_icons
    &&& d.rarity == rarity
}

/// A definition with the given traits, in order, and the given rules text.
pub open spec fn printed(d: CardDef, traits: Seq<Seq<char>>, text: Seq<char>) -> bool {
    &&& d.traits@.len() == traits.len()
    &&& forall|i: int| 0 <= i < traits.len() ==> #[trigger] d.traits@[i]@ == traits[i]
    &&& d.text@ == text
}

/// A definition with no triggered effects.
pub open spec fn no_effects(d: CardDef) -> bool {
    &&& d.on_reap@.len() == 0
    &&& d.on_fight@.len() == 0
    &&& d.on_play@.len() == 0
    &&& d.on_destroyed@.len() == 0
}

// --- Brobnar ---

pub fn TROLL() -> (d: CardDef)
    ensures
        def_is(d, "Troll"@, CardType::Creature, House::Brobnar, Some(5), Some(1),
            seq![Keyword::Taunt], seq![BonusIcon::Aember], Rarity::Common),
        no_effects(d),
        printed(d, seq!["Giant"@], "Taunt."@),
{
    let d = CardDef {
        name: "Troll".to_owned(),
        card_type: CardType::Creature,
        house: House::Brobnar,
        power: Some(5),
        armor: Some(1),
        keywords: vec![Keyword::Taunt],
        bonus_icons: vec![BonusIcon::Aember],
        traits: vec!["Giant".to_owned()],
        rarity: Rarity::Common,
        on_reap: vec![],
        on_fight: vec![],
        on_play: vec![],
        on_destroyed: vec![],
        text: "Taunt.".to_owned(),
    };
    proof {
        assert(d.keywords@ =~= seq![Keyword::Taunt]);
        assert(d.bonus_icons@ =~= seq![BonusIcon::Aember]);
    }
    d
}

pub fn BANNER_OF_BATTLE() -> (d: CardDef)
    ensures
        def_is(d, "Banner of Battle"@, CardType::Artifact, House::Brobnar, None, None,
            seq![], seq![], Rarity::Uncommon),
        no_effects(d),
        printed(d, seq!["Item"@], ""@),
{
    let d = CardDef {
        name: "Banner of Battle".to_owned(),
        card_type: CardType::Artifact,
        house: House::Brobnar,
        power: None,
        armor: None,
        keywords: vec![],
        bonus_icons: vec![],
        traits: vec!["Item".to_owned()],
        rarity: Rarity::Uncommon,
        on_reap: vec![],
        on_fight: vec![],
        on_play: vec![],
        on_destroyed: vec![],
        text: "".to_owned(),
    };
    d
}

pub fn SMAAASH() -> (d: CardDef)
    ensures
        def_is(d, "Smaaash"@, CardType::Creature, House::Brobnar, Some(3), None,
            seq![Keyword::Assault(2)], seq![BonusIcon::Damage], Rarity::Rare),
        no_effects(d),
        printed(d, seq!["Goblin"@], "Assault 2."@),
{
    let d = CardDef {
        name: "Smaaash".to_owned(),
        card_type: CardType::Creature,
        house: House::Brobnar,
        power: Some(3),
        armor: None,
        keywords: vec![Keyword::Assault(2)],
        bonus_icons: vec![BonusIcon::Damage],
        traits: vec!["Goblin".to_owned()],
        rarity: Rarity::Rare,
        on_reap: vec![],
        on_fight: vec![],
        on_play: vec![],
        on_destroyed: vec![],
        text: "Assault 2.".to_owned(),
    };
    proof {
        assert(d.keywords@ =~= seq![Keyword::Assault(2)]);
        assert(d.bonus_icons@ =~= seq![BonusIcon::Damage]);
    }
    d
}

// --- Dis ---

pub fn VEZYMA_THINKDRONE() -> (d: CardDef)
    ensures
        def_is(d, "Vezyma Thinkdrone"@, CardType::Creature, House::Dis, Some(1), None,
            seq![Keyword::Poison], seq![BonusIcon::Aember], Rarity::Common),
        d.on_reap@ == seq![Effect::DrawCards(1)],
        d.on_fight@.len() == 0,
        d.on_play@.len() == 0,
        d.on_destroyed@.len() == 0,
        printed(d, seq!["Human"@, "Scientist"@], "Poison. Reap: Draw a card."@),
{
    let d = CardDef {
        name: "Vezyma Thinkdrone".to_owned(),
        card_type: CardType::Creature,
        house: House::Dis,
        power: Some(1),
        armor: None,
        keywords: vec![Keyword::Poison],
        bonus_icons: vec![BonusIcon::Aember],
        traits: vec!["Human".to_owned(), "Scientist".to_owned()],
        rarity: Rarity::Common,
        on_reap: vec![Effect::DrawCards(1)],
        on_fight: vec![],
        on_play: vec![],
        on_destroyed: vec![],
        text: "Poison. Reap: Draw a card.".to_owned(),
    };
    proof {
        assert(d.keywords@ =~= seq![Keyword::Poison]);
        assert(d.bonus_icons@ =~= seq![BonusIcon::Aember]);
        assert(d.on_reap@ =~= seq![Effect::DrawCards(1)]);
    }
    d
}

pub fn PLAGUE() -> (d: CardDef)
    ensures
        def_is(d, "Plague"@, CardType::Action, House::Dis, None, None,
            seq![], seq![BonusIcon::Aember], Rarity::Uncommon),
        d.on_play@ == seq![Effect::DealDamageToEachEnemy(1)],
        d.on_reap@.len() == 0,
        d.on_fight@.len() == 0,
        d.on_destroyed@.len() == 0,
        printed(d, Seq::<Seq<char>>::empty(), "Play: Deal 1 damage to each enemy creature."@),
{
    let d = CardDef {
        name: "Plague".to_owned(),
        card_type: CardType::Action,
        house: House::Dis,
        power: None,
        armor: None,
        keywords: vec![],
        bonus_icons: vec![BonusIcon::Aember],
        traits: vec![],
        rarity: Rarity::Uncommon,
        on_reap: vec![],
        on_fight: vec![],
        on_play: vec![Effect::DealDamageToEachEnemy(1)],
        on_destroyed: vec![],
        text: "Play: Deal 1 damage to each enemy creature.".to_owned(),
    };
    proof {
        assert(d.bonus_icons@ =~= seq![BonusIcon::Aember]);
        assert(d.on_play@ =~= seq![Effect::DealDamageToEachEnemy(1)]);
    }
    d
}

// --- Shadows ---

pub fn SILVERTOOTH() -> (d: CardDef)
    ensures
        def_is(d, "Silvertooth"@, CardType::Creature, House::Shadows, Some(2), None,
            seq![Keyword::Skirmish, Keyword::Steal], seq![], Rarity::Common),
        no_effects(d),
        printed(d, seq!["Thief"@], "Skirmish. Steal."@),
{
    let d = CardDef {
        name: "Silvertooth".to_owned(),
        card_type: CardType::Creature,
        house: House::Shadows,
        power: Some(2),
        armor: None,
        keywords: vec![Keyword::Skirmish, Keyword::Steal],
        bonus_icons: vec![],
        traits: vec!["Thief".to_owned()],
        rarity: Rarity::Common,
        on_reap: vec![],
        on_fight: vec![],
        on_play: vec![],
        on_destroyed: vec![],
        text: "Skirmish. Steal.".to_owned(),
    };
    proof {
        assert(d.keywords@ =~= seq![Keyword::Skirmish, Keyword::Steal]);
    }
    d
}

pub fn SHADOW_SELF() -> (d: CardDef)
    ensures
        def_is(d, "Shadow Self"@, CardType::Upgrade, House::Shadows, None, None,
            seq![Keyword::Elusive], seq![], Rarity::Rare),
        no_effects(d),
        printed(d, Seq::<Seq<char>>::empty(), "Elusive."@),
{
    let d = CardDef {
        name: "Shadow Self".to_owned(),
        card_type: CardType::Upgrade,
        house: House::Shadows,
        power: None,
        armor: None,
        keywords: vec![Keyword::Elusive],
        bonus_icons: vec![],
        traits: vec![],
        rarity: Rarity::Rare,
        on_reap: vec![],
        on_fight: vec![],
        on_play: vec![],
        on_destroyed: vec![],
        text: "Elusive.".to_owned(),
    };
    proof {
        assert(d.keywords@ =~= seq![Keyword::Elusive]);
    }
    d
}

} // verus!
