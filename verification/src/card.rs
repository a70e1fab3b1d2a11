use vstd::prelude::*;

verus! {

pub type CardId = u32;

#[derive(Clone, Copy, PartialEq, Eq, Hash, Debug, Structural)]
pub enum House {
    Brobnar,
    Dis,
    Ekwidon,
    Geistoid,
    Logos,
    Mars,
    Redemption,
    Sanctum,
    Saurian,
    Shadows,
    Skyborn,
    StarAlliance,
    Unfathomable,
    Untamed,
}

#[derive(Clone, Copy, PartialEq, Eq, Debug, Structural)]
pub enum CardType {
    Creature,
    Action,
    Artifact,
    Upgrade,
}

#[derive(Clone, Copy, PartialEq, Eq, Debug, Structural)]
pub enum Rarity {
    Common,
    Uncommon,
    Rare,
    Special,
    TokenCreature,
}

#[derive(Clone, Copy, PartialEq, Eq, Debug, Structural)]
pub enum BonusIcon {
    Aember,
    Capture,
    Damage,
    Draw,
    Discard,
}

#[derive(Clone, Copy, PartialEq, Eq, Debug, Structural)]
pub enum Keyword {
    Alpha,
    Assault(u32),
    Capture,
    Deploy,
    Elusive,
    Exalt,
    Hazardous(u32),
    Invulnerable,
    Omega,
    Poison,
    Skirmish,
    SplashAttack(u32),
    Steal,
    Taunt,
    Treachery,
    Versatile,
}

/// Triggered ability effects applied when the associated trigger fires.
#[derive(Clone, Copy, PartialEq, Eq, Debug, Structural)]
pub enum Effect {
    /// Controller gains N Aember.
    GainAember(u32),
    /// Steal N Aember from opponent into controller's pool.
    StealAember(u32),
    /// Capture N Aember from opponent onto this creature.
    CaptureAember(u32),
    /// Controller draws N cards.
    DrawCards(u32),
    /// Deal N damage to each enemy creature.
    DealDamageToEachEnemy(u32),
    /// Heal N damage from this creature.
    HealSelf(u32),
}

/// Template for a card — shared by all instances of the same card.
pub struct CardDef {
    pub name: String,
    pub card_type: CardType,
    pub house: House,
    pub power: Option<u32>,
    pub armor: Option<u32>,
    pub keywords: Vec<Keyword>,
    pub bonus_icons: Vec<BonusIcon>,
    pub traits: Vec<String>,
    pub rarity: Rarity,
    /// Effects that fire when this card reaps.
    pub on_reap: Vec<Effect>,
    /// Effects that fire when this card fights.
    pub on_fight: Vec<Effect>,
    /// Effects that fire when this card is played.
    pub on_play: Vec<Effect>,
    /// Effects that fire when this card is destroyed.
    pub on_destroyed: Vec<Effect>,
    /// Human-readable card text (rules text printed on the card).
    pub text: String,
}

/// A specific card in a game, with mutable state.
pub struct Card {
    pub id: CardId,
    pub def: CardDef,
    pub exhausted: bool,
    pub damage: u32,
    pub aember: u32,
    pub upgrades: Vec<CardId>,
    pub stun: bool,
    pub ward: bool,
    pub enrage: bool,
    pub power_counters: i32,
    pub armor_used_this_turn: u32,
    pub armor_bonus: u32,
    pub extra_houses: Vec<House>,
    /// Elusive: true once the first attack this turn has been absorbed.
    pub elusive_used_this_turn: bool,
}

/// Printed power as the signed value the power computation starts from.
pub open spec fn base_power(d: CardDef) -> i32 {
    match d.power {
        Some(p) => p as i32,
        None => 0,
    }
}

/// Printed armor (0 when the card has none).
pub open spec fn base_armor(d: CardDef) -> u32 {
    match d.armor {
        Some(a) => a,
        None => 0,
    }
}

/// Printed power plus power counters, before clamping at 0.
pub open spec fn raw_power(c: Card) -> int {
    base_power(c.def) + c.power_counters
}

/// The power computation does not overflow a 32-bit signed integer.
pub open spec fn power_fits(c: Card) -> bool {
    i32::MIN <= raw_power(c) <= i32::MAX
}

/// Effective power: printed power plus counters, at least 0.
pub open spec fn card_power(c: Card) -> u32 {
    if raw_power(c) < 0 { 0 } else { raw_power(c) as u32 }
}

/// Printed armor plus gained armor.
pub open spec fn armor_total(c: Card) -> int {
    base_armor(c.def) + c.armor_bonus
}

/// The armor sum fits in a u32.
pub open spec fn armor_fits(c: Card) -> bool {
    armor_total(c) <= u32::MAX
}

/// Armor not yet used up this turn.
pub open spec fn armor_left(c: Card) -> int {
    if armor_total(c) > c.armor_used_this_turn { armor_total(c) - c.armor_used_this_turn } else { 0 }
}

/// The card carries the keyword (exactly, payload included).
pub open spec fn card_has_keyword(c: Card, kw: Keyword) -> bool {
    c.def.keywords@.contains(kw)
}

/// A creature whose damage has reached its power (a creature with 0 power is destroyed).
pub open spec fn card_is_destroyed(c: Card) -> bool {
    c.damage >= card_power(c)
}

/// Amount of a hit that the remaining armor absorbs.
pub open spec fn absorbed(c: Card, amount: u32) -> int {
    if armor_left(c) < amount { armor_left(c) } else { amount as int }
}

/// The computations of `deal_damage` stay within u32 (and the armor sum fits).
pub open spec fn damage_fits(c: Card, amount: u32) -> bool {
    card_has_keyword(c, Keyword::Invulnerable) || c.ward || (armor_fits(c) && c.damage
        + amount - absorbed(c, amount) <= u32::MAX)
}

/// The card after receiving `amount` pending damage: invulnerable cards are unaffected,
/// a ward is consumed instead of taking damage, otherwise remaining armor absorbs first.
pub open spec fn after_damage(c: Card, amount: u32) -> Card {
    if card_has_keyword(c, Keyword::Invulnerable) {
        c
    } else if c.ward {
        Card { ward: false, ..c }
    } else {
        Card {
            armor_used_this_turn: (c.armor_used_this_turn + absorbed(c, amount)) as u32,
            damage: (c.damage + amount - absorbed(c, amount)) as u32,
            ..c
        }
    }
}

/// The card after healing `amount` damage (never below 0).
pub open spec fn after_heal(c: Card, amount: u32) -> Card {
    Card { damage: if c.damage > amount { (c.damage - amount) as u32 } else { 0 }, ..c }
}

/// The card after per-turn state is reset.
pub open spec fn after_reset_turn(c: Card) -> Card {
    Card { armor_used_this_turn: 0, elusive_used_this_turn: false, ..c }
}

/// A newly created card instance: ready, undamaged, no tokens, no upgrades.
pub open spec fn is_fresh_card(c: Card, id: CardId, def: CardDef) -> bool {
    &&& c.id == id
    &&& c.def == def
    &&& !c.exhausted
    &&& c.damage == 0
    &&& c.aember == 0
    &&& c.upgrades@ == Seq::<CardId>::empty()
    &&& !c.stun
    &&& !c.ward
    &&& !c.enrage
    &&& c.power_counters == 0
    &&& c.armor_used_this_turn == 0
    &&& c.armor_bonus == 0
    &&& c.extra_houses@ == Seq::<House>::empty()
    &&& !c.elusive_used_this_turn
}

/// Whether a keyword list contains the given keyword.
pub fn keywords_contain(keywords: &Vec<Keyword>, kw: Keyword) -> (b: bool)
    ensures
        b == keywords@.contains(kw),
{
    let mut i: usize = 0;
    while i < keywords.len()
        invariant
            0 <= i <= keywords@.len(),
            forall|j: int| 0 <= j < i ==> keywords@[j] != kw,
        decreases keywords@.len() - i,
    {
        if keywords[i] == kw {
            return true;
        }
        i = i + 1;
    }
    false
}

impl Card {
    pub fn new(id: CardId, def: CardDef) -> (c: Self)
        ensures
            is_fresh_card(c, id, def),
    {
        Self {
            id,
            def,
            exhausted: false,
            damage: 0,
            aember: 0,
            upgrades: Vec::new(),
            stun: false,
            ward: false,
            enrage: false,
            power_counters: 0,
            armor_used_this_turn: 0,
            armor_bonus: 0,
            extra_houses: Vec::new(),
            elusive_used_this_turn: false,
        }
    }

    /// Effective power = base + power_counters. Minimum 0.
    pub fn power(&self) -> (p: u32)
        requires
            power_fits(*self),
        ensures
            p == card_power(*self),
    {
        let base: i32 = match self.def.power {
            Some(p) => p as i32,
            None => 0,
        };
        let s: i32 = base + self.power_counters;
        if s < 0 {
            0
        } else {
            s as u32
        }
    }

    /// Effective armor = base + gained armor.
    pub fn armor(&self) -> (a: u32)
        requires
            armor_fits(*self),
        ensures
            a == armor_total(*self),
    {
        let base: u32 = match self.def.armor {
            Some(a) => a,
            None => 0,
        };
        base + self.armor_bonus
    }

    /// Remaining armor this turn (armor - armor_used_this_turn).
    pub fn remaining_armor(&self) -> (a: u32)
        requires
            armor_fits(*self),
        ensures
            a == armor_left(*self),
    {
        let total = self.armor();
        if total > self.armor_used_this_turn {
            total - self.armor_used_this_turn
        } else {
            0
        }
    }

    /// True if damage >= power (should be destroyed).
    pub fn is_destroyed(&self) -> (b: bool)
        requires
            power_fits(*self),
        ensures
            b == card_is_destroyed(*self),
    {
        self.damage >= self.power()
    }

    /// Apply pending damage after invulnerability, ward, and armor reduction.
    pub fn deal_damage(&mut self, amount: u32)
        requires
            damage_fits(*old(self), amount),
        ensures
            *final(self) == after_damage(*old(self), amount),
    {
        if self.has_keyword(Keyword::Invulnerable) {
            return;
        }
        if self.ward {
            self.ward = false;
            return;
        }
        let left = self.remaining_armor();
        let absorbed = if left < amount { left } else { amount };
        self.armor_used_this_turn = self.armor_used_this_turn + absorbed;
        self.damage = self.damage + (amount - absorbed);
    }

    /// Remove damage. Cannot go below 0.
    pub fn heal(&mut self, amount: u32)
        ensures
            *final(self) == after_heal(*old(self), amount),
    {
        self.damage = if self.damage > amount { self.damage - amount } else { 0 };
    }

    /// Remove all damage.
    pub fn full_heal(&mut self)
        ensures
            *final(self) == (Card { damage: 0, ..*old(self) }),
    {
        self.damage = 0;
    }

    /// Reset per-turn state (armor usage, elusive).
    pub fn reset_turn(&mut self)
        ensures
            *final(self) == after_reset_turn(*old(self)),
    {
        self.armor_used_this_turn = 0;
        self.elusive_used_this_turn = false;
    }

    /// True if this card has the given keyword.
    pub fn has_keyword(&self, kw: Keyword) -> (b: bool)
        ensures
            b == card_has_keyword(*self, kw),
    {
        keywords_contain(&self.def.keywords, kw)
    }

    /// True if this card belongs to the given house (including bonus house icons).
    pub fn belongs_to_house(&self, house: House) -> (b: bool)
        ensures
            b == (self.def.house == house || self.extra_houses@.contains(house)),
    {
        if self.def.house == house {
            return true;
        }
        let mut i: usize = 0;
        while i < self.extra_houses.len()
            invariant
                0 <= i <= self.extra_houses@.len(),
                self.def.house != house,
                forall|j: int| 0 <= j < i ==> self.extra_houses@[j] != house,
            decreases self.extra_houses@.len() - i,
        {
            if self.extra_houses[i] == house {
                return true;
            }
            i = i + 1;
        }
        false
    }
}

} // verus!

verus! {

/// An Invulnerable creature cannot be dealt damage.
pub proof fn law_invulnerable_takes_no_damage(c: Card, amount: u32)
    requires
        card_has_keyword(c, Keyword::Invulnerable),
    ensures
        after_damage(c, amount) == c,
{
}

/// A ward prevents the next damage entirely and is used up by it.
pub proof fn law_ward_absorbs_one_hit(c: Card, amount: u32)
    requires
        !card_has_keyword(c, Keyword::Invulnerable),
        c.ward,
    ensures
        after_damage(c, amount).damage == c.damage,
        !after_damage(c, amount).ward,
        after_damage(c, amount).armor_used_this_turn == c.armor_used_this_turn,
{
}

/// Damage never goes down when a card is dealt damage, and goes up by the amount less
/// what the armor left this turn absorbs.
pub proof fn law_damage_grows_by_unabsorbed(c: Card, amount: u32)
    requires
        damage_fits(c, amount),
        !card_has_keyword(c, Keyword::Invulnerable),
        !c.ward,
    ensures
        after_damage(c, amount).damage == c.damage + amount - absorbed(c, amount),
        0 <= absorbed(c, amount) <= amount,
        absorbed(c, amount) <= armor_left(c),
        after_damage(c, amount).damage >= c.damage,
{
}

/// Armor prevents at most its value in damage per turn: two hits in the same turn do
/// the same damage and use the same armor as one hit of their sum.
pub proof fn law_armor_is_per_turn(c: Card, a: u32, b: u32)
    requires
        !card_has_keyword(c, Keyword::Invulnerable),
        !c.ward,
        armor_fits(c),
        c.armor_used_this_turn <= armor_total(c),
        a + b <= u32::MAX,
        c.damage + a + b <= u32::MAX,
    ensures
        after_damage(after_damage(c, a), b).damage == after_damage(c, (a + b) as u32).damage,
        after_damage(after_damage(c, a), b).armor_used_this_turn == after_damage(
            c,
            (a + b) as u32,
        ).armor_used_this_turn,
        after_damage(c, (a + b) as u32).armor_used_this_turn <= armor_total(c),
{
}

/// Resetting the turn gives back the full armor (and the Elusive shield).
pub proof fn law_reset_restores_armor(c: Card)
    ensures
        armor_left(after_reset_turn(c)) == armor_total(c),
        !after_reset_turn(c).elusive_used_this_turn,
        after_reset_turn(c).damage == c.damage,
{
}

/// Healing never raises damage and never takes it below zero; healing at least the
/// damage removes all of it.
pub proof fn law_heal_bounds(c: Card, amount: u32)
    ensures
        after_heal(c, amount).damage <= c.damage,
        after_heal(c, amount).damage == if c.damage > amount { c.damage - amount } else { 0 },
        amount >= c.damage ==> after_heal(c, amount).damage == 0,
{
}

} // verus!
