//! The mathematical model of a game and of every rule step. Each step returns
//! `None` exactly when carrying it out would overflow a counter or reach for a card
//! that is not in the game; the executable operations are proved to follow these
//! functions.
use vstd::prelude::*;

use crate::card::{BonusIcon, Card, CardId, CardType, Effect, House, Keyword, after_damage, after_heal, after_reset_turn, armor_fits, card_has_keyword, card_is_destroyed, card_power, damage_fits, power_fits};
use crate::victory::{Key, initial_keys};
use crate::zones::{Flank, ZonesView, add_on_flank, left_flank_of, neighbors_of, remove_first, right_flank_of, without, zones_after_destroy, zones_after_draw};

verus! {

/// What one player owns apart from cards: Aember, keys, key-cost modifier and chains.
pub struct PlayerModel {
    pub aember_pool: u32,
    pub keys: Seq<Key>,
    pub key_cost_modifier: i32,
    pub chains: u32,
}

/// One side of the table: the player and their zones.
pub struct SideModel {
    pub player: PlayerModel,
    pub zones: ZonesView,
}

/// A whole game.
pub struct GameModel {
    pub sides: Seq<SideModel>,
    pub cards: Map<CardId, Card>,
    pub active_player: usize,
    pub active_house: Option<House>,
    pub turn: u32,
    pub first_player: usize,
    pub cards_used_this_turn: u32,
    pub use_counts: Map<Seq<char>, u32>,
    pub omega_triggered: bool,
}

/// The opponent of player `i` (for `i` in 0..2).
pub open spec fn other(i: usize) -> usize {
    (1 - i) as usize
}

pub open spec fn min_int(a: int, b: int) -> int {
    if a < b { a } else { b }
}

pub open spec fn pool(g: GameModel, i: usize) -> u32 {
    g.sides[i as int].player.aember_pool
}

pub open spec fn zones_of(g: GameModel, i: usize) -> ZonesView {
    g.sides[i as int].zones
}

pub open spec fn with_player(g: GameModel, i: usize, p: PlayerModel) -> GameModel {
    GameModel {
        sides: g.sides.update(i as int, SideModel { player: p, ..g.sides[i as int] }),
        ..g
    }
}

pub open spec fn with_pool(g: GameModel, i: usize, v: u32) -> GameModel {
    with_player(g, i, PlayerModel { aember_pool: v, ..g.sides[i as int].player })
}

pub open spec fn with_zones(g: GameModel, i: usize, z: ZonesView) -> GameModel {
    GameModel { sides: g.sides.update(i as int, SideModel { zones: z, ..g.sides[i as int] }), ..g }
}

pub open spec fn with_card(g: GameModel, id: CardId, c: Card) -> GameModel {
    GameModel { cards: g.cards.insert(id, c), ..g }
}

/// Player `i` gains `n` Aember (None when the pool would overflow).
pub open spec fn gain(g: GameModel, i: usize, n: int) -> Option<GameModel> {
    if pool(g, i) + n <= u32::MAX {
        Some(with_pool(g, i, (pool(g, i) + n) as u32))
    } else {
        None
    }
}

/// How often cards of this name were played or used this turn.
pub open spec fn uses_of(g: GameModel, name: Seq<char>) -> nat {
    if g.use_counts.contains_key(name) { g.use_counts[name] as nat } else { 0 }
}

/// Record one play or use of a card of this name (Rule of Six and cards used this turn).
pub open spec fn note_use(g: GameModel, name: Seq<char>) -> Option<GameModel> {
    if uses_of(g, name) + 1 <= u32::MAX && g.cards_used_this_turn + 1 <= u32::MAX {
        Some(
            GameModel {
                use_counts: g.use_counts.insert(name, (uses_of(g, name) + 1) as u32),
                cards_used_this_turn: (g.cards_used_this_turn + 1) as u32,
                ..g
            },
        )
    } else {
        None
    }
}

/// Card `id` gets `n` more Aember on it.
pub open spec fn add_card_aember(g: GameModel, id: CardId, n: int) -> Option<GameModel> {
    if g.cards.contains_key(id) && g.cards[id].aember + n <= u32::MAX {
        Some(with_card(g, id, Card { aember: (g.cards[id].aember + n) as u32, ..g.cards[id] }))
    } else {
        None
    }
}

/// Card `id` receives `n` pending damage.
pub open spec fn damage_card(g: GameModel, id: CardId, n: u32) -> Option<GameModel> {
    if g.cards.contains_key(id) && damage_fits(g.cards[id], n) {
        Some(with_card(g, id, after_damage(g.cards[id], n)))
    } else {
        None
    }
}

/// Player `i` draws `n` cards, one after the other.
pub open spec fn draw_n(z: ZonesView, n: nat) -> ZonesView
    decreases n,
{
    if n == 0 {
        z
    } else {
        zones_after_draw(draw_n(z, (n - 1) as nat)).0
    }
}

/// Whether an effect list deals damage to each enemy creature.
pub open spec fn has_mass_damage(effs: Seq<Effect>) -> bool {
    exists|i: int| 0 <= i < effs.len() && #[trigger] effs[i] is DealDamageToEachEnemy
}

/// One effect other than mass damage, applied on behalf of `ctl` with `card_id` as source.
pub open spec fn effect_basic(g: GameModel, card_id: CardId, ctl: usize, e: Effect) -> Option<
    GameModel,
> {
    let opp = other(ctl);
    match e {
        Effect::GainAember(n) => gain(g, ctl, n as int),
        Effect::StealAember(n) => {
            let s = min_int(n as int, pool(g, opp) as int);
            gain(with_pool(g, opp, (pool(g, opp) - s) as u32), ctl, s)
        },
        Effect::CaptureAember(n) => {
            let s = min_int(n as int, pool(g, opp) as int);
            add_card_aember(with_pool(g, opp, (pool(g, opp) - s) as u32), card_id, s)
        },
        Effect::DrawCards(n) => Some(with_zones(g, ctl, draw_n(zones_of(g, ctl), n as nat))),
        Effect::DealDamageToEachEnemy(_) => Some(g),
        Effect::HealSelf(n) => if g.cards.contains_key(card_id) {
            Some(with_card(g, card_id, after_heal(g.cards[card_id], n)))
        } else {
            None
        },
    }
}

/// A list of effects without mass damage, applied in order.
pub open spec fn effects_basic(g: GameModel, card_id: CardId, ctl: usize, effs: Seq<Effect>) -> Option<
    GameModel,
>
    decreases effs.len(),
{
    if effs.len() == 0 {
        Some(g)
    } else {
        match effects_basic(g, card_id, ctl, effs.drop_last()) {
            Some(g1) => effect_basic(g1, card_id, ctl, effs.last()),
            None => None,
        }
    }
}

/// The creatures of a battleline, in order, that are in the game, destroyed and not
/// invulnerable.
pub open spec fn dead_in(s: Seq<CardId>, cards: Map<CardId, Card>) -> Seq<CardId>
    decreases s.len(),
{
    if s.len() == 0 {
        s
    } else {
        let rest = dead_in(s.drop_last(), cards);
        let id = s.last();
        if cards.contains_key(id) && card_is_destroyed(cards[id]) && !card_has_keyword(
            cards[id],
            Keyword::Invulnerable,
        ) {
            rest.push(id)
        } else {
            rest
        }
    }
}

/// A destroyed creature of player `pi` leaves play: its Destroyed effects fire, the Aember
/// on it goes to the opponent, and it moves to the discard pile.
pub open spec fn destroy_one(g: GameModel, pi: usize, id: CardId) -> Option<GameModel> {
    match effects_basic(g, id, pi, g.cards[id].def.on_destroyed@) {
        None => None,
        Some(g1) => {
            let captured = g1.cards[id].aember;
            let g2 = if captured > 0 {
                match gain(g1, other(pi), captured as int) {
                    Some(g) => Some(with_card(g, id, Card { aember: 0, ..g1.cards[id] })),
                    None => None,
                }
            } else {
                Some(g1)
            };
            match g2 {
                Some(g3) => Some(with_zones(g3, pi, zones_after_destroy(zones_of(g3, pi), id))),
                None => None,
            }
        },
    }
}

pub open spec fn destroy_list(g: GameModel, pi: usize, ids: Seq<CardId>) -> Option<GameModel>
    decreases ids.len(),
{
    if ids.len() == 0 {
        Some(g)
    } else {
        match destroy_list(g, pi, ids.drop_last()) {
            Some(g1) => destroy_one(g1, pi, ids.last()),
            None => None,
        }
    }
}

/// Every destroyed creature leaves play: first player 0's, then player 1's.
pub open spec fn destroy_dead_model(g: GameModel) -> Option<GameModel> {
    match destroy_list(g, 0, dead_in(zones_of(g, 0).battleline, g.cards)) {
        Some(g1) => destroy_list(g1, 1, dead_in(zones_of(g1, 1).battleline, g1.cards)),
        None => None,
    }
}

/// Each listed creature receives `n` damage, in order.
pub open spec fn damage_each(g: GameModel, ids: Seq<CardId>, n: u32) -> Option<GameModel>
    decreases ids.len(),
{
    if ids.len() == 0 {
        Some(g)
    } else {
        match damage_each(g, ids.drop_last(), n) {
            Some(g1) => damage_card(g1, ids.last(), n),
            None => None,
        }
    }
}

/// One effect, applied on behalf of `ctl` with `card_id` as source.
pub open spec fn effect_full(g: GameModel, card_id: CardId, ctl: usize, e: Effect) -> Option<
    GameModel,
> {
    match e {
        Effect::DealDamageToEachEnemy(n) => match damage_each(
            g,
            zones_of(g, other(ctl)).battleline,
            n,
        ) {
            Some(g1) => destroy_dead_model(g1),
            None => None,
        },
        _ => effect_basic(g, card_id, ctl, e),
    }
}

/// A list of effects, applied in order.
pub open spec fn effects_full(g: GameModel, card_id: CardId, ctl: usize, effs: Seq<Effect>) -> Option<
    GameModel,
>
    decreases effs.len(),
{
    if effs.len() == 0 {
        Some(g)
    } else {
        match effects_full(g, card_id, ctl, effs.drop_last()) {
            Some(g1) => effect_full(g1, card_id, ctl, effs.last()),
            None => None,
        }
    }
}

/// The first creature of a battleline.
pub open spec fn first_of(s: Seq<CardId>) -> Option<CardId> {
    if s.len() > 0 { Some(s[0]) } else { None }
}

/// One bonus icon of a card just played by player `pi`.
pub open spec fn icon_step(g: GameModel, card_id: CardId, pi: usize, icon: BonusIcon) -> Option<GameModel> {
    let opp = other(pi);
    match icon {
        BonusIcon::Aember => gain(g, pi, 1),
        BonusIcon::Capture => {
            let n = min_int(1, pool(g, opp) as int);
            let g1 = with_pool(g, opp, (pool(g, opp) - n) as u32);
            let target = if g1.cards[card_id].def.card_type == CardType::Creature {
                Some(card_id)
            } else {
                first_of(zones_of(g1, pi).battleline)
            };
            match target {
                Some(t) => add_card_aember(g1, t, n),
                None => gain(g1, opp, n),
            }
        },
        BonusIcon::Damage => {
            let target = match first_of(zones_of(g, opp).battleline) {
                Some(t) => Some(t),
                None => first_of(zones_of(g, pi).battleline),
            };
            match target {
                Some(t) => match damage_card(g, t, 1) {
                    Some(g1) => destroy_dead_model(g1),
                    None => None,
                },
                None => Some(g),
            }
        },
        BonusIcon::Draw => Some(with_zones(g, pi, zones_after_draw(zones_of(g, pi)).0)),
        BonusIcon::Discard => Some(g),
    }
}

pub open spec fn icons_model(g: GameModel, card_id: CardId, pi: usize, icons: Seq<BonusIcon>) -> Option<
    GameModel,
>
    decreases icons.len(),
{
    if icons.len() == 0 {
        Some(g)
    } else {
        match icons_model(g, card_id, pi, icons.drop_last()) {
            Some(g1) => icon_step(g1, card_id, pi, icons.last()),
            None => None,
        }
    }
}

/// The active player takes a card out of their hand.
pub open spec fn from_hand(g: GameModel, card_id: CardId) -> GameModel {
    let pi = g.active_player;
    let zp = zones_of(g, pi);
    with_zones(g, pi, ZonesView { hand: without(zp.hand, card_id), ..zp })
}

/// The player whose zones a card played by the active player enters: the opponent for a
/// Treachery card.
pub open spec fn receiving_side(g: GameModel, card_id: CardId) -> usize {
    if card_has_keyword(g.cards[card_id], Keyword::Treachery) {
        other(g.active_player)
    } else {
        g.active_player
    }
}

/// A card played from the active player's hand lands: a creature on a flank and an
/// artifact among the artifacts of the receiving player, anything else on the active
/// player's discard pile.
pub open spec fn play_zones(g: GameModel, card_id: CardId, flank: Flank) -> GameModel {
    let pi = g.active_player;
    let owner = receiving_side(g, card_id);
    let g1 = from_hand(g, card_id);
    let zo = zones_of(g1, owner);
    let zp = zones_of(g1, pi);
    match g.cards[card_id].def.card_type {
        CardType::Creature => with_zones(
            g1,
            owner,
            ZonesView { battleline: add_on_flank(zo.battleline, card_id, flank), ..zo },
        ),
        CardType::Artifact => with_zones(g1, owner, ZonesView { artifacts: zo.artifacts.push(card_id), ..zo }),
        _ => with_zones(g1, pi, ZonesView { discard: zp.discard.push(card_id), ..zp }),
    }
}

/// A creature deployed from the active player's hand enters the receiving player's
/// battleline at the given position.
pub open spec fn deploy_zones(g: GameModel, card_id: CardId, index: usize) -> GameModel {
    let owner = receiving_side(g, card_id);
    let g1 = from_hand(g, card_id);
    let zo = zones_of(g1, owner);
    with_zones(g1, owner, ZonesView { battleline: zo.battleline.insert(index as int, card_id), ..zo })
}

/// Everything that follows a card entering its zone: bonus icons, Exalt, Play effects,
/// Omega, and the use count.
pub open spec fn after_play_model(g: GameModel, card_id: CardId) -> Option<GameModel> {
    let pi = g.active_player;
    match icons_model(g, card_id, pi, g.cards[card_id].def.bonus_icons@) {
        None => None,
        Some(g1) => {
            let g2 = if card_has_keyword(g1.cards[card_id], Keyword::Exalt) {
                add_card_aember(g1, card_id, 1)
            } else {
                Some(g1)
            };
            match g2 {
                None => None,
                Some(g3) => match effects_full(g3, card_id, pi, g3.cards[card_id].def.on_play@) {
                    None => None,
                    Some(g4) => {
                        let g5 = if card_has_keyword(g4.cards[card_id], Keyword::Omega) {
                            GameModel { omega_triggered: true, ..g4 }
                        } else {
                            g4
                        };
                        note_use(g5, g5.cards[card_id].def.name@)
                    },
                },
            }
        },
    }
}

/// Playing a card from the active player's hand.
pub open spec fn play_card_model(g: GameModel, card_id: CardId, flank: Flank) -> Option<GameModel> {
    if g.cards.contains_key(card_id) {
        after_play_model(play_zones(g, card_id, flank), card_id)
    } else {
        None
    }
}

/// Playing a creature at a chosen battleline position (Deploy).
pub open spec fn play_deployed_model(g: GameModel, card_id: CardId, index: usize) -> Option<GameModel> {
    if g.cards.contains_key(card_id) {
        after_play_model(deploy_zones(g, card_id, index), card_id)
    } else {
        None
    }
}

/// Player `ctl`'s card `id` captures 1 Aember from the opponent (if they have any).
pub open spec fn capture_one(g: GameModel, ctl: usize, id: CardId) -> Option<GameModel> {
    let opp = other(ctl);
    let n = min_int(1, pool(g, opp) as int);
    add_card_aember(with_pool(g, opp, (pool(g, opp) - n) as u32), id, n)
}

/// Player `ctl` steals 1 Aember from the opponent (if they have any).
pub open spec fn steal_one(g: GameModel, ctl: usize) -> Option<GameModel> {
    let opp = other(ctl);
    let n = min_int(1, pool(g, opp) as int);
    gain(with_pool(g, opp, (pool(g, opp) - n) as u32), ctl, n)
}

/// Capture (when the card has it) then Steal (when the card has it), by player `ctl`.
pub open spec fn capture_then_steal(g: GameModel, ctl: usize, id: CardId, c: Card) -> Option<GameModel> {
    let s1 = if card_has_keyword(c, Keyword::Capture) { capture_one(g, ctl, id) } else { Some(g) };
    match s1 {
        None => None,
        Some(g1) => if card_has_keyword(c, Keyword::Steal) { steal_one(g1, ctl) } else { Some(g1) },
    }
}

/// Reaping with a friendly creature.
pub open spec fn reap_model(g: GameModel, card_id: CardId) -> Option<GameModel> {
    let pi = g.active_player;
    if !g.cards.contains_key(card_id) {
        None
    } else {
        let g0 = with_card(g, card_id, Card { exhausted: true, ..g.cards[card_id] });
        match gain(g0, pi, 1) {
            None => None,
            Some(g1) => match capture_then_steal(g1, pi, card_id, g1.cards[card_id]) {
                None => None,
                Some(g5) => match effects_full(g5, card_id, pi, g5.cards[card_id].def.on_reap@) {
                    None => None,
                    Some(g6) => note_use(g6, g6.cards[card_id].def.name@),
                },
            },
        }
    }
}

} // verus!

verus! {

/// Every id of `s` names a card of the game.
pub open spec fn ids_in(s: Seq<CardId>, cards: Map<CardId, Card>) -> bool {
    forall|k: int| 0 <= k < s.len() ==> cards.contains_key(#[trigger] s[k])
}

pub open spec fn zones_in(z: ZonesView, cards: Map<CardId, Card>) -> bool {
    &&& ids_in(z.deck, cards)
    &&& ids_in(z.hand, cards)
    &&& ids_in(z.battleline, cards)
    &&& ids_in(z.artifacts, cards)
    &&& ids_in(z.discard, cards)
    &&& ids_in(z.archives, cards)
    &&& ids_in(z.purged, cards)
}

/// A card whose power and armor computations fit their integer types and whose
/// Destroyed effects do not damage every enemy (such a card would make destroying
/// creatures recurse without end).
pub open spec fn card_ok(c: Card) -> bool {
    &&& power_fits(c)
    &&& armor_fits(c)
    &&& !has_mass_damage(c.def.on_destroyed@)
}

/// Well-formed game: two sides, a valid active player, every id in a zone names a card,
/// and every card is `card_ok`.
pub open spec fn game_wf(g: GameModel) -> bool {
    &&& g.sides.len() == 2
    &&& g.active_player < 2
    &&& forall|id: CardId| #[trigger] g.cards.contains_key(id) ==> card_ok(g.cards[id])
    &&& zones_in(zones_of(g, 0), g.cards)
    &&& zones_in(zones_of(g, 1), g.cards)
    &&& g.sides[0].player.keys.len() == 3
    &&& g.sides[1].player.keys.len() == 3
}

pub proof fn lemma_ids_in_without(s: Seq<CardId>, id: CardId, cards: Map<CardId, Card>)
    requires
        ids_in(s, cards),
    ensures
        ids_in(without(s, id), cards),
    decreases s.len(),
{
    if s.len() > 0 {
        assert(ids_in(s.drop_last(), cards)) by {
            assert forall|k: int| 0 <= k < s.drop_last().len() implies cards.contains_key(
                #[trigger] s.drop_last()[k],
            ) by {
                assert(s.drop_last()[k] == s[k]);
            }
        }
        lemma_ids_in_without(s.drop_last(), id, cards);
        assert(cards.contains_key(s[s.len() - 1]));
    }
}

pub proof fn lemma_ids_in_remove_first(s: Seq<CardId>, id: CardId, cards: Map<CardId, Card>)
    requires
        ids_in(s, cards),
    ensures
        ids_in(remove_first(s, id), cards),
{
    s.index_of_first_ensures(id);
    match s.index_of_first(id) {
        Some(i) => {
            assert forall|k: int| 0 <= k < s.remove(i).len() implies cards.contains_key(
                #[trigger] s.remove(i)[k],
            ) by {
                if k < i {
                    assert(s.remove(i)[k] == s[k]);
                } else {
                    assert(s.remove(i)[k] == s[k + 1]);
                }
            }
        },
        None => {},
    }
}

pub proof fn lemma_ids_in_draw(z: ZonesView, cards: Map<CardId, Card>)
    requires
        zones_in(z, cards),
    ensures
        zones_in(zones_after_draw(z).0, cards),
        zones_after_draw(z).1 matches Some(c) ==> cards.contains_key(c),
{
    let z1 = if z.deck.len() == 0 {
        ZonesView { deck: z.deck + z.discard, discard: Seq::empty(), ..z }
    } else {
        z
    };
    assert(zones_in(z1, cards)) by {
        if z.deck.len() == 0 {
            assert forall|k: int| 0 <= k < z1.deck.len() implies cards.contains_key(
                #[trigger] z1.deck[k],
            ) by {
                assert(z1.deck[k] == z.discard[k - z.deck.len()]);
            }
        }
    }
    if z1.deck.len() > 0 {
        assert(cards.contains_key(z1.deck[z1.deck.len() - 1]));
    }
}

pub proof fn lemma_ids_in_draw_n(z: ZonesView, n: nat, cards: Map<CardId, Card>)
    requires
        zones_in(z, cards),
    ensures
        zones_in(draw_n(z, n), cards),
    decreases n,
{
    if n > 0 {
        lemma_ids_in_draw_n(z, (n - 1) as nat, cards);
        lemma_ids_in_draw(draw_n(z, (n - 1) as nat), cards);
    }
}

} // verus!

verus! {

/// A step that succeeded keeps the game well-formed, the same cards and the same active player.
pub open spec fn step_ok(g: GameModel, r: Option<GameModel>) -> bool {
    r matches Some(h) ==> game_wf(h) && h.cards.dom() == g.cards.dom() && h.active_player
        == g.active_player
}

pub proof fn lemma_wf_with_pool(g: GameModel, i: usize, v: u32)
    requires
        game_wf(g),
        i < 2,
    ensures
        game_wf(with_pool(g, i, v)),
        with_pool(g, i, v).cards == g.cards,
{
    let h = with_pool(g, i, v);
    assert(zones_of(h, 0) == zones_of(g, 0));
    assert(zones_of(h, 1) == zones_of(g, 1));
}

pub proof fn lemma_wf_with_zones(g: GameModel, i: usize, z: ZonesView)
    requires
        game_wf(g),
        i < 2,
        zones_in(z, g.cards),
    ensures
        game_wf(with_zones(g, i, z)),
        with_zones(g, i, z).cards == g.cards,
{
    let h = with_zones(g, i, z);
    assert(h.sides[0].player == g.sides[0].player);
    assert(h.sides[1].player == g.sides[1].player);
}

pub proof fn lemma_wf_with_card(g: GameModel, id: CardId, c: Card)
    requires
        game_wf(g),
        g.cards.contains_key(id),
        card_ok(c),
    ensures
        game_wf(with_card(g, id, c)),
        with_card(g, id, c).cards.dom() == g.cards.dom(),
{
    let h = with_card(g, id, c);
    assert(h.cards.dom() =~= g.cards.dom());
    assert(forall|x: CardId| g.cards.contains_key(x) ==> h.cards.contains_key(x));
}

pub proof fn lemma_gain_ok(g: GameModel, i: usize, n: int)
    requires
        game_wf(g),
        i < 2,
    ensures
        step_ok(g, gain(g, i, n)),
{
    lemma_wf_with_pool(g, i, (pool(g, i) + n) as u32);
}

pub proof fn lemma_note_use_ok(g: GameModel, name: Seq<char>)
    requires
        game_wf(g),
    ensures
        step_ok(g, note_use(g, name)),
{
}

pub proof fn lemma_add_card_aember_ok(g: GameModel, id: CardId, n: int)
    requires
        game_wf(g),
    ensures
        step_ok(g, add_card_aember(g, id, n)),
{
    if g.cards.contains_key(id) {
        let c = g.cards[id];
        lemma_wf_with_card(g, id, Card { aember: (c.aember + n) as u32, ..c });
    }
}

pub proof fn lemma_damage_card_ok(g: GameModel, id: CardId, n: u32)
    requires
        game_wf(g),
    ensures
        step_ok(g, damage_card(g, id, n)),
{
    if g.cards.contains_key(id) {
        lemma_wf_with_card(g, id, after_damage(g.cards[id], n));
    }
}

pub proof fn lemma_effect_basic_ok(g: GameModel, card_id: CardId, ctl: usize, e: Effect)
    requires
        game_wf(g),
        ctl < 2,
    ensures
        step_ok(g, effect_basic(g, card_id, ctl, e)),
{
    let opp = other(ctl);
    match e {
        Effect::GainAember(n) => lemma_gain_ok(g, ctl, n as int),
        Effect::StealAember(n) => {
            let s = min_int(n as int, pool(g, opp) as int);
            lemma_wf_with_pool(g, opp, (pool(g, opp) - s) as u32);
            lemma_gain_ok(with_pool(g, opp, (pool(g, opp) - s) as u32), ctl, s);
        },
        Effect::CaptureAember(n) => {
            let s = min_int(n as int, pool(g, opp) as int);
            lemma_wf_with_pool(g, opp, (pool(g, opp) - s) as u32);
            lemma_add_card_aember_ok(with_pool(g, opp, (pool(g, opp) - s) as u32), card_id, s);
        },
        Effect::DrawCards(n) => {
            lemma_ids_in_draw_n(zones_of(g, ctl), n as nat, g.cards);
            lemma_wf_with_zones(g, ctl, draw_n(zones_of(g, ctl), n as nat));
        },
        Effect::DealDamageToEachEnemy(_) => {},
        Effect::HealSelf(n) => {
            if g.cards.contains_key(card_id) {
                lemma_wf_with_card(g, card_id, after_heal(g.cards[card_id], n));
            }
        },
    }
}

pub proof fn lemma_effects_basic_ok(g: GameModel, card_id: CardId, ctl: usize, effs: Seq<Effect>)
    requires
        game_wf(g),
        ctl < 2,
    ensures
        step_ok(g, effects_basic(g, card_id, ctl, effs)),
    decreases effs.len(),
{
    if effs.len() > 0 {
        lemma_effects_basic_ok(g, card_id, ctl, effs.drop_last());
        match effects_basic(g, card_id, ctl, effs.drop_last()) {
            Some(g1) => lemma_effect_basic_ok(g1, card_id, ctl, effs.last()),
            None => {},
        }
    }
}

pub proof fn lemma_dead_in(s: Seq<CardId>, cards: Map<CardId, Card>)
    ensures
        forall|k: int| 0 <= k < dead_in(s, cards).len() ==> cards.contains_key(
            #[trigger] dead_in(s, cards)[k],
        ),
    decreases s.len(),
{
    if s.len() > 0 {
        lemma_dead_in(s.drop_last(), cards);
        let rest = dead_in(s.drop_last(), cards);
        assert forall|k: int| 0 <= k < rest.push(s.last()).len() && cards.contains_key(s.last())
            implies cards.contains_key(#[trigger] rest.push(s.last())[k]) by {
            if k < rest.len() {
                assert(rest.push(s.last())[k] == rest[k]);
            }
        }
    }
}

pub proof fn lemma_zones_after_destroy_in(z: ZonesView, id: CardId, cards: Map<CardId, Card>)
    requires
        zones_in(z, cards),
        cards.contains_key(id),
    ensures
        zones_in(zones_after_destroy(z, id), cards),
{
    lemma_ids_in_remove_first(z.battleline, id, cards);
    lemma_ids_in_without(z.artifacts, id, cards);
}

pub proof fn lemma_destroy_one_ok(g: GameModel, pi: usize, id: CardId)
    requires
        game_wf(g),
        pi < 2,
        g.cards.contains_key(id),
    ensures
        step_ok(g, destroy_one(g, pi, id)),
{
    lemma_effects_basic_ok(g, id, pi, g.cards[id].def.on_destroyed@);
    match effects_basic(g, id, pi, g.cards[id].def.on_destroyed@) {
        None => {},
        Some(g1) => {
            let captured = g1.cards[id].aember;
            let g2 = if captured > 0 {
                match gain(g1, other(pi), captured as int) {
                    Some(g) => Some(with_card(g, id, Card { aember: 0, ..g1.cards[id] })),
                    None => None,
                }
            } else {
                Some(g1)
            };
            if captured > 0 {
                lemma_gain_ok(g1, other(pi), captured as int);
                match gain(g1, other(pi), captured as int) {
                    Some(gg) => {
                        assert(gg.cards == g1.cards);
                        lemma_wf_with_card(gg, id, Card { aember: 0, ..g1.cards[id] });
                    },
                    None => {},
                }
            }
            match g2 {
                Some(g3) => {
                    lemma_zones_after_destroy_in(zones_of(g3, pi), id, g3.cards);
                    lemma_wf_with_zones(g3, pi, zones_after_destroy(zones_of(g3, pi), id));
                },
                None => {},
            }
        },
    }
}

pub proof fn lemma_destroy_list_ok(g: GameModel, pi: usize, ids: Seq<CardId>)
    requires
        game_wf(g),
        pi < 2,
        forall|k: int| 0 <= k < ids.len() ==> g.cards.contains_key(#[trigger] ids[k]),
    ensures
        step_ok(g, destroy_list(g, pi, ids)),
    decreases ids.len(),
{
    if ids.len() > 0 {
        assert forall|k: int| 0 <= k < ids.drop_last().len() implies g.cards.contains_key(
            #[trigger] ids.drop_last()[k],
        ) by {
            assert(ids.drop_last()[k] == ids[k]);
        }
        lemma_destroy_list_ok(g, pi, ids.drop_last());
        match destroy_list(g, pi, ids.drop_last()) {
            Some(g1) => {
                assert(g.cards.contains_key(ids[ids.len() - 1]));
                lemma_destroy_one_ok(g1, pi, ids.last());
            },
            None => {},
        }
    }
}

pub proof fn lemma_destroy_dead_ok(g: GameModel)
    requires
        game_wf(g),
    ensures
        step_ok(g, destroy_dead_model(g)),
{
    lemma_dead_in(zones_of(g, 0).battleline, g.cards);
    lemma_destroy_list_ok(g, 0, dead_in(zones_of(g, 0).battleline, g.cards));
    match destroy_list(g, 0, dead_in(zones_of(g, 0).battleline, g.cards)) {
        Some(g1) => {
            lemma_dead_in(zones_of(g1, 1).battleline, g1.cards);
            lemma_destroy_list_ok(g1, 1, dead_in(zones_of(g1, 1).battleline, g1.cards));
        },
        None => {},
    }
}

pub proof fn lemma_damage_each_ok(g: GameModel, ids: Seq<CardId>, n: u32)
    requires
        game_wf(g),
    ensures
        step_ok(g, damage_each(g, ids, n)),
    decreases ids.len(),
{
    if ids.len() > 0 {
        lemma_damage_each_ok(g, ids.drop_last(), n);
        match damage_each(g, ids.drop_last(), n) {
            Some(g1) => lemma_damage_card_ok(g1, ids.last(), n),
            None => {},
        }
    }
}

pub proof fn lemma_effect_full_ok(g: GameModel, card_id: CardId, ctl: usize, e: Effect)
    requires
        game_wf(g),
        ctl < 2,
    ensures
        step_ok(g, effect_full(g, card_id, ctl, e)),
{
    match e {
        Effect::DealDamageToEachEnemy(n) => {
            lemma_damage_each_ok(g, zones_of(g, other(ctl)).battleline, n);
            match damage_each(g, zones_of(g, other(ctl)).battleline, n) {
                Some(g1) => lemma_destroy_dead_ok(g1),
                None => {},
            }
        },
        _ => lemma_effect_basic_ok(g, card_id, ctl, e),
    }
}

pub proof fn lemma_effects_full_ok(g: GameModel, card_id: CardId, ctl: usize, effs: Seq<Effect>)
    requires
        game_wf(g),
        ctl < 2,
    ensures
        step_ok(g, effects_full(g, card_id, ctl, effs)),
    decreases effs.len(),
{
    if effs.len() > 0 {
        lemma_effects_full_ok(g, card_id, ctl, effs.drop_last());
        match effects_full(g, card_id, ctl, effs.drop_last()) {
            Some(g1) => lemma_effect_full_ok(g1, card_id, ctl, effs.last()),
            None => {},
        }
    }
}

/// Without mass damage, the general effect list behaves as the basic one.
pub proof fn lemma_effects_full_basic(g: GameModel, card_id: CardId, ctl: usize, effs: Seq<Effect>)
    requires
        !has_mass_damage(effs),
    ensures
        effects_full(g, card_id, ctl, effs) == effects_basic(g, card_id, ctl, effs),
    decreases effs.len(),
{
    if effs.len() > 0 {
        assert(!has_mass_damage(effs.drop_last())) by {
            if has_mass_damage(effs.drop_last()) {
                let i = choose|i: int|
                    0 <= i < effs.drop_last().len() && #[trigger] effs.drop_last()[i] is DealDamageToEachEnemy;
                assert(effs[i] is DealDamageToEachEnemy);
            }
        }
        lemma_effects_full_basic(g, card_id, ctl, effs.drop_last());
        assert(!(effs[effs.len() - 1] is DealDamageToEachEnemy));
    }
}

} // verus!

verus! {

pub proof fn lemma_effects_full_prefix(g: GameModel, card_id: CardId, ctl: usize, effs: Seq<Effect>, i: int)
    requires
        effects_full(g, card_id, ctl, effs) is Some,
        0 <= i <= effs.len(),
    ensures
        effects_full(g, card_id, ctl, effs.take(i)) is Some,
    decreases effs.len(),
{
    if i < effs.len() {
        assert(effs.drop_last().take(i) =~= effs.take(i));
        lemma_effects_full_prefix(g, card_id, ctl, effs.drop_last(), i);
    } else {
        assert(effs.take(i) =~= effs);
    }
}

pub proof fn lemma_destroy_list_prefix(g: GameModel, pi: usize, ids: Seq<CardId>, i: int)
    requires
        destroy_list(g, pi, ids) is Some,
        0 <= i <= ids.len(),
    ensures
        destroy_list(g, pi, ids.take(i)) is Some,
    decreases ids.len(),
{
    if i < ids.len() {
        assert(ids.drop_last().take(i) =~= ids.take(i));
        lemma_destroy_list_prefix(g, pi, ids.drop_last(), i);
    } else {
        assert(ids.take(i) =~= ids);
    }
}

pub proof fn lemma_damage_each_prefix(g: GameModel, ids: Seq<CardId>, n: u32, i: int)
    requires
        damage_each(g, ids, n) is Some,
        0 <= i <= ids.len(),
    ensures
        damage_each(g, ids.take(i), n) is Some,
    decreases ids.len(),
{
    if i < ids.len() {
        assert(ids.drop_last().take(i) =~= ids.take(i));
        lemma_damage_each_prefix(g, ids.drop_last(), n, i);
    } else {
        assert(ids.take(i) =~= ids);
    }
}

pub proof fn lemma_icons_prefix(g: GameModel, card_id: CardId, pi: usize, icons: Seq<BonusIcon>, i: int)
    requires
        icons_model(g, card_id, pi, icons) is Some,
        0 <= i <= icons.len(),
    ensures
        icons_model(g, card_id, pi, icons.take(i)) is Some,
    decreases icons.len(),
{
    if i < icons.len() {
        assert(icons.drop_last().take(i) =~= icons.take(i));
        lemma_icons_prefix(g, card_id, pi, icons.drop_last(), i);
    } else {
        assert(icons.take(i) =~= icons);
    }
}

} // verus!

verus! {

pub proof fn lemma_with_zones_same(g: GameModel, i: usize)
    requires
        g.sides.len() == 2,
        i < 2,
    ensures
        with_zones(g, i, zones_of(g, i)) == g,
{
    assert(with_zones(g, i, zones_of(g, i)).sides =~= g.sides);
}

pub proof fn lemma_with_zones_twice(g: GameModel, i: usize, z1: ZonesView, z2: ZonesView)
    requires
        g.sides.len() == 2,
        i < 2,
    ensures
        with_zones(with_zones(g, i, z1), i, z2) == with_zones(g, i, z2),
        zones_of(with_zones(g, i, z1), i) == z1,
{
    assert(with_zones(with_zones(g, i, z1), i, z2).sides =~= with_zones(g, i, z2).sides);
}

} // verus!

verus! {

pub proof fn lemma_ids_in_push(s: Seq<CardId>, id: CardId, cards: Map<CardId, Card>)
    requires
        ids_in(s, cards),
        cards.contains_key(id),
    ensures
        ids_in(s.push(id), cards),
{
    assert forall|k: int| 0 <= k < s.push(id).len() implies cards.contains_key(#[trigger] s.push(id)[k]) by {
        if k < s.len() {
            assert(s.push(id)[k] == s[k]);
        }
    }
}

pub proof fn lemma_ids_in_insert(s: Seq<CardId>, i: int, id: CardId, cards: Map<CardId, Card>)
    requires
        ids_in(s, cards),
        cards.contains_key(id),
        0 <= i <= s.len(),
    ensures
        ids_in(s.insert(i, id), cards),
{
    assert forall|k: int| 0 <= k < s.insert(i, id).len() implies cards.contains_key(
        #[trigger] s.insert(i, id)[k],
    ) by {
        if k < i {
            assert(s.insert(i, id)[k] == s[k]);
        } else if k > i {
            assert(s.insert(i, id)[k] == s[k - 1]);
        }
    }
}

pub proof fn lemma_ids_in_flank(s: Seq<CardId>, id: CardId, flank: Flank, cards: Map<CardId, Card>)
    requires
        ids_in(s, cards),
        cards.contains_key(id),
    ensures
        ids_in(add_on_flank(s, id, flank), cards),
{
    match flank {
        Flank::Left => {
            assert(seq![id] + s =~= s.insert(0, id));
            lemma_ids_in_insert(s, 0, id, cards);
        },
        Flank::Right => lemma_ids_in_push(s, id, cards),
    }
}

pub proof fn lemma_icon_step_ok(g: GameModel, card_id: CardId, pi: usize, icon: BonusIcon)
    requires
        game_wf(g),
        pi < 2,
    ensures
        step_ok(g, icon_step(g, card_id, pi, icon)),
{
    let opp = other(pi);
    match icon {
        BonusIcon::Aember => lemma_gain_ok(g, pi, 1),
        BonusIcon::Capture => {
            let n = min_int(1, pool(g, opp) as int);
            let g1 = with_pool(g, opp, (pool(g, opp) - n) as u32);
            lemma_wf_with_pool(g, opp, (pool(g, opp) - n) as u32);
            let target = if g1.cards[card_id].def.card_type == CardType::Creature {
                Some(card_id)
            } else {
                first_of(zones_of(g1, pi).battleline)
            };
            match target {
                Some(t) => lemma_add_card_aember_ok(g1, t, n),
                None => lemma_gain_ok(g1, opp, n),
            }
        },
        BonusIcon::Damage => {
            let target = match first_of(zones_of(g, opp).battleline) {
                Some(t) => Some(t),
                None => first_of(zones_of(g, pi).battleline),
            };
            match target {
                Some(t) => {
                    lemma_damage_card_ok(g, t, 1);
                    match damage_card(g, t, 1) {
                        Some(g1) => lemma_destroy_dead_ok(g1),
                        None => {},
                    }
                },
                None => {},
            }
        },
        BonusIcon::Draw => {
            lemma_ids_in_draw(zones_of(g, pi), g.cards);
            lemma_wf_with_zones(g, pi, zones_after_draw(zones_of(g, pi)).0);
        },
        BonusIcon::Discard => {},
    }
}

pub proof fn lemma_icons_ok(g: GameModel, card_id: CardId, pi: usize, icons: Seq<BonusIcon>)
    requires
        game_wf(g),
        pi < 2,
    ensures
        step_ok(g, icons_model(g, card_id, pi, icons)),
    decreases icons.len(),
{
    if icons.len() > 0 {
        lemma_icons_ok(g, card_id, pi, icons.drop_last());
        match icons_model(g, card_id, pi, icons.drop_last()) {
            Some(g1) => lemma_icon_step_ok(g1, card_id, pi, icons.last()),
            None => {},
        }
    }
}

pub proof fn lemma_from_hand_ok(g: GameModel, card_id: CardId)
    requires
        game_wf(g),
    ensures
        game_wf(from_hand(g, card_id)),
        from_hand(g, card_id).cards == g.cards,
        from_hand(g, card_id).active_player == g.active_player,
        zones_of(from_hand(g, card_id), other(g.active_player)) == zones_of(g, other(g.active_player)),
        zones_of(from_hand(g, card_id), g.active_player).battleline == zones_of(g, g.active_player).battleline,
{
    let pi = g.active_player;
    let zp = zones_of(g, pi);
    lemma_ids_in_without(zp.hand, card_id, g.cards);
    lemma_wf_with_zones(g, pi, ZonesView { hand: without(zp.hand, card_id), ..zp });
}

pub proof fn lemma_play_zones_ok(g: GameModel, card_id: CardId, flank: Flank)
    requires
        game_wf(g),
        g.cards.contains_key(card_id),
    ensures
        game_wf(play_zones(g, card_id, flank)),
        play_zones(g, card_id, flank).cards == g.cards,
        play_zones(g, card_id, flank).active_player == g.active_player,
{
    let pi = g.active_player;
    let owner = receiving_side(g, card_id);
    lemma_from_hand_ok(g, card_id);
    let g1 = from_hand(g, card_id);
    let zo = zones_of(g1, owner);
    let zp = zones_of(g1, pi);
    lemma_ids_in_flank(zo.battleline, card_id, flank, g.cards);
    lemma_ids_in_push(zo.artifacts, card_id, g.cards);
    lemma_ids_in_push(zp.discard, card_id, g.cards);
    match g.cards[card_id].def.card_type {
        CardType::Creature => lemma_wf_with_zones(
            g1,
            owner,
            ZonesView { battleline: add_on_flank(zo.battleline, card_id, flank), ..zo },
        ),
        CardType::Artifact => lemma_wf_with_zones(g1, owner, ZonesView { artifacts: zo.artifacts.push(card_id), ..zo }),
        _ => lemma_wf_with_zones(g1, pi, ZonesView { discard: zp.discard.push(card_id), ..zp }),
    }
}

pub proof fn lemma_deploy_zones_ok(g: GameModel, card_id: CardId, index: usize)
    requires
        game_wf(g),
        g.cards.contains_key(card_id),
        index <= zones_of(g, receiving_side(g, card_id)).battleline.len(),
    ensures
        game_wf(deploy_zones(g, card_id, index)),
        deploy_zones(g, card_id, index).cards == g.cards,
        deploy_zones(g, card_id, index).active_player == g.active_player,
{
    let owner = receiving_side(g, card_id);
    lemma_from_hand_ok(g, card_id);
    let g1 = from_hand(g, card_id);
    let zo = zones_of(g1, owner);
    lemma_ids_in_insert(zo.battleline, index as int, card_id, g.cards);
    lemma_wf_with_zones(g1, owner, ZonesView { battleline: zo.battleline.insert(index as int, card_id), ..zo });
}

pub proof fn lemma_after_play_ok(g: GameModel, card_id: CardId)
    requires
        game_wf(g),
        g.cards.contains_key(card_id),
    ensures
        step_ok(g, after_play_model(g, card_id)),
{
    let pi = g.active_player;
    lemma_icons_ok(g, card_id, pi, g.cards[card_id].def.bonus_icons@);
    match icons_model(g, card_id, pi, g.cards[card_id].def.bonus_icons@) {
        None => {},
        Some(g1) => {
            lemma_add_card_aember_ok(g1, card_id, 1);
            let g2 = if card_has_keyword(g1.cards[card_id], Keyword::Exalt) {
                add_card_aember(g1, card_id, 1)
            } else {
                Some(g1)
            };
            match g2 {
                None => {},
                Some(g3) => {
                    lemma_effects_full_ok(g3, card_id, pi, g3.cards[card_id].def.on_play@);
                    match effects_full(g3, card_id, pi, g3.cards[card_id].def.on_play@) {
                        None => {},
                        Some(g4) => {
                            let g5 = if card_has_keyword(g4.cards[card_id], Keyword::Omega) {
                                GameModel { omega_triggered: true, ..g4 }
                            } else {
                                g4
                            };
                            lemma_note_use_ok(g5, g5.cards[card_id].def.name@);
                        },
                    }
                },
            }
        },
    }
}

} // verus!

verus! {

/// Whether some creature of the line is in the game and has Taunt.
pub open spec fn any_taunt(s: Seq<CardId>, cards: Map<CardId, Card>) -> bool {
    exists|k: int| 0 <= k < s.len() && card_has_keyword(cards[#[trigger] s[k]], Keyword::Taunt)
}

/// The X of the first Assault, Hazardous or Splash-Attack keyword of the same kind as
/// `tag`; 0 when there is none.
pub open spec fn x_value(kws: Seq<Keyword>, tag: Keyword) -> u32
    decreases kws.len(),
{
    if kws.len() == 0 {
        0
    } else {
        match (kws[0], tag) {
            (Keyword::Assault(x), Keyword::Assault(_)) => x,
            (Keyword::Hazardous(x), Keyword::Hazardous(_)) => x,
            (Keyword::SplashAttack(x), Keyword::SplashAttack(_)) => x,
            _ => x_value(kws.drop_first(), tag),
        }
    }
}

/// Poison: a damaged creature's damage is raised to its power (at least 1).
pub open spec fn poisoned(g: GameModel, id: CardId) -> GameModel {
    let c = g.cards[id];
    if c.damage > 0 {
        with_card(g, id, Card { damage: if card_power(c) > 1 { card_power(c) } else { 1 }, ..c })
    } else {
        g
    }
}

/// Splash damage to one neighbor (skipped when the neighbor is not a card of the game).
pub open spec fn splash_one(g: GameModel, nb: Option<CardId>, n: u32) -> Option<GameModel> {
    match nb {
        Some(id) => if g.cards.contains_key(id) { damage_card(g, id, n) } else { Some(g) },
        None => Some(g),
    }
}

/// Damage before the fight: Assault on the defender, then Hazardous on the attacker.
pub open spec fn fight_pre(g: GameModel, a: CardId, d: CardId, ca: Card, cd: Card) -> Option<GameModel> {
    let assault = x_value(ca.def.keywords@, Keyword::Assault(0));
    let hazardous = x_value(cd.def.keywords@, Keyword::Hazardous(0));
    let s1 = if assault > 0 { damage_card(g, d, assault) } else { Some(g) };
    match s1 {
        Some(h) => if hazardous > 0 { damage_card(h, a, hazardous) } else { Some(h) },
        None => None,
    }
}

/// Fight damage: the damage before the fight, then (when the defender is still alive) the
/// exchange of power damage, which Skirmish makes one-sided.
pub open spec fn fight_damage(g: GameModel, a: CardId, d: CardId, ca: Card, cd: Card) -> Option<GameModel> {
    match fight_pre(g, a, d, ca, cd) {
        Some(h) => if !card_is_destroyed(h.cards[d]) {
            match damage_card(h, d, card_power(ca)) {
                Some(h2) => if !card_has_keyword(ca, Keyword::Skirmish) {
                    damage_card(h2, a, card_power(cd))
                } else {
                    Some(h2)
                },
                None => None,
            }
        } else {
            Some(h)
        },
        None => None,
    }
}

/// Whether the exchange of power damage dealt damage to the defender, and to the attacker.
pub open spec fn fight_hits(g: GameModel, a: CardId, d: CardId, ca: Card, cd: Card) -> (bool, bool) {
    match fight_pre(g, a, d, ca, cd) {
        Some(h) => if !card_is_destroyed(h.cards[d]) {
            match damage_card(h, d, card_power(ca)) {
                Some(h2) => (
                    h2.cards[d].damage > h.cards[d].damage,
                    !card_has_keyword(ca, Keyword::Skirmish) && match damage_card(h2, a, card_power(cd)) {
                        Some(h3) => h3.cards[a].damage > h2.cards[a].damage,
                        None => false,
                    },
                ),
                None => (false, false),
            }
        } else {
            (false, false)
        },
        None => (false, false),
    }
}

/// Poison on either side of the fight: a creature that the power of a Poison creature
/// damaged in the exchange is destroyed.
pub open spec fn fight_poison(h: GameModel, a: CardId, d: CardId, hits: (bool, bool), ca: Card, cd: Card) -> GameModel {
    let h4 = if card_has_keyword(ca, Keyword::Poison) && hits.0 { poisoned(h, d) } else { h };
    if card_has_keyword(cd, Keyword::Poison) && hits.1 {
        poisoned(h4, a)
    } else {
        h4
    }
}

/// Splash-Attack damage to both neighbors of the defender.
pub open spec fn fight_splash(h: GameModel, nbs: (Option<CardId>, Option<CardId>), splash: u32) -> Option<GameModel> {
    if splash > 0 {
        match splash_one(h, nbs.0, splash) {
            Some(h1) => splash_one(h1, nbs.1, splash),
            None => None,
        }
    } else {
        Some(h)
    }
}

/// Capture and Steal of the attacker.
pub open spec fn fight_loot(h: GameModel, a: CardId, ca: Card) -> Option<GameModel> {
    capture_then_steal(h, h.active_player, a, ca)
}

/// After the fight: destroyed creatures leave play, the survivors' Fight effects fire,
/// and the attacker's use is counted.
pub open spec fn fight_after(h: GameModel, a: CardId, d: CardId, ca: Card, cd: Card) -> Option<GameModel> {
    let pi = h.active_player;
    let di = other(pi);
    match destroy_dead_model(h) {
        None => None,
        Some(h9) => {
            let s10 = if zones_of(h9, pi).battleline.contains(a) {
                effects_full(h9, a, pi, ca.def.on_fight@)
            } else {
                Some(h9)
            };
            match s10 {
                None => None,
                Some(h10) => {
                    let s11 = if zones_of(h10, di).battleline.contains(d) {
                        effects_full(h10, d, di, cd.def.on_fight@)
                    } else {
                        Some(h10)
                    };
                    match s11 {
                        None => None,
                        Some(h11) => note_use(h11, h11.cards[a].def.name@),
                    }
                },
            }
        },
    }
}

/// The fight proper, after the attacker has been exhausted and Elusive did not stop it.
pub open spec fn fight_model(
    g: GameModel,
    a: CardId,
    d: CardId,
    ca: Card,
    cd: Card,
    nbs: (Option<CardId>, Option<CardId>),
) -> Option<GameModel> {
    match fight_damage(g, a, d, ca, cd) {
        None => None,
        Some(h3) => match fight_splash(
            fight_poison(h3, a, d, fight_hits(g, a, d, ca, cd), ca, cd),
            nbs,
            x_value(ca.def.keywords@, Keyword::SplashAttack(0)),
        ) {
            None => None,
            Some(h6) => match fight_loot(h6, a, ca) {
                None => None,
                Some(h8) => fight_after(h8, a, d, ca, cd),
            },
        },
    }
}

/// The active player's creature `a` attacks the opponent's creature `d`.
pub open spec fn attack_model(g: GameModel, a: CardId, d: CardId) -> Option<GameModel> {
    if !g.cards.contains_key(a) || !g.cards.contains_key(d) {
        None
    } else {
        let ca = g.cards[a];
        let cd = g.cards[d];
        let nbs = neighbors_of(zones_of(g, other(g.active_player)).battleline, d);
        let g0 = with_card(g, a, Card { exhausted: true, ..ca });
        if card_has_keyword(cd, Keyword::Elusive) && !cd.elusive_used_this_turn {
            let g1 = with_card(g0, d, Card { elusive_used_this_turn: true, ..g0.cards[d] });
            note_use(g1, g1.cards[a].def.name@)
        } else {
            fight_model(g0, a, d, ca, cd, nbs)
        }
    }
}

/// Ready the listed cards of the game and reset their per-turn state.
pub open spec fn ready_all(g: GameModel, ids: Seq<CardId>) -> GameModel
    decreases ids.len(),
{
    if ids.len() == 0 {
        g
    } else {
        let h = ready_all(g, ids.drop_last());
        let id = ids.last();
        if h.cards.contains_key(id) {
            with_card(h, id, after_reset_turn(Card { exhausted: false, ..h.cards[id] }))
        } else {
            h
        }
    }
}

/// Cards drawn fewer per hand refill based on chain count.
pub open spec fn chain_penalty_of(chains: u32) -> nat {
    if chains == 0 {
        0
    } else if chains <= 6 {
        1
    } else if chains <= 12 {
        2
    } else if chains <= 18 {
        3
    } else {
        4
    }
}

/// Draw until the hand holds `max` cards or nothing is left to draw.
pub open spec fn draw_until(z: ZonesView, max: nat) -> ZonesView
    decreases z.deck.len() + z.discard.len(),
{
    if z.hand.len() >= max {
        z
    } else {
        let (z1, r) = zones_after_draw(z);
        if r is None {
            z
        } else {
            draw_until(z1, max)
        }
    }
}

/// End of turn for the active player: ready their cards in play, refill the hand
/// (less per chains, shedding one chain when the hand had room), pass the turn.
pub open spec fn end_turn_model(g: GameModel) -> Option<GameModel> {
    let pi = g.active_player;
    let in_play = zones_of(g, pi).battleline + zones_of(g, pi).artifacts;
    let g1 = ready_all(g, in_play);
    let chains = g1.sides[pi as int].player.chains;
    let hand_before = zones_of(g1, pi).hand.len();
    let max_hand = if chain_penalty_of(chains) >= 6 { 0 } else { (6 - chain_penalty_of(chains)) as nat };
    let g2 = with_zones(g1, pi, draw_until(zones_of(g1, pi), max_hand));
    let g3 = if chains > 0 && hand_before < 6 {
        with_player(g2, pi, PlayerModel { chains: (chains - 1) as u32, ..g2.sides[pi as int].player })
    } else {
        g2
    };
    if g3.turn + 1 <= u32::MAX {
        Some(
            GameModel {
                omega_triggered: false,
                active_player: other(pi),
                active_house: None,
                turn: (g3.turn + 1) as u32,
                cards_used_this_turn: 0,
                use_counts: Map::empty(),
                ..g3
            },
        )
    } else {
        None
    }
}

/// Using a stunned creature: exhaust it and remove its stun.
pub open spec fn unstun_model(g: GameModel, id: CardId) -> Option<GameModel> {
    if g.cards.contains_key(id) {
        let g1 = with_card(g, id, Card { stun: false, exhausted: true, ..g.cards[id] });
        note_use(g1, g1.cards[id].def.name@)
    } else {
        None
    }
}

/// Discarding a card from the active player's hand.
pub open spec fn discard_model(g: GameModel, id: CardId) -> Option<GameModel> {
    let pi = g.active_player;
    let z = zones_of(g, pi);
    if g.cards.contains_key(id) {
        note_use(
            with_zones(g, pi, ZonesView { hand: without(z.hand, id), discard: z.discard.push(id), ..z }),
            g.cards[id].def.name@,
        )
    } else {
        None
    }
}

/// Choosing the active house, optionally picking up the archives.
pub open spec fn choose_house_model(g: GameModel, house: House, pick_up: bool) -> GameModel {
    let g1 = GameModel { active_house: Some(house), ..g };
    if pick_up {
        let z = zones_of(g1, g1.active_player);
        with_zones(g1, g1.active_player, ZonesView { hand: z.hand + z.archives, archives: Seq::empty(), ..z })
    } else {
        g1
    }
}

} // verus!

verus! {

pub proof fn lemma_capture_then_steal_ok(g: GameModel, ctl: usize, id: CardId, c: Card)
    requires
        game_wf(g),
        ctl < 2,
    ensures
        step_ok(g, capture_one(g, ctl, id)),
        step_ok(g, steal_one(g, ctl)),
        step_ok(g, capture_then_steal(g, ctl, id, c)),
{
    let opp = other(ctl);
    let n = min_int(1, pool(g, opp) as int);
    lemma_wf_with_pool(g, opp, (pool(g, opp) - n) as u32);
    lemma_add_card_aember_ok(with_pool(g, opp, (pool(g, opp) - n) as u32), id, n);
    lemma_gain_ok(with_pool(g, opp, (pool(g, opp) - n) as u32), ctl, n);
    let s1 = if card_has_keyword(c, Keyword::Capture) { capture_one(g, ctl, id) } else { Some(g) };
    match s1 {
        None => {},
        Some(g1) => {
            let m = min_int(1, pool(g1, opp) as int);
            lemma_wf_with_pool(g1, opp, (pool(g1, opp) - m) as u32);
            lemma_gain_ok(with_pool(g1, opp, (pool(g1, opp) - m) as u32), ctl, m);
        },
    }
}

pub proof fn lemma_reap_ok(g: GameModel, id: CardId)
    requires
        game_wf(g),
    ensures
        step_ok(g, reap_model(g, id)),
{
    let pi = g.active_player;
    if g.cards.contains_key(id) {
        let g0 = with_card(g, id, Card { exhausted: true, ..g.cards[id] });
        lemma_wf_with_card(g, id, Card { exhausted: true, ..g.cards[id] });
        lemma_gain_ok(g0, pi, 1);
        match gain(g0, pi, 1) {
            None => {},
            Some(g1) => {
                lemma_capture_then_steal_ok(g1, pi, id, g1.cards[id]);
                match capture_then_steal(g1, pi, id, g1.cards[id]) {
                    None => {},
                    Some(g5) => {
                        lemma_effects_full_ok(g5, id, pi, g5.cards[id].def.on_reap@);
                        match effects_full(g5, id, pi, g5.cards[id].def.on_reap@) {
                            None => {},
                            Some(g6) => lemma_note_use_ok(g6, g6.cards[id].def.name@),
                        }
                    },
                }
            },
        }
    }
}

pub proof fn lemma_poisoned_ok(g: GameModel, id: CardId)
    requires
        game_wf(g),
        g.cards.contains_key(id),
    ensures
        game_wf(poisoned(g, id)),
        poisoned(g, id).cards.dom() == g.cards.dom(),
        poisoned(g, id).active_player == g.active_player,
{
    let c = g.cards[id];
    if c.damage > 0 {
        lemma_wf_with_card(g, id, Card { damage: if card_power(c) > 1 { card_power(c) } else { 1 }, ..c });
    }
}

pub proof fn lemma_splash_one_ok(g: GameModel, nb: Option<CardId>, n: u32)
    requires
        game_wf(g),
    ensures
        step_ok(g, splash_one(g, nb, n)),
{
    match nb {
        Some(id) => lemma_damage_card_ok(g, id, n),
        None => {},
    }
}

pub proof fn lemma_fight_damage_ok(g: GameModel, a: CardId, d: CardId, ca: Card, cd: Card)
    requires
        game_wf(g),
        g.cards.contains_key(a),
        g.cards.contains_key(d),
    ensures
        step_ok(g, fight_damage(g, a, d, ca, cd)),
{
    let assault = x_value(ca.def.keywords@, Keyword::Assault(0));
    let hazardous = x_value(cd.def.keywords@, Keyword::Hazardous(0));
    lemma_damage_card_ok(g, d, assault);
    let s1 = if assault > 0 { damage_card(g, d, assault) } else { Some(g) };
    match s1 {
        Some(h) => {
            lemma_damage_card_ok(h, a, hazardous);
            let s2 = if hazardous > 0 { damage_card(h, a, hazardous) } else { Some(h) };
            match s2 {
                Some(h1) => {
                    lemma_damage_card_ok(h1, d, card_power(ca));
                    match damage_card(h1, d, card_power(ca)) {
                        Some(h2) => lemma_damage_card_ok(h2, a, card_power(cd)),
                        None => {},
                    }
                },
                None => {},
            }
        },
        None => {},
    }
}

pub proof fn lemma_fight_poison_ok(h: GameModel, a: CardId, d: CardId, hits: (bool, bool), ca: Card, cd: Card)
    requires
        game_wf(h),
        h.cards.contains_key(a),
        h.cards.contains_key(d),
    ensures
        game_wf(fight_poison(h, a, d, hits, ca, cd)),
        fight_poison(h, a, d, hits, ca, cd).cards.dom() == h.cards.dom(),
        fight_poison(h, a, d, hits, ca, cd).active_player == h.active_player,
        fight_poison(h, a, d, hits, ca, cd).sides == h.sides,
{
    lemma_poisoned_ok(h, d);
    let h4 = if card_has_keyword(ca, Keyword::Poison) && hits.0 { poisoned(h, d) } else { h };
    lemma_poisoned_ok(h4, a);
}

pub proof fn lemma_fight_splash_ok(h: GameModel, nbs: (Option<CardId>, Option<CardId>), splash: u32)
    requires
        game_wf(h),
    ensures
        step_ok(h, fight_splash(h, nbs, splash)),
{
    lemma_splash_one_ok(h, nbs.0, splash);
    match splash_one(h, nbs.0, splash) {
        Some(h1) => lemma_splash_one_ok(h1, nbs.1, splash),
        None => {},
    }
}

pub proof fn lemma_fight_loot_ok(h: GameModel, a: CardId, ca: Card)
    requires
        game_wf(h),
    ensures
        step_ok(h, fight_loot(h, a, ca)),
{
    lemma_capture_then_steal_ok(h, h.active_player, a, ca);
}

pub proof fn lemma_fight_after_ok(h: GameModel, a: CardId, d: CardId, ca: Card, cd: Card)
    requires
        game_wf(h),
    ensures
        step_ok(h, fight_after(h, a, d, ca, cd)),
{
    let pi = h.active_player;
    let di = other(pi);
    lemma_destroy_dead_ok(h);
    match destroy_dead_model(h) {
        None => {},
        Some(h9) => {
            lemma_effects_full_ok(h9, a, pi, ca.def.on_fight@);
            let s10 = if zones_of(h9, pi).battleline.contains(a) {
                effects_full(h9, a, pi, ca.def.on_fight@)
            } else {
                Some(h9)
            };
            match s10 {
                None => {},
                Some(h10) => {
                    lemma_effects_full_ok(h10, d, di, cd.def.on_fight@);
                    let s11 = if zones_of(h10, di).battleline.contains(d) {
                        effects_full(h10, d, di, cd.def.on_fight@)
                    } else {
                        Some(h10)
                    };
                    match s11 {
                        None => {},
                        Some(h11) => lemma_note_use_ok(h11, h11.cards[a].def.name@),
                    }
                },
            }
        },
    }
}

pub proof fn lemma_fight_ok(
    g: GameModel,
    a: CardId,
    d: CardId,
    ca: Card,
    cd: Card,
    nbs: (Option<CardId>, Option<CardId>),
)
    requires
        game_wf(g),
        g.cards.contains_key(a),
        g.cards.contains_key(d),
    ensures
        step_ok(g, fight_model(g, a, d, ca, cd, nbs)),
{
    lemma_fight_damage_ok(g, a, d, ca, cd);
    match fight_damage(g, a, d, ca, cd) {
        None => {},
        Some(h3) => {
            lemma_fight_poison_ok(h3, a, d, fight_hits(g, a, d, ca, cd), ca, cd);
            let h5 = fight_poison(h3, a, d, fight_hits(g, a, d, ca, cd), ca, cd);
            let splash = x_value(ca.def.keywords@, Keyword::SplashAttack(0));
            lemma_fight_splash_ok(h5, nbs, splash);
            match fight_splash(h5, nbs, splash) {
                None => {},
                Some(h6) => {
                    lemma_fight_loot_ok(h6, a, ca);
                    match fight_loot(h6, a, ca) {
                        None => {},
                        Some(h8) => lemma_fight_after_ok(h8, a, d, ca, cd),
                    }
                },
            }
        },
    }
}

pub proof fn lemma_attack_ok(g: GameModel, a: CardId, d: CardId)
    requires
        game_wf(g),
    ensures
        step_ok(g, attack_model(g, a, d)),
{
    if g.cards.contains_key(a) && g.cards.contains_key(d) {
        let ca = g.cards[a];
        let cd = g.cards[d];
        let nbs = neighbors_of(zones_of(g, other(g.active_player)).battleline, d);
        let g0 = with_card(g, a, Card { exhausted: true, ..ca });
        lemma_wf_with_card(g, a, Card { exhausted: true, ..ca });
        lemma_wf_with_card(g0, d, Card { elusive_used_this_turn: true, ..g0.cards[d] });
        let g1 = with_card(g0, d, Card { elusive_used_this_turn: true, ..g0.cards[d] });
        lemma_note_use_ok(g1, g1.cards[a].def.name@);
        lemma_fight_ok(g0, a, d, ca, cd, nbs);
    }
}

} // verus!

verus! {

pub proof fn lemma_ready_all_ok(g: GameModel, ids: Seq<CardId>)
    ensures
        game_wf(g) ==> game_wf(ready_all(g, ids)),
        ready_all(g, ids).cards.dom() == g.cards.dom(),
        ready_all(g, ids).active_player == g.active_player,
        ready_all(g, ids).sides == g.sides,
        ready_all(g, ids).turn == g.turn,
    decreases ids.len(),
{
    if ids.len() > 0 {
        lemma_ready_all_ok(g, ids.drop_last());
        let h = ready_all(g, ids.drop_last());
        let id = ids.last();
        if h.cards.contains_key(id) && game_wf(g) {
            lemma_wf_with_card(h, id, after_reset_turn(Card { exhausted: false, ..h.cards[id] }));
        }
    }
}

pub proof fn lemma_draw_until_in(z: ZonesView, max: nat, cards: Map<CardId, Card>)
    requires
        zones_in(z, cards),
    ensures
        zones_in(draw_until(z, max), cards),
    decreases z.deck.len() + z.discard.len(),
{
    if z.hand.len() < max {
        let (z1, r) = zones_after_draw(z);
        if r is Some {
            lemma_ids_in_draw(z, cards);
            lemma_draw_until_in(z1, max, cards);
        }
    }
}

pub proof fn lemma_end_turn_ok(g: GameModel)
    requires
        game_wf(g),
    ensures
        end_turn_model(g) matches Some(h) ==> game_wf(h) && h.cards.dom() == g.cards.dom(),
{
    let pi = g.active_player;
    let in_play = zones_of(g, pi).battleline + zones_of(g, pi).artifacts;
    lemma_ready_all_ok(g, in_play);
    let g1 = ready_all(g, in_play);
    let chains = g1.sides[pi as int].player.chains;
    let max_hand = if chain_penalty_of(chains) >= 6 { 0 } else { (6 - chain_penalty_of(chains)) as nat };
    lemma_draw_until_in(zones_of(g1, pi), max_hand, g1.cards);
    lemma_wf_with_zones(g1, pi, draw_until(zones_of(g1, pi), max_hand));
    let g2 = with_zones(g1, pi, draw_until(zones_of(g1, pi), max_hand));
    let g3 = with_player(g2, pi, PlayerModel { chains: (chains - 1) as u32, ..g2.sides[pi as int].player });
    assert(zones_of(g3, 0) == zones_of(g2, 0));
    assert(zones_of(g3, 1) == zones_of(g2, 1));
}

} // verus!

verus! {

/// Whether the card may be played now: no Omega lockout, the First Turn Rule allows
/// another card, Alpha allows it, and the Rule of Six is not reached.
pub open spec fn can_play_spec(g: GameModel, id: CardId) -> bool {
    let c = g.cards[id];
    &&& !g.omega_triggered
    &&& !(g.turn == 1 && g.active_player == g.first_player && g.cards_used_this_turn >= 1)
    &&& !(card_has_keyword(c, Keyword::Alpha) && g.cards_used_this_turn > 0)
    &&& uses_of(g, c.def.name@) < 6
}

/// Whether the card belongs to the active house, or has Versatile.
pub open spec fn is_active_house_spec(g: GameModel, id: CardId) -> bool {
    let c = g.cards[id];
    card_has_keyword(c, Keyword::Versatile) || match g.active_house {
        Some(h) => c.def.house == h || c.extra_houses@.contains(h),
        None => false,
    }
}

/// Whether the creature may reap: ready, not stunned, not enraged while enemies are
/// present, and the Rule of Six not reached.
pub open spec fn can_reap_spec(g: GameModel, id: CardId) -> bool {
    let c = g.cards[id];
    &&& !c.exhausted
    &&& !c.stun
    &&& !(c.enrage && zones_of(g, other(g.active_player)).battleline.len() > 0)
    &&& uses_of(g, c.def.name@) < 6
}

/// Whether the creature may fight: ready, not stunned, and the Rule of Six not reached.
pub open spec fn can_fight_spec(g: GameModel, id: CardId) -> bool {
    let c = g.cards[id];
    &&& !c.exhausted
    &&& !c.stun
    &&& uses_of(g, c.def.name@) < 6
}

/// Whether Taunt allows attacking `defender`: no enemy has Taunt, or the defender has
/// Taunt, or the defender stands on a flank.
pub open spec fn can_attack_spec(g: GameModel, defender: CardId) -> bool {
    let line = zones_of(g, other(g.active_player)).battleline;
    ||| !any_taunt(line, g.cards)
    ||| card_has_keyword(g.cards[defender], Keyword::Taunt)
    ||| left_flank_of(line) == Some(defender)
    ||| right_flank_of(line) == Some(defender)
}

} // verus!

verus! {

/// The zones of a player whose deck is `deck` and who holds nothing else.
pub open spec fn fresh_zones(deck: Seq<CardId>) -> ZonesView {
    ZonesView {
        deck: deck,
        hand: Seq::empty(),
        battleline: Seq::empty(),
        artifacts: Seq::empty(),
        discard: Seq::empty(),
        archives: Seq::empty(),
        purged: Seq::empty(),
    }
}

/// A player with no Aember, no forged key, no cost modifier and no chains.
pub open spec fn fresh_player() -> PlayerModel {
    PlayerModel { aember_pool: 0, keys: initial_keys(), key_cost_modifier: 0, chains: 0 }
}

/// A game before the setup draw: player 0 is active and goes first on turn 1.
pub open spec fn initial_model(p0: Seq<CardId>, p1: Seq<CardId>, cards: Map<CardId, Card>) -> GameModel {
    GameModel {
        sides: seq![
            SideModel { player: fresh_player(), zones: fresh_zones(p0) },
            SideModel { player: fresh_player(), zones: fresh_zones(p1) },
        ],
        cards: cards,
        active_player: 0,
        active_house: None,
        turn: 1,
        first_player: 0,
        cards_used_this_turn: 0,
        use_counts: Map::empty(),
        omega_triggered: false,
    }
}

/// A new game after the setup draw: the first player draws 7 cards, the second 6.
pub open spec fn new_game_model(p0: Seq<CardId>, p1: Seq<CardId>, cards: Map<CardId, Card>) -> GameModel {
    let g = initial_model(p0, p1, cards);
    let g1 = with_zones(g, 0, draw_n(zones_of(g, 0), 7));
    with_zones(g1, 1, draw_n(zones_of(g1, 1), 6))
}

/// Decks that name cards of the game, and cards whose numbers fit their types.
pub open spec fn setup_ok(p0: Seq<CardId>, p1: Seq<CardId>, cards: Map<CardId, Card>) -> bool {
    &&& ids_in(p0, cards)
    &&& ids_in(p1, cards)
    &&& forall|id: CardId| #[trigger] cards.contains_key(id) ==> card_ok(cards[id])
}

pub proof fn lemma_initial_ok(p0: Seq<CardId>, p1: Seq<CardId>, cards: Map<CardId, Card>)
    requires
        setup_ok(p0, p1, cards),
    ensures
        game_wf(initial_model(p0, p1, cards)),
        game_wf(new_game_model(p0, p1, cards)),
{
    let g = initial_model(p0, p1, cards);
    assert(initial_keys().len() == 3);
    assert(game_wf(g));
    lemma_ids_in_draw_n(zones_of(g, 0), 7, cards);
    lemma_wf_with_zones(g, 0, draw_n(zones_of(g, 0), 7));
    let g1 = with_zones(g, 0, draw_n(zones_of(g, 0), 7));
    lemma_ids_in_draw_n(zones_of(g1, 1), 6, cards);
    lemma_wf_with_zones(g1, 1, draw_n(zones_of(g1, 1), 6));
}

} // verus!
