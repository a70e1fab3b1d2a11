//! What attacking and playing a card do to the turn's bookkeeping and where a played card
//! lands.

use vstd::prelude::*;

use crate::card::{BonusIcon, Card, CardId, CardType, Effect, Keyword, card_has_keyword, card_is_destroyed};
use crate::model::{GameModel, add_card_aember, attack_model, capture_then_steal, damage_card, damage_each, dead_in, destroy_dead_model, destroy_list, destroy_one, effect_basic, effect_full, effects_basic, effects_full, fight_after, fight_damage, fight_model, fight_poison, fight_pre, fight_splash, icon_step, icons_model, min_int, note_use, other, play_card_model, play_zones, reap_model, poisoned, pool, receiving_side, splash_one, unstun_model, discard_model, chain_penalty_of, uses_of, with_card, with_pool, zones_of};
use crate::zones::{Flank, add_on_flank, remove_first, without};

verus! {

/// `h` differs from `g` at most in the sides, in Aember, damage and tokens on cards: the
/// turn's bookkeeping is the same, and every card keeps its definition and whether it is
/// exhausted.
spec fn same_turn(g: GameModel, h: GameModel) -> bool {
    &&& h.active_player == g.active_player
    &&& h.active_house == g.active_house
    &&& h.turn == g.turn
    &&& h.first_player == g.first_player
    &&& h.use_counts == g.use_counts
    &&& h.cards_used_this_turn == g.cards_used_this_turn
    &&& h.omega_triggered == g.omega_triggered
    &&& h.cards.dom() == g.cards.dom()
    &&& forall|id: CardId| #[trigger] h.cards.contains_key(id) ==> h.cards[id].def == g.cards[id].def
        && h.cards[id].exhausted == g.cards[id].exhausted
}

proof fn lemma_same_turn_trans(g: GameModel, h: GameModel, k: GameModel)
    requires
        same_turn(g, h),
        same_turn(h, k),
    ensures
        same_turn(g, k),
{
    assert forall|id: CardId| #[trigger] k.cards.contains_key(id) implies k.cards[id].def == g.cards[id].def
        && k.cards[id].exhausted == g.cards[id].exhausted by {
        assert(h.cards.contains_key(id));
    }
}

proof fn lemma_same_turn_card(g: GameModel, id: CardId, c: Card)
    requires
        g.cards.contains_key(id),
        c.def == g.cards[id].def,
        c.exhausted == g.cards[id].exhausted,
    ensures
        same_turn(g, with_card(g, id, c)),
{
    assert(with_card(g, id, c).cards.dom() =~= g.cards.dom());
}

proof fn lemma_add_aember_same_turn(g: GameModel, id: CardId, n: int)
    ensures
        add_card_aember(g, id, n) matches Some(h) ==> same_turn(g, h),
{
    if g.cards.contains_key(id) {
        lemma_same_turn_card(g, id, Card { aember: (g.cards[id].aember + n) as u32, ..g.cards[id] });
    }
}

proof fn lemma_damage_same_turn(g: GameModel, id: CardId, n: u32)
    ensures
        damage_card(g, id, n) matches Some(h) ==> same_turn(g, h),
{
    if damage_card(g, id, n) is Some {
        lemma_same_turn_card(g, id, crate::card::after_damage(g.cards[id], n));
    }
}

proof fn lemma_effect_basic_same_turn(g: GameModel, id: CardId, ctl: usize, e: Effect)
    ensures
        effect_basic(g, id, ctl, e) matches Some(h) ==> same_turn(g, h),
{
    let opp = other(ctl);
    match e {
        Effect::CaptureAember(n) => {
            let s = min_int(n as int, pool(g, opp) as int);
            let g1 = with_pool(g, opp, (pool(g, opp) - s) as u32);
            lemma_add_aember_same_turn(g1, id, s);
        },
        Effect::HealSelf(n) => {
            if g.cards.contains_key(id) {
                lemma_same_turn_card(g, id, crate::card::after_heal(g.cards[id], n));
            }
        },
        _ => {},
    }
}

proof fn lemma_effects_basic_same_turn(g: GameModel, id: CardId, ctl: usize, effs: Seq<Effect>)
    ensures
        effects_basic(g, id, ctl, effs) matches Some(h) ==> same_turn(g, h),
    decreases effs.len(),
{
    if effs.len() > 0 {
        lemma_effects_basic_same_turn(g, id, ctl, effs.drop_last());
        if let Some(g1) = effects_basic(g, id, ctl, effs.drop_last()) {
            lemma_effect_basic_same_turn(g1, id, ctl, effs.last());
            if let Some(h) = effect_basic(g1, id, ctl, effs.last()) {
                lemma_same_turn_trans(g, g1, h);
            }
        }
    }
}

proof fn lemma_destroy_one_same_turn(g: GameModel, pi: usize, id: CardId)
    requires
        g.cards.contains_key(id),
    ensures
        destroy_one(g, pi, id) matches Some(h) ==> same_turn(g, h),
{
    lemma_effects_basic_same_turn(g, id, pi, g.cards[id].def.on_destroyed@);
    if let Some(g1) = effects_basic(g, id, pi, g.cards[id].def.on_destroyed@) {
        let captured = g1.cards[id].aember;
        if captured > 0 {
            if let Some(g2) = crate::model::gain(g1, other(pi), captured as int) {
                lemma_same_turn_card(g2, id, Card { aember: 0, ..g1.cards[id] });
                lemma_same_turn_trans(g, g1, g2);
                lemma_same_turn_trans(g, g2, with_card(g2, id, Card { aember: 0, ..g1.cards[id] }));
            }
        }
    }
}

proof fn lemma_dead_in_keys(s: Seq<CardId>, cards: Map<CardId, Card>)
    ensures
        forall|k: int| 0 <= k < dead_in(s, cards).len() ==> cards.contains_key(#[trigger] dead_in(s, cards)[k]),
    decreases s.len(),
{
    if s.len() > 0 {
        lemma_dead_in_keys(s.drop_last(), cards);
        let rest = dead_in(s.drop_last(), cards);
        assert forall|k: int| 0 <= k < dead_in(s, cards).len() implies cards.contains_key(
            #[trigger] dead_in(s, cards)[k],
        ) by {
            if k < rest.len() {
                assert(dead_in(s, cards)[k] == rest[k]);
            }
        }
    }
}

proof fn lemma_destroy_list_same_turn(g: GameModel, pi: usize, ids: Seq<CardId>)
    requires
        forall|k: int| 0 <= k < ids.len() ==> g.cards.contains_key(#[trigger] ids[k]),
    ensures
        destroy_list(g, pi, ids) matches Some(h) ==> same_turn(g, h),
    decreases ids.len(),
{
    if ids.len() > 0 {
        assert forall|k: int| 0 <= k < ids.drop_last().len() implies g.cards.contains_key(
            #[trigger] ids.drop_last()[k],
        ) by {
            assert(ids.drop_last()[k] == ids[k]);
        }
        lemma_destroy_list_same_turn(g, pi, ids.drop_last());
        if let Some(g1) = destroy_list(g, pi, ids.drop_last()) {
            assert(g.cards.contains_key(ids[ids.len() - 1]));
            lemma_destroy_one_same_turn(g1, pi, ids.last());
            if let Some(h) = destroy_one(g1, pi, ids.last()) {
                lemma_same_turn_trans(g, g1, h);
            }
        }
    }
}

proof fn lemma_destroy_dead_same_turn(g: GameModel)
    ensures
        destroy_dead_model(g) matches Some(h) ==> same_turn(g, h),
{
    let d0 = dead_in(zones_of(g, 0).battleline, g.cards);
    lemma_dead_in_keys(zones_of(g, 0).battleline, g.cards);
    lemma_destroy_list_same_turn(g, 0, d0);
    if let Some(g1) = destroy_list(g, 0, d0) {
        let d1 = dead_in(zones_of(g1, 1).battleline, g1.cards);
        lemma_dead_in_keys(zones_of(g1, 1).battleline, g1.cards);
        lemma_destroy_list_same_turn(g1, 1, d1);
        if let Some(h) = destroy_list(g1, 1, d1) {
            lemma_same_turn_trans(g, g1, h);
        }
    }
}

proof fn lemma_damage_each_same_turn(g: GameModel, ids: Seq<CardId>, n: u32)
    ensures
        damage_each(g, ids, n) matches Some(h) ==> same_turn(g, h),
    decreases ids.len(),
{
    if ids.len() > 0 {
        lemma_damage_each_same_turn(g, ids.drop_last(), n);
        if let Some(g1) = damage_each(g, ids.drop_last(), n) {
            lemma_damage_same_turn(g1, ids.last(), n);
            if let Some(h) = damage_card(g1, ids.last(), n) {
                lemma_same_turn_trans(g, g1, h);
            }
        }
    }
}

proof fn lemma_effects_full_same_turn(g: GameModel, id: CardId, ctl: usize, effs: Seq<Effect>)
    ensures
        effects_full(g, id, ctl, effs) matches Some(h) ==> same_turn(g, h),
    decreases effs.len(),
{
    if effs.len() > 0 {
        lemma_effects_full_same_turn(g, id, ctl, effs.drop_last());
        if let Some(g1) = effects_full(g, id, ctl, effs.drop_last()) {
            let e = effs.last();
            match e {
                Effect::DealDamageToEachEnemy(n) => {
                    let bl = zones_of(g1, other(ctl)).battleline;
                    lemma_damage_each_same_turn(g1, bl, n);
                    if let Some(g2) = damage_each(g1, bl, n) {
                        lemma_destroy_dead_same_turn(g2);
                        if let Some(h) = destroy_dead_model(g2) {
                            lemma_same_turn_trans(g1, g2, h);
                        }
                    }
                },
                _ => {
                    lemma_effect_basic_same_turn(g1, id, ctl, e);
                },
            }
            if let Some(h) = effect_full(g1, id, ctl, e) {
                lemma_same_turn_trans(g, g1, h);
            }
        }
    }
}

proof fn lemma_icon_same_turn(g: GameModel, id: CardId, pi: usize, icon: BonusIcon)
    ensures
        icon_step(g, id, pi, icon) matches Some(h) ==> same_turn(g, h),
{
    let opp = other(pi);
    match icon {
        BonusIcon::Capture => {
            let n = min_int(1, pool(g, opp) as int);
            let g1 = with_pool(g, opp, (pool(g, opp) - n) as u32);
            let target = if g1.cards[id].def.card_type == CardType::Creature {
                Some(id)
            } else {
                crate::model::first_of(zones_of(g1, pi).battleline)
            };
            if let Some(t) = target {
                lemma_add_aember_same_turn(g1, t, n);
            }
        },
        BonusIcon::Damage => {
            let target = match crate::model::first_of(zones_of(g, opp).battleline) {
                Some(t) => Some(t),
                None => crate::model::first_of(zones_of(g, pi).battleline),
            };
            if let Some(t) = target {
                lemma_damage_same_turn(g, t, 1);
                if let Some(g1) = damage_card(g, t, 1) {
                    lemma_destroy_dead_same_turn(g1);
                    if let Some(h) = destroy_dead_model(g1) {
                        lemma_same_turn_trans(g, g1, h);
                    }
                }
            }
        },
        _ => {},
    }
}

proof fn lemma_icons_same_turn(g: GameModel, id: CardId, pi: usize, icons: Seq<BonusIcon>)
    ensures
        icons_model(g, id, pi, icons) matches Some(h) ==> same_turn(g, h),
    decreases icons.len(),
{
    if icons.len() > 0 {
        lemma_icons_same_turn(g, id, pi, icons.drop_last());
        if let Some(g1) = icons_model(g, id, pi, icons.drop_last()) {
            lemma_icon_same_turn(g1, id, pi, icons.last());
            if let Some(h) = icon_step(g1, id, pi, icons.last()) {
                lemma_same_turn_trans(g, g1, h);
            }
        }
    }
}

proof fn lemma_loot_same_turn(g: GameModel, ctl: usize, a: CardId, c: Card)
    ensures
        capture_then_steal(g, ctl, a, c) matches Some(h) ==> same_turn(g, h),
{
    let opp = other(ctl);
    if card_has_keyword(c, Keyword::Capture) {
        let n = min_int(1, pool(g, opp) as int);
        let g1 = with_pool(g, opp, (pool(g, opp) - n) as u32);
        lemma_add_aember_same_turn(g1, a, n);
        if let Some(g2) = crate::model::capture_one(g, ctl, a) {
            if let Some(h) = capture_then_steal(g, ctl, a, c) {
                lemma_same_turn_trans(g, g2, h);
            }
        }
    }
}

proof fn lemma_fight_damage_same_turn(g: GameModel, a: CardId, d: CardId, ca: Card, cd: Card)
    ensures
        fight_damage(g, a, d, ca, cd) matches Some(h) ==> same_turn(g, h),
{
    let assault = crate::model::x_value(ca.def.keywords@, Keyword::Assault(0));
    let hazardous = crate::model::x_value(cd.def.keywords@, Keyword::Hazardous(0));
    lemma_damage_same_turn(g, d, assault);
    let s1 = if assault > 0 { damage_card(g, d, assault) } else { Some(g) };
    if let Some(q) = s1 {
        lemma_damage_same_turn(q, a, hazardous);
        if let Some(p) = fight_pre(g, a, d, ca, cd) {
            lemma_same_turn_trans(g, q, p);
            lemma_damage_same_turn(p, d, crate::card::card_power(ca));
            if let Some(p2) = damage_card(p, d, crate::card::card_power(ca)) {
                lemma_damage_same_turn(p2, a, crate::card::card_power(cd));
                lemma_same_turn_trans(g, p, p2);
                if let Some(p3) = damage_card(p2, a, crate::card::card_power(cd)) {
                    lemma_same_turn_trans(g, p2, p3);
                }
            }
        }
    }
}

proof fn lemma_poisoned_same_turn(g: GameModel, id: CardId)
    requires
        g.cards.contains_key(id),
    ensures
        same_turn(g, poisoned(g, id)),
{
    let c = g.cards[id];
    if c.damage > 0 {
        lemma_same_turn_card(
            g,
            id,
            Card { damage: if crate::card::card_power(c) > 1 { crate::card::card_power(c) } else { 1 }, ..c },
        );
    }
}

proof fn lemma_fight_poison_same_turn(h: GameModel, a: CardId, d: CardId, hits: (bool, bool), ca: Card, cd: Card)
    requires
        h.cards.contains_key(a),
        h.cards.contains_key(d),
    ensures
        same_turn(h, fight_poison(h, a, d, hits, ca, cd)),
{
    lemma_poisoned_same_turn(h, d);
    let h4 = if card_has_keyword(ca, Keyword::Poison) && hits.0 { poisoned(h, d) } else { h };
    lemma_poisoned_same_turn(h4, a);
    lemma_same_turn_trans(h, h4, fight_poison(h, a, d, hits, ca, cd));
}

proof fn lemma_splash_same_turn(h: GameModel, nbs: (Option<CardId>, Option<CardId>), n: u32)
    ensures
        fight_splash(h, nbs, n) matches Some(k) ==> same_turn(h, k),
{
    if let Some(id0) = nbs.0 {
        lemma_damage_same_turn(h, id0, n);
    }
    if let Some(s1) = splash_one(h, nbs.0, n) {
        if let Some(id1) = nbs.1 {
            lemma_damage_same_turn(s1, id1, n);
        }
        if let Some(s2) = splash_one(s1, nbs.1, n) {
            lemma_same_turn_trans(h, s1, s2);
        }
    }
}

/// The last step of a fight, up to counting the attacker's use.
proof fn lemma_fight_after_same_turn(h8: GameModel, a: CardId, d: CardId, ca: Card, cd: Card)
    ensures
        fight_after(h8, a, d, ca, cd) matches Some(k) ==> exists|h11: GameModel|
            same_turn(h8, h11) && note_use(h11, h11.cards[a].def.name@) == Some(k),
{
    let pi = h8.active_player;
    let di = other(pi);
    lemma_destroy_dead_same_turn(h8);
    if let Some(h9) = destroy_dead_model(h8) {
        lemma_effects_full_same_turn(h9, a, pi, ca.def.on_fight@);
        let s10 = if zones_of(h9, pi).battleline.contains(a) {
            effects_full(h9, a, pi, ca.def.on_fight@)
        } else {
            Some(h9)
        };
        if let Some(h10) = s10 {
            lemma_same_turn_trans(h8, h9, h10);
            lemma_effects_full_same_turn(h10, d, di, cd.def.on_fight@);
            let s11 = if zones_of(h10, di).battleline.contains(d) {
                effects_full(h10, d, di, cd.def.on_fight@)
            } else {
                Some(h10)
            };
            if let Some(h11) = s11 {
                lemma_same_turn_trans(h8, h10, h11);
            }
        }
    }
}

proof fn lemma_fight_same_turn(
    g: GameModel,
    a: CardId,
    d: CardId,
    ca: Card,
    cd: Card,
    nbs: (Option<CardId>, Option<CardId>),
)
    requires
        g.cards.contains_key(a),
        g.cards.contains_key(d),
    ensures
        fight_model(g, a, d, ca, cd, nbs) matches Some(k) ==> exists|h11: GameModel|
            same_turn(g, h11) && note_use(h11, h11.cards[a].def.name@) == Some(k),
{
    lemma_fight_damage_same_turn(g, a, d, ca, cd);
    if let Some(h3) = fight_damage(g, a, d, ca, cd) {
        let hits = crate::model::fight_hits(g, a, d, ca, cd);
        let h5 = fight_poison(h3, a, d, hits, ca, cd);
        lemma_fight_poison_same_turn(h3, a, d, hits, ca, cd);
        lemma_same_turn_trans(g, h3, h5);
        let splash = crate::model::x_value(ca.def.keywords@, Keyword::SplashAttack(0));
        lemma_splash_same_turn(h5, nbs, splash);
        if let Some(h6) = fight_splash(h5, nbs, splash) {
            lemma_same_turn_trans(g, h5, h6);
            lemma_loot_same_turn(h6, h6.active_player, a, ca);
            if let Some(h8) = crate::model::fight_loot(h6, a, ca) {
                lemma_same_turn_trans(g, h6, h8);
                lemma_fight_after_same_turn(h8, a, d, ca, cd);
                if let Some(k) = fight_after(h8, a, d, ca, cd) {
                    let h11 = choose|h11: GameModel|
                        same_turn(h8, h11) && note_use(h11, h11.cards[a].def.name@) == Some(k);
                    lemma_same_turn_trans(g, h8, h11);
                }
            }
        }
    }
}

proof fn lemma_note_use(h: GameModel, name: Seq<char>)
    ensures
        note_use(h, name) matches Some(k) ==> {
            &&& k.cards == h.cards
            &&& k.cards_used_this_turn == h.cards_used_this_turn + 1
            &&& uses_of(k, name) == uses_of(h, name) + 1
            &&& forall|n: Seq<char>| n != name ==> uses_of(k, n) == uses_of(h, n)
            &&& k.active_player == h.active_player
            &&& k.active_house == h.active_house
            &&& k.turn == h.turn
            &&& k.omega_triggered == h.omega_triggered
        },
{
}

/// An attack exhausts the attacker and counts one use of its name and one card used this
/// turn, whether the defender's Elusive absorbs it or a fight follows; it keeps the active
/// player, the active house, the turn and the cards of the game.
pub proof fn law_attack_counts_one_use(g: GameModel, a: CardId, d: CardId)
    ensures
        attack_model(g, a, d) matches Some(h) ==> ({
            let name = g.cards[a].def.name@;
            &&& h.cards.contains_key(a)
            &&& h.cards[a].exhausted
            &&& h.cards_used_this_turn == g.cards_used_this_turn + 1
            &&& uses_of(h, name) == uses_of(g, name) + 1
            &&& forall|n: Seq<char>| n != name ==> uses_of(h, n) == uses_of(g, n)
            &&& h.active_player == g.active_player
            &&& h.active_house == g.active_house
            &&& h.turn == g.turn
            &&& h.cards.dom() == g.cards.dom()
        }),
{
    if g.cards.contains_key(a) && g.cards.contains_key(d) {
        let ca = g.cards[a];
        let cd = g.cards[d];
        let name = ca.def.name@;
        let nbs = crate::zones::neighbors_of(zones_of(g, other(g.active_player)).battleline, d);
        let g0 = with_card(g, a, Card { exhausted: true, ..ca });
        assert(g0.cards.dom() =~= g.cards.dom());
        if card_has_keyword(cd, Keyword::Elusive) && !cd.elusive_used_this_turn {
            let g1 = with_card(g0, d, Card { elusive_used_this_turn: true, ..g0.cards[d] });
            assert(g1.cards.dom() =~= g.cards.dom());
            lemma_note_use(g1, name);
        } else {
            lemma_fight_same_turn(g0, a, d, ca, cd, nbs);
            if let Some(k) = fight_model(g0, a, d, ca, cd, nbs) {
                let h11 = choose|h11: GameModel|
                    same_turn(g0, h11) && note_use(h11, h11.cards[a].def.name@) == Some(k);
                assert(h11.cards.contains_key(a));
                lemma_note_use(h11, name);
            }
        }
    }
}

/// Playing a card counts one use of its name and one card used this turn, and sets the
/// Omega lockout when the card has Omega; it keeps the active player, the house and the
/// turn. A card with no bonus icons and no Play effects lands where the rules put it: a
/// creature on the chosen flank and an artifact last among the artifacts of the player
/// who receives it (the opponent for Treachery), an action or upgrade last on the
/// player's discard pile; it leaves the hand, and Exalt puts one Aember on it.
pub proof fn law_play_card(g: GameModel, id: CardId, flank: Flank)
    requires
        zones_of(g, g.active_player).hand.contains(id),
        !zones_of(g, other(g.active_player)).hand.contains(id),
        g.sides.len() == 2,
        g.active_player < 2,
    ensures
        play_card_model(g, id, flank) matches Some(h) ==> ({
            let pi = g.active_player;
            let c = g.cards[id];
            let o = receiving_side(g, id);
            &&& h.cards_used_this_turn == g.cards_used_this_turn + 1
            &&& uses_of(h, c.def.name@) == uses_of(g, c.def.name@) + 1
            &&& h.omega_triggered == (g.omega_triggered || card_has_keyword(c, Keyword::Omega))
            &&& h.active_player == pi
            &&& h.active_house == g.active_house
            &&& h.turn == g.turn
            &&& c.def.bonus_icons@.len() == 0 && c.def.on_play@.len() == 0 ==> {
                &&& !zones_of(h, pi).hand.contains(id)
                &&& !zones_of(h, other(pi)).hand.contains(id)
                &&& c.def.card_type == CardType::Creature ==> zones_of(h, o).battleline == add_on_flank(
                    zones_of(g, o).battleline,
                    id,
                    flank,
                )
                &&& c.def.card_type == CardType::Artifact ==> zones_of(h, o).artifacts
                    == zones_of(g, o).artifacts.push(id)
                &&& c.def.card_type != CardType::Creature && c.def.card_type != CardType::Artifact
                    ==> zones_of(h, pi).discard == zones_of(g, pi).discard.push(id)
                &&& h.cards[id].aember == g.cards[id].aember + if card_has_keyword(c, Keyword::Exalt) {
                    1int
                } else {
                    0
                }
            }
        }),
{
    if g.cards.contains_key(id) {
        let pi = g.active_player;
        let p = play_zones(g, id, flank);
        assert(p.cards == g.cards);
        lemma_icons_same_turn(p, id, pi, p.cards[id].def.bonus_icons@);
        if let Some(g1) = icons_model(p, id, pi, p.cards[id].def.bonus_icons@) {
            let g2 = if card_has_keyword(g1.cards[id], Keyword::Exalt) {
                add_card_aember(g1, id, 1)
            } else {
                Some(g1)
            };
            lemma_add_aember_same_turn(g1, id, 1);
            if let Some(g3) = g2 {
                lemma_same_turn_trans(p, g1, g3);
                lemma_effects_full_same_turn(g3, id, pi, g3.cards[id].def.on_play@);
                if let Some(g4) = effects_full(g3, id, pi, g3.cards[id].def.on_play@) {
                    lemma_same_turn_trans(p, g3, g4);
                    assert(g4.cards.contains_key(id));
                }
            }
        }
        crate::zones::lemma_without_contents(zones_of(g, pi).hand, id);
    }
}

/// Unstunning a creature removes its stun and exhausts it, and counts one use of its name
/// and one card used this turn; nothing else changes.
pub proof fn law_unstun(g: GameModel, id: CardId)
    ensures
        unstun_model(g, id) matches Some(h) ==> ({
            let name = g.cards[id].def.name@;
            &&& !h.cards[id].stun
            &&& h.cards[id].exhausted
            &&& h.cards_used_this_turn == g.cards_used_this_turn + 1
            &&& uses_of(h, name) == uses_of(g, name) + 1
            &&& h.sides == g.sides
            &&& h.cards.dom() == g.cards.dom()
            &&& forall|other_id: CardId| other_id != id && #[trigger] g.cards.contains_key(other_id)
                ==> h.cards[other_id] == g.cards[other_id]
        }),
{
    if g.cards.contains_key(id) {
        let g1 = with_card(g, id, Card { stun: false, exhausted: true, ..g.cards[id] });
        assert(g1.cards.dom() =~= g.cards.dom());
        lemma_note_use(g1, g.cards[id].def.name@);
    }
}

/// Discarding a card from the active player's hand moves it to the end of their discard
/// pile, keeps the rest of the hand in order, and counts one use of its name and one card
/// used this turn.
pub proof fn law_discard_from_hand(g: GameModel, id: CardId)
    requires
        g.sides.len() == 2,
        g.active_player < 2,
    ensures
        discard_model(g, id) matches Some(h) ==> ({
            let pi = g.active_player;
            let name = g.cards[id].def.name@;
            &&& zones_of(h, pi).hand == without(zones_of(g, pi).hand, id)
            &&& !zones_of(h, pi).hand.contains(id)
            &&& zones_of(h, pi).discard == zones_of(g, pi).discard.push(id)
            &&& h.cards_used_this_turn == g.cards_used_this_turn + 1
            &&& uses_of(h, name) == uses_of(g, name) + 1
            &&& h.cards == g.cards
        }),
{
    crate::zones::lemma_without_contents(zones_of(g, g.active_player).hand, id);
}

/// The chain penalty is 0 without chains, 1 for up to six, 2 for up to twelve, 3 for up to
/// eighteen and 4 beyond; it never falls as chains grow.
pub proof fn law_chain_penalty(c1: u32, c2: u32)
    ensures
        chain_penalty_of(c1) <= 4,
        c1 <= c2 ==> chain_penalty_of(c1) <= chain_penalty_of(c2),
        chain_penalty_of(0) == 0,
        chain_penalty_of(6) == 1,
        chain_penalty_of(7) == 2,
        chain_penalty_of(12) == 2,
        chain_penalty_of(13) == 3,
        chain_penalty_of(18) == 3,
        chain_penalty_of(19) == 4,
{
}

/// The creatures that leave play after damage are exactly those on the battleline that are
/// destroyed (damage at least their power) and not Invulnerable.
pub proof fn law_dead_creatures(s: Seq<CardId>, cards: Map<CardId, Card>)
    ensures
        forall|x: CardId| #[trigger] dead_in(s, cards).contains(x) <==> s.contains(x) && cards.contains_key(x)
            && card_is_destroyed(cards[x]) && !card_has_keyword(cards[x], Keyword::Invulnerable),
    decreases s.len(),
{
    if s.len() > 0 {
        law_dead_creatures(s.drop_last(), cards);
        let rest = dead_in(s.drop_last(), cards);
        let y = s.last();
        let d = dead_in(s, cards);
        assert(s =~= s.drop_last().push(y));
        lemma_push_contains(s.drop_last(), y);
        lemma_push_contains(rest, y);
        assert(d == rest.push(y) || d == rest);
    }
}

proof fn lemma_push_contains(s: Seq<CardId>, y: CardId)
    ensures
        forall|x: CardId| #[trigger] s.push(y).contains(x) <==> s.contains(x) || x == y,
{
    assert forall|x: CardId| #[trigger] s.push(y).contains(x) <==> s.contains(x) || x == y by {
        if s.push(y).contains(x) && x != y {
            let k = choose|k: int| 0 <= k < s.push(y).len() && s.push(y)[k] == x;
            assert(k < s.len());
            assert(s[k] == x);
        }
        if s.contains(x) {
            let k = choose|k: int| 0 <= k < s.len() && s[k] == x;
            assert(s.push(y)[k] == x);
        }
        if x == y {
            assert(s.push(y)[s.len() as int] == x);
        }
    }
}

/// A destroyed creature with no Destroyed effects leaves its battleline for the end of its
/// owner's discard pile; the Aember on it goes to the opponent's pool and the card keeps
/// none. The opponent's zones are not touched.
pub proof fn law_destroyed_creature_leaves_play(g: GameModel, pi: usize, id: CardId)
    requires
        g.sides.len() == 2,
        pi < 2,
        g.cards.contains_key(id),
        g.cards[id].def.on_destroyed@.len() == 0,
        zones_of(g, pi).battleline.contains(id),
    ensures
        destroy_one(g, pi, id) matches Some(h) ==> {
            &&& zones_of(h, pi).battleline == remove_first(zones_of(g, pi).battleline, id)
            &&& zones_of(h, pi).discard == zones_of(g, pi).discard.push(id)
            &&& zones_of(h, other(pi)) == zones_of(g, other(pi))
            &&& h.cards[id].aember == 0
            &&& pool(h, other(pi)) == pool(g, other(pi)) + g.cards[id].aember
            &&& pool(h, pi) == pool(g, pi)
        },
{
}

/// Reaping exhausts the creature and counts one use of its name and one card used this
/// turn (Rule of Six, Alpha); it keeps the active player, the house and the turn. A creature
/// with no Capture, no Steal and no Reap effects just gains its player one Aember.
pub proof fn law_reap_counts_one_use(g: GameModel, id: CardId)
    requires
        g.sides.len() == 2,
        g.active_player < 2,
    ensures
        reap_model(g, id) matches Some(h) ==> ({
            let name = g.cards[id].def.name@;
            let pi = g.active_player;
            let c = g.cards[id];
            &&& h.cards.contains_key(id)
            &&& h.cards[id].exhausted
            &&& h.cards_used_this_turn == g.cards_used_this_turn + 1
            &&& uses_of(h, name) == uses_of(g, name) + 1
            &&& forall|n: Seq<char>| n != name ==> uses_of(h, n) == uses_of(g, n)
            &&& h.active_player == pi
            &&& h.active_house == g.active_house
            &&& h.turn == g.turn
            &&& h.cards.dom() == g.cards.dom()
            &&& !card_has_keyword(c, Keyword::Capture) && !card_has_keyword(c, Keyword::Steal)
                && c.def.on_reap@.len() == 0 ==> pool(h, pi) == pool(g, pi) + 1 && pool(h, other(pi))
                == pool(g, other(pi))
        }),
{
    if g.cards.contains_key(id) {
        let pi = g.active_player;
        let g0 = with_card(g, id, Card { exhausted: true, ..g.cards[id] });
        assert(g0.cards.dom() =~= g.cards.dom());
        if let Some(g1) = crate::model::gain(g0, pi, 1) {
            assert(same_turn(g0, g1));
            lemma_loot_same_turn(g1, pi, id, g1.cards[id]);
            if let Some(g5) = capture_then_steal(g1, pi, id, g1.cards[id]) {
                lemma_same_turn_trans(g0, g1, g5);
                lemma_effects_full_same_turn(g5, id, pi, g5.cards[id].def.on_reap@);
                if let Some(g6) = effects_full(g5, id, pi, g5.cards[id].def.on_reap@) {
                    lemma_same_turn_trans(g0, g5, g6);
                    assert(g6.cards.contains_key(id));
                    lemma_note_use(g6, g.cards[id].def.name@);
                }
            }
        }
    }
}

} // verus!
