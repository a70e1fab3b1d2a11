//! What a fight deals, what a Play effect leaves alone, what ending a turn keeps, and when
//! a card may be played.

use vstd::prelude::*;

use crate::card::{Card, CardId, Effect, Keyword, after_damage, card_has_keyword, card_is_destroyed, card_power, damage_fits};
use crate::model::{GameModel, can_fight_spec, can_play_spec, can_reap_spec, damage_card, damage_each, dead_in, destroy_dead_model, destroy_list, destroy_one, draw_n, effect_basic, effect_full, effects_basic, end_turn_model, fight_damage, fight_poison, fight_pre, other, ready_all, uses_of, with_card, x_value, zones_of};
use crate::zones::ZonesView;

verus! {

// ---------------------------------------------------------------------------------------
// The exchange of power damage.

/// In a fight whose defender survives the damage dealt before the fight, the attacker deals
/// its power to the defender and, unless it has Skirmish, the defender deals its power back
/// to the attacker at the same time, whether or not the attacker's blow destroyed it; each
/// blow goes through ward and armor. A defender already destroyed before the fight deals
/// and takes nothing more. The exchange fails only where a damage total would overflow.
pub proof fn law_fight_exchange(g: GameModel, a: CardId, d: CardId, ca: Card, cd: Card)
    requires
        a != d,
        g.cards.contains_key(a),
        g.cards.contains_key(d),
    ensures
        fight_pre(g, a, d, ca, cd) matches Some(p) ==> {
            &&& card_is_destroyed(p.cards[d]) ==> fight_damage(g, a, d, ca, cd) == Some(p)
            &&& !card_is_destroyed(p.cards[d]) ==> {
                let hit_d = after_damage(p.cards[d], card_power(ca));
                let hit_a = if card_has_keyword(ca, Keyword::Skirmish) {
                    p.cards[a]
                } else {
                    after_damage(p.cards[a], card_power(cd))
                };
                &&& fight_damage(g, a, d, ca, cd) matches Some(h) ==> {
                    &&& h.cards[d] == hit_d
                    &&& h.cards[a] == hit_a
                    &&& h.cards.dom() == g.cards.dom()
                    &&& h.sides == g.sides
                }
                &&& damage_fits(p.cards[d], card_power(ca)) && (card_has_keyword(ca, Keyword::Skirmish)
                    || damage_fits(p.cards[a], card_power(cd))) ==> fight_damage(g, a, d, ca, cd) is Some
            }
        },
{
    let assault = crate::model::x_value(ca.def.keywords@, Keyword::Assault(0));
    let hazardous = crate::model::x_value(cd.def.keywords@, Keyword::Hazardous(0));
    if let Some(p) = fight_pre(g, a, d, ca, cd) {
        let s1 = if assault > 0 { damage_card(g, d, assault) } else { Some(g) };
        if let Some(q) = s1 {
            assert(q.cards.dom() =~= g.cards.dom());
            assert(p.cards.dom() =~= g.cards.dom());
            if let Some(p2) = damage_card(p, d, card_power(ca)) {
                assert(p2.cards.dom() =~= g.cards.dom());
                assert(p2.cards[a] == p.cards[a]);
                if let Some(p3) = damage_card(p2, a, card_power(cd)) {
                    assert(p3.cards.dom() =~= g.cards.dom());
                    assert(p3.cards[d] == p2.cards[d]);
                }
            }
        }
    }
}

/// Before the fight, Assault X deals X to the defender and then Hazardous X deals X to the
/// attacker, each through ward and armor; without these keywords nothing is dealt.
pub proof fn law_damage_before_the_fight(g: GameModel, a: CardId, d: CardId, ca: Card, cd: Card)
    requires
        a != d,
        g.cards.contains_key(a),
        g.cards.contains_key(d),
    ensures
        fight_pre(g, a, d, ca, cd) matches Some(p) ==> {
            let assault = x_value(ca.def.keywords@, Keyword::Assault(0));
            let hazardous = x_value(cd.def.keywords@, Keyword::Hazardous(0));
            &&& p.cards[d] == if assault > 0 { after_damage(g.cards[d], assault) } else { g.cards[d] }
            &&& p.cards[a] == if hazardous > 0 { after_damage(g.cards[a], hazardous) } else { g.cards[a] }
            &&& p.cards.dom() == g.cards.dom()
            &&& forall|x: CardId| x != a && x != d && #[trigger] g.cards.contains_key(x) ==> p.cards[x] == g.cards[x]
            &&& p.sides == g.sides
        },
{
    let assault = x_value(ca.def.keywords@, Keyword::Assault(0));
    if let Some(p) = fight_pre(g, a, d, ca, cd) {
        let s1 = if assault > 0 { damage_card(g, d, assault) } else { Some(g) };
        if let Some(q) = s1 {
            assert(q.cards.dom() =~= g.cards.dom());
            assert(p.cards.dom() =~= g.cards.dom());
        }
    }
}

/// Poison: a creature that the power of a Poison creature damaged in the exchange ends
/// the fight destroyed; a creature that was not so damaged is left as it was, and no other
/// card changes.
pub proof fn law_poison(h: GameModel, a: CardId, d: CardId, hits: (bool, bool), ca: Card, cd: Card)
    requires
        a != d,
        h.cards.contains_key(a),
        h.cards.contains_key(d),
    ensures
        ({
            let r = fight_poison(h, a, d, hits, ca, cd);
            &&& card_has_keyword(ca, Keyword::Poison) && hits.0 && h.cards[d].damage > 0 ==> card_is_destroyed(r.cards[d])
            &&& !(card_has_keyword(ca, Keyword::Poison) && hits.0) ==> r.cards[d] == h.cards[d]
            &&& card_has_keyword(cd, Keyword::Poison) && hits.1 && h.cards[a].damage > 0 ==> card_is_destroyed(r.cards[a])
            &&& !(card_has_keyword(cd, Keyword::Poison) && hits.1) ==> r.cards[a] == h.cards[a]
            &&& r.cards.dom() == h.cards.dom()
            &&& forall|x: CardId| x != a && x != d && #[trigger] h.cards.contains_key(x) ==> r.cards[x] == h.cards[x]
            &&& r.sides == h.sides
        }),
{
    let h4 = if card_has_keyword(ca, Keyword::Poison) && hits.0 { crate::model::poisoned(h, d) } else { h };
    assert(h4.cards.dom() =~= h.cards.dom());
    let r = fight_poison(h, a, d, hits, ca, cd);
    assert(r.cards.dom() =~= h.cards.dom());
    assert(r.cards[d] == h4.cards[d]);
}

// ---------------------------------------------------------------------------------------
// A Play effect that damages each enemy creature leaves the controller's side alone.

/// Player `q`'s battleline and the cards on it are as they were, and there are still two
/// sides.
spec fn side_kept(g: GameModel, h: GameModel, q: usize) -> bool {
    &&& h.sides.len() == 2
    &&& zones_of(h, q).battleline == zones_of(g, q).battleline
    &&& forall|x: CardId| #[trigger] zones_of(g, q).battleline.contains(x) ==> h.cards.contains_key(x)
        == g.cards.contains_key(x) && h.cards[x] == g.cards[x]
}

proof fn lemma_side_kept_trans(g: GameModel, h: GameModel, k: GameModel, q: usize)
    requires
        side_kept(g, h, q),
        side_kept(h, k, q),
    ensures
        side_kept(g, k, q),
{
}

proof fn lemma_side_kept_card(g: GameModel, id: CardId, c: Card, q: usize)
    requires
        g.sides.len() == 2,
        !zones_of(g, q).battleline.contains(id),
    ensures
        side_kept(g, with_card(g, id, c), q),
{
}

proof fn lemma_draw_n_battleline(z: ZonesView, n: nat)
    ensures
        draw_n(z, n).battleline == z.battleline,
    decreases n,
{
    if n > 0 {
        lemma_draw_n_battleline(z, (n - 1) as nat);
    }
}

proof fn lemma_effect_basic_side(g: GameModel, id: CardId, p: usize, e: Effect, q: usize)
    requires
        g.sides.len() == 2,
        p < 2,
        q < 2,
        !zones_of(g, q).battleline.contains(id),
    ensures
        effect_basic(g, id, p, e) matches Some(h) ==> side_kept(g, h, q),
{
    let opp = other(p);
    match e {
        Effect::CaptureAember(n) => {
            let s = crate::model::min_int(n as int, crate::model::pool(g, opp) as int);
            let g1 = crate::model::with_pool(g, opp, (crate::model::pool(g, opp) - s) as u32);
            assert(side_kept(g, g1, q));
            if g1.cards.contains_key(id) && g1.cards[id].aember + s <= u32::MAX {
                lemma_side_kept_card(g1, id, Card { aember: (g1.cards[id].aember + s) as u32, ..g1.cards[id] }, q);
            }
        },
        Effect::StealAember(n) => {
            let s = crate::model::min_int(n as int, crate::model::pool(g, opp) as int);
            let g1 = crate::model::with_pool(g, opp, (crate::model::pool(g, opp) - s) as u32);
            assert(side_kept(g, g1, q));
        },
        Effect::DrawCards(n) => {
            lemma_draw_n_battleline(zones_of(g, p), n as nat);
        },
        Effect::HealSelf(n) => {
            if g.cards.contains_key(id) {
                lemma_side_kept_card(g, id, crate::card::after_heal(g.cards[id], n), q);
            }
        },
        _ => {},
    }
}

proof fn lemma_effects_basic_side(g: GameModel, id: CardId, p: usize, effs: Seq<Effect>, q: usize)
    requires
        g.sides.len() == 2,
        p < 2,
        q < 2,
        !zones_of(g, q).battleline.contains(id),
    ensures
        effects_basic(g, id, p, effs) matches Some(h) ==> side_kept(g, h, q),
    decreases effs.len(),
{
    if effs.len() > 0 {
        lemma_effects_basic_side(g, id, p, effs.drop_last(), q);
        if let Some(g1) = effects_basic(g, id, p, effs.drop_last()) {
            lemma_effect_basic_side(g1, id, p, effs.last(), q);
            if let Some(h) = effect_basic(g1, id, p, effs.last()) {
                lemma_side_kept_trans(g, g1, h, q);
            }
        }
    }
}

proof fn lemma_destroy_one_side(g: GameModel, p: usize, id: CardId, q: usize)
    requires
        g.sides.len() == 2,
        p < 2,
        q < 2,
        p != q,
        !zones_of(g, q).battleline.contains(id),
    ensures
        destroy_one(g, p, id) matches Some(h) ==> side_kept(g, h, q),
{
    lemma_effects_basic_side(g, id, p, g.cards[id].def.on_destroyed@, q);
    if let Some(g1) = effects_basic(g, id, p, g.cards[id].def.on_destroyed@) {
        let captured = g1.cards[id].aember;
        if captured > 0 {
            if let Some(g2) = crate::model::gain(g1, other(p), captured as int) {
                assert(side_kept(g1, g2, q));
                lemma_side_kept_card(g2, id, Card { aember: 0, ..g1.cards[id] }, q);
                lemma_side_kept_trans(g, g1, g2, q);
                lemma_side_kept_trans(g, g2, with_card(g2, id, Card { aember: 0, ..g1.cards[id] }), q);
            }
        }
    }
}

proof fn lemma_destroy_list_side(g: GameModel, p: usize, ids: Seq<CardId>, q: usize)
    requires
        g.sides.len() == 2,
        p < 2,
        q < 2,
        p != q,
        forall|k: int| 0 <= k < ids.len() ==> !zones_of(g, q).battleline.contains(#[trigger] ids[k]),
    ensures
        destroy_list(g, p, ids) matches Some(h) ==> side_kept(g, h, q),
    decreases ids.len(),
{
    if ids.len() > 0 {
        assert forall|k: int| 0 <= k < ids.drop_last().len() implies !zones_of(g, q).battleline.contains(
            #[trigger] ids.drop_last()[k],
        ) by {
            assert(ids.drop_last()[k] == ids[k]);
        }
        lemma_destroy_list_side(g, p, ids.drop_last(), q);
        if let Some(g1) = destroy_list(g, p, ids.drop_last()) {
            assert(!zones_of(g, q).battleline.contains(ids[ids.len() - 1]));
            lemma_destroy_one_side(g1, p, ids.last(), q);
            if let Some(h) = destroy_one(g1, p, ids.last()) {
                lemma_side_kept_trans(g, g1, h, q);
            }
        }
    }
}

proof fn lemma_damage_each_side(g: GameModel, ids: Seq<CardId>, n: u32, q: usize)
    requires
        g.sides.len() == 2,
        forall|k: int| 0 <= k < ids.len() ==> !zones_of(g, q).battleline.contains(#[trigger] ids[k]),
    ensures
        damage_each(g, ids, n) matches Some(h) ==> side_kept(g, h, q) && h.sides == g.sides,
    decreases ids.len(),
{
    if ids.len() > 0 {
        assert forall|k: int| 0 <= k < ids.drop_last().len() implies !zones_of(g, q).battleline.contains(
            #[trigger] ids.drop_last()[k],
        ) by {
            assert(ids.drop_last()[k] == ids[k]);
        }
        lemma_damage_each_side(g, ids.drop_last(), n, q);
        if let Some(g1) = damage_each(g, ids.drop_last(), n) {
            let t = ids.last();
            assert(!zones_of(g, q).battleline.contains(ids[ids.len() - 1]));
            if let Some(h) = damage_card(g1, t, n) {
                lemma_side_kept_card(g1, t, after_damage(g1.cards[t], n), q);
                lemma_side_kept_trans(g, g1, h, q);
            }
        }
    }
}

proof fn lemma_dead_in_agree(s: Seq<CardId>, c1: Map<CardId, Card>, c2: Map<CardId, Card>)
    requires
        forall|x: CardId| #[trigger] s.contains(x) ==> c1.contains_key(x) == c2.contains_key(x) && c1[x] == c2[x],
    ensures
        dead_in(s, c1) == dead_in(s, c2),
    decreases s.len(),
{
    if s.len() > 0 {
        assert forall|x: CardId| #[trigger] s.drop_last().contains(x) implies c1.contains_key(x)
            == c2.contains_key(x) && c1[x] == c2[x] by {
            let k = choose|k: int| 0 <= k < s.drop_last().len() && s.drop_last()[k] == x;
            assert(s[k] == x);
            assert(s.contains(x));
        }
        lemma_dead_in_agree(s.drop_last(), c1, c2);
        assert(s[s.len() - 1] == s.last());
        assert(s.contains(s.last()));
    }
}

proof fn lemma_dead_in_within(s: Seq<CardId>, cards: Map<CardId, Card>)
    ensures
        forall|k: int| 0 <= k < dead_in(s, cards).len() ==> s.contains(#[trigger] dead_in(s, cards)[k]),
    decreases s.len(),
{
    if s.len() > 0 {
        lemma_dead_in_within(s.drop_last(), cards);
        let rest = dead_in(s.drop_last(), cards);
        assert forall|k: int| 0 <= k < dead_in(s, cards).len() implies s.contains(#[trigger] dead_in(s, cards)[k]) by {
            if k < rest.len() {
                assert(dead_in(s, cards)[k] == rest[k]);
                let j = choose|j: int| 0 <= j < s.drop_last().len() && s.drop_last()[j] == rest[k];
                assert(s[j] == rest[k]);
            } else {
                assert(dead_in(s, cards)[k] == s[s.len() - 1]);
            }
        }
    }
}

/// Destroying dead creatures when none of player `q`'s creatures is destroyed and the other
/// player's battleline shares no card with `q`'s leaves `q`'s side alone.
proof fn lemma_destroy_dead_side(g: GameModel, q: usize)
    requires
        g.sides.len() == 2,
        q < 2,
        dead_in(zones_of(g, q).battleline, g.cards).len() == 0,
        forall|x: CardId| #[trigger] zones_of(g, q).battleline.contains(x) ==> !zones_of(g, other(q)).battleline.contains(x),
    ensures
        destroy_dead_model(g) matches Some(h) ==> side_kept(g, h, q),
{
    let o = other(q);
    let d0 = dead_in(zones_of(g, 0).battleline, g.cards);
    if q == 0 {
        assert(destroy_list(g, 0, d0) == Some(g));
        let d1 = dead_in(zones_of(g, 1).battleline, g.cards);
        lemma_dead_in_within(zones_of(g, 1).battleline, g.cards);
        lemma_destroy_list_side(g, 1, d1, 0);
    } else {
        lemma_dead_in_within(zones_of(g, 0).battleline, g.cards);
        lemma_destroy_list_side(g, 0, d0, 1);
        if let Some(g1) = destroy_list(g, 0, d0) {
            lemma_dead_in_agree(zones_of(g, 1).battleline, g.cards, g1.cards);
            let d1 = dead_in(zones_of(g1, 1).battleline, g1.cards);
            assert(destroy_list(g1, 1, d1) == Some(g1));
        }
    }
}

/// An effect that damages each enemy creature, applied for player `ctl`, leaves `ctl`'s
/// battleline and every card on it as they were, provided none of `ctl`'s creatures is
/// already destroyed and the two battlelines share no card: only the opponent's creatures
/// are damaged, and only they can leave play.
pub proof fn law_enemy_damage_spares_own_side(g: GameModel, id: CardId, ctl: usize, n: u32)
    requires
        g.sides.len() == 2,
        ctl < 2,
        dead_in(zones_of(g, ctl).battleline, g.cards).len() == 0,
        forall|x: CardId| #[trigger] zones_of(g, ctl).battleline.contains(x) ==> !zones_of(g, other(ctl)).battleline.contains(x),
    ensures
        effect_full(g, id, ctl, Effect::DealDamageToEachEnemy(n)) matches Some(h) ==> {
            &&& zones_of(h, ctl).battleline == zones_of(g, ctl).battleline
            &&& forall|x: CardId| #[trigger] zones_of(g, ctl).battleline.contains(x) ==> h.cards[x] == g.cards[x]
        },
{
    let enemies = zones_of(g, other(ctl)).battleline;
    assert forall|k: int| 0 <= k < enemies.len() implies !zones_of(g, ctl).battleline.contains(#[trigger] enemies[k]) by {
        if zones_of(g, ctl).battleline.contains(enemies[k]) {
            assert(enemies.contains(enemies[k]));
        }
    }
    lemma_damage_each_side(g, enemies, n, ctl);
    if let Some(g1) = damage_each(g, enemies, n) {
        lemma_dead_in_agree(zones_of(g, ctl).battleline, g.cards, g1.cards);
        lemma_destroy_dead_side(g1, ctl);
        if let Some(h) = destroy_dead_model(g1) {
            lemma_side_kept_trans(g, g1, h, ctl);
        }
    }
}

// ---------------------------------------------------------------------------------------
// Ending a turn.

proof fn lemma_ready_all_keeps(g: GameModel, ids: Seq<CardId>)
    ensures
        ready_all(g, ids).cards.dom() == g.cards.dom(),
        ready_all(g, ids).sides == g.sides,
        forall|id: CardId| #[trigger] g.cards.contains_key(id) ==> {
            let c = g.cards[id];
            let c2 = ready_all(g, ids).cards[id];
            &&& c2.id == c.id
            &&& c2.def == c.def
            &&& c2.damage == c.damage
            &&& c2.aember == c.aember
            &&& c2.upgrades == c.upgrades
            &&& c2.stun == c.stun
            &&& c2.ward == c.ward
            &&& c2.enrage == c.enrage
            &&& c2.power_counters == c.power_counters
            &&& c2.armor_bonus == c.armor_bonus
            &&& c2.extra_houses == c.extra_houses
            &&& (c2.exhausted != c.exhausted || c2.armor_used_this_turn != c.armor_used_this_turn
                || c2.elusive_used_this_turn != c.elusive_used_this_turn) ==> ids.contains(id)
        },
    decreases ids.len(),
{
    if ids.len() > 0 {
        lemma_ready_all_keeps(g, ids.drop_last());
        let h = ready_all(g, ids.drop_last());
        assert(ready_all(g, ids).cards.dom() =~= g.cards.dom());
        assert forall|id: CardId| #[trigger] g.cards.contains_key(id) implies {
            let c = g.cards[id];
            let c2 = ready_all(g, ids).cards[id];
            (c2.exhausted != c.exhausted || c2.armor_used_this_turn != c.armor_used_this_turn
                || c2.elusive_used_this_turn != c.elusive_used_this_turn) ==> ids.contains(id)
        } by {
            if ids.drop_last().contains(id) {
                let k = choose|k: int| 0 <= k < ids.drop_last().len() && ids.drop_last()[k] == id;
                assert(ids[k] == id);
            }
            assert(ids[ids.len() - 1] == ids.last());
        }
    }
}

/// Ending a turn heals nothing and moves no Aember or token: every card keeps its damage,
/// Aember, stun, ward, enrage, counters and upgrades; only the ending player's cards in play
/// change, and only in being exhausted and in their per-turn armor and Elusive use.
pub proof fn law_end_turn_keeps_cards(g: GameModel)
    ensures
        end_turn_model(g) matches Some(h) ==> {
            &&& h.cards.dom() == g.cards.dom()
            &&& forall|id: CardId| #[trigger] g.cards.contains_key(id) ==> {
                let c = g.cards[id];
                let c2 = h.cards[id];
                let in_play = zones_of(g, g.active_player).battleline + zones_of(g, g.active_player).artifacts;
                &&& c2.def == c.def
                &&& c2.damage == c.damage
                &&& c2.aember == c.aember
                &&& c2.upgrades == c.upgrades
                &&& c2.stun == c.stun
                &&& c2.ward == c.ward
                &&& c2.enrage == c.enrage
                &&& c2.power_counters == c.power_counters
                &&& c2.armor_bonus == c.armor_bonus
                &&& c2.extra_houses == c.extra_houses
                &&& !in_play.contains(id) ==> c2 == c
            }
        },
{
    let pi = g.active_player;
    let in_play = zones_of(g, pi).battleline + zones_of(g, pi).artifacts;
    lemma_ready_all_keeps(g, in_play);
    let g1 = ready_all(g, in_play);
    assert forall|id: CardId| #[trigger] g.cards.contains_key(id) && !in_play.contains(id) implies g1.cards[id]
        == g.cards[id] by {
        let c = g.cards[id];
        let c2 = g1.cards[id];
        assert(c2.exhausted == c.exhausted);
        assert(c2.upgrades@ == c.upgrades@);
        assert(c2 == c);
    }
}

// ---------------------------------------------------------------------------------------
// What may be done now.

/// A card may be played exactly when no Omega card was played this step, the First Turn
/// Rule does not stop it (on turn 1 the first player may play or discard one card only),
/// an Alpha card is the first card used this turn, and fewer than six cards of its name
/// were played or used this turn.
pub proof fn law_when_a_card_may_be_played(g: GameModel, id: CardId)
    ensures
        can_play_spec(g, id) <==> {
            &&& !g.omega_triggered
            &&& !(g.turn == 1 && g.active_player == g.first_player && g.cards_used_this_turn >= 1)
            &&& (card_has_keyword(g.cards[id], Keyword::Alpha) ==> g.cards_used_this_turn == 0)
            &&& uses_of(g, g.cards[id].def.name@) < 6
        },
        g.turn != 1 && !g.omega_triggered && !card_has_keyword(g.cards[id], Keyword::Alpha)
            && uses_of(g, g.cards[id].def.name@) < 6 ==> can_play_spec(g, id),
{
}

/// A creature may reap exactly when it is ready, not stunned, not enraged while the opponent
/// has creatures, and fewer than six cards of its name were used this turn; it may fight on
/// the same terms without the enrage condition.
pub proof fn law_when_a_creature_may_reap_or_fight(g: GameModel, id: CardId)
    ensures
        can_reap_spec(g, id) <==> {
            &&& !g.cards[id].exhausted
            &&& !g.cards[id].stun
            &&& (g.cards[id].enrage ==> zones_of(g, other(g.active_player)).battleline.len() == 0)
            &&& uses_of(g, g.cards[id].def.name@) < 6
        },
        can_fight_spec(g, id) <==> {
            &&& !g.cards[id].exhausted
            &&& !g.cards[id].stun
            &&& uses_of(g, g.cards[id].def.name@) < 6
        },
{
}

} // verus!
