//! Every card of the game is in exactly one zone: the game steps move cards between
//! zones but never copy or lose one.

use vstd::prelude::*;
use vstd::multiset::Multiset;

use crate::card::{BonusIcon, Card, CardId, CardType, Effect, Keyword, card_has_keyword};
use crate::model::{GameModel, PlayerModel, add_card_aember, after_play_model, attack_model, capture_then_steal, chain_penalty_of, damage_card, damage_each, dead_in, deploy_zones, destroy_dead_model, destroy_list, destroy_one, draw_n, draw_until, effect_basic, effect_full, effects_basic, effects_full, end_turn_model, fight_after, fight_damage, fight_hits, fight_loot, fight_poison, fight_splash, first_of, from_hand, gain, game_wf, icon_step, icons_model, initial_model, lemma_add_card_aember_ok, lemma_capture_then_steal_ok, lemma_damage_card_ok, lemma_damage_each_ok, lemma_dead_in, lemma_deploy_zones_ok, lemma_destroy_dead_ok, lemma_destroy_list_ok, lemma_effects_full_ok, lemma_end_turn_ok, lemma_fight_damage_ok, lemma_fight_loot_ok, lemma_fight_poison_ok, lemma_fight_splash_ok, lemma_from_hand_ok, lemma_gain_ok, lemma_icons_ok, lemma_play_zones_ok, lemma_ready_all_ok, lemma_wf_with_card, new_game_model, other, play_card_model, play_deployed_model, play_zones, ready_all, reap_model, receiving_side, unstun_model, with_card, with_player, with_zones, x_value, zones_of};
use crate::protocol::ClientMessage;
use crate::server::{dispatch_model, forged_step};
use crate::zones::{Flank, ZonesView, add_on_flank, law_draw_and_refill_keep_cards, law_hand_moves_keep_cards, law_play_moves_keep_cards, lemma_flank_ms, lemma_without_once, neighbors_of, remove_first, without, zone_cards, zones_after_destroy, zones_after_draw};

verus! {

broadcast use vstd::multiset::group_multiset_axioms;

/// Every card in either player's zones, counted as often as it appears.
pub open spec fn game_cards(g: GameModel) -> Multiset<CardId> {
    zone_cards(zones_of(g, 0)).add(zone_cards(zones_of(g, 1)))
}

/// No card is in two zones, or twice in one.
pub open spec fn each_card_once(g: GameModel) -> bool {
    forall|id: CardId| #[trigger] game_cards(g).count(id) <= 1
}

/// Both players' zones are as they were.
pub open spec fn same_zones(g: GameModel, h: GameModel) -> bool {
    zones_of(h, 0) == zones_of(g, 0) && zones_of(h, 1) == zones_of(g, 1)
}

/// A step that keeps the cards of the zones, and the battlelines.
pub open spec fn keeps_lines(g: GameModel, r: Option<GameModel>) -> bool {
    r matches Some(h) ==> {
        &&& game_cards(h) == game_cards(g)
        &&& zones_of(h, 0).battleline == zones_of(g, 0).battleline
        &&& zones_of(h, 1).battleline == zones_of(g, 1).battleline
    }
}

/// A step that keeps the cards of the zones.
pub open spec fn keeps_cards(g: GameModel, r: Option<GameModel>) -> bool {
    r matches Some(h) ==> game_cards(h) == game_cards(g)
}

proof fn lemma_with_zones_cards(g: GameModel, i: usize, z: ZonesView)
    requires
        g.sides.len() == 2,
        i < 2,
    ensures
        zones_of(with_zones(g, i, z), i) == z,
        zones_of(with_zones(g, i, z), other(i)) == zones_of(g, other(i)),
        zone_cards(z) == zone_cards(zones_of(g, i)) ==> game_cards(with_zones(g, i, z)) == game_cards(g),
{
    if zone_cards(z) == zone_cards(zones_of(g, i)) {
        if i == 0 {
            assert(game_cards(with_zones(g, i, z)) =~= game_cards(g));
        } else {
            assert(game_cards(with_zones(g, i, z)) =~= game_cards(g));
        }
    }
}

proof fn lemma_draw_n_keeps(z: ZonesView, n: nat)
    ensures
        zone_cards(draw_n(z, n)) == zone_cards(z),
        draw_n(z, n).battleline == z.battleline,
    decreases n,
{
    if n > 0 {
        lemma_draw_n_keeps(z, (n - 1) as nat);
        law_draw_and_refill_keep_cards(draw_n(z, (n - 1) as nat));
    }
}

proof fn lemma_draw_until_keeps(z: ZonesView, max: nat)
    ensures
        zone_cards(draw_until(z, max)) == zone_cards(z),
        draw_until(z, max).battleline == z.battleline,
    decreases z.deck.len() + z.discard.len(),
{
    if z.hand.len() < max {
        let (z1, r) = zones_after_draw(z);
        if r is Some {
            law_draw_and_refill_keep_cards(z);
            lemma_draw_until_keeps(z1, max);
        }
    }
}

proof fn lemma_effect_basic_keeps(g: GameModel, card_id: CardId, ctl: usize, e: Effect)
    requires
        g.sides.len() == 2,
        ctl < 2,
    ensures
        keeps_lines(g, effect_basic(g, card_id, ctl, e)),
{
    if let Effect::DrawCards(n) = e {
        lemma_draw_n_keeps(zones_of(g, ctl), n as nat);
        lemma_with_zones_cards(g, ctl, draw_n(zones_of(g, ctl), n as nat));
    }
    if let Some(h) = effect_basic(g, card_id, ctl, e) {
        if !(e is DrawCards) {
            assert(same_zones(g, h));
        }
    }
}

proof fn lemma_effects_basic_keeps(g: GameModel, card_id: CardId, ctl: usize, effs: Seq<Effect>)
    requires
        g.sides.len() == 2,
        ctl < 2,
    ensures
        keeps_lines(g, effects_basic(g, card_id, ctl, effs)),
        effects_basic(g, card_id, ctl, effs) matches Some(h) ==> h.sides.len() == 2,
    decreases effs.len(),
{
    if effs.len() > 0 {
        lemma_effects_basic_keeps(g, card_id, ctl, effs.drop_last());
        if let Some(g1) = effects_basic(g, card_id, ctl, effs.drop_last()) {
            lemma_effect_basic_keeps(g1, card_id, ctl, effs.last());
        }
    }
}

proof fn lemma_remove_first_keeps_others(s: Seq<CardId>, id: CardId, x: CardId)
    requires
        s.contains(x),
        x != id,
    ensures
        remove_first(s, id).contains(x),
{
    s.index_of_first_ensures(id);
    if let Some(p) = s.index_of_first(id) {
        let k = choose|k: int| 0 <= k < s.len() && s[k] == x;
        if k < p {
            assert(s.remove(p)[k] == x);
        } else {
            assert(k != p);
            assert(s.remove(p)[k - 1] == x);
        }
    }
}

/// Destroying a creature of player `pi`'s battleline keeps the cards of the zones and
/// takes exactly that creature off the line.
proof fn lemma_destroy_one_keeps(g: GameModel, pi: usize, id: CardId)
    requires
        game_wf(g),
        pi < 2,
        g.cards.contains_key(id),
        zones_of(g, pi).battleline.contains(id),
    ensures
        destroy_one(g, pi, id) matches Some(h) ==> {
            &&& game_cards(h) == game_cards(g)
            &&& zones_of(h, pi).battleline == remove_first(zones_of(g, pi).battleline, id)
            &&& zones_of(h, other(pi)).battleline == zones_of(g, other(pi)).battleline
        },
{
    let effs = g.cards[id].def.on_destroyed@;
    lemma_effects_basic_keeps(g, id, pi, effs);
    if let Some(g1) = effects_basic(g, id, pi, effs) {
        let captured = g1.cards[id].aember;
        let g2 = if captured > 0 {
            match crate::model::gain(g1, other(pi), captured as int) {
                Some(gg) => Some(crate::model::with_card(gg, id, crate::card::Card { aember: 0, ..g1.cards[id] })),
                None => None,
            }
        } else {
            Some(g1)
        };
        if let Some(g3) = g2 {
            assert(same_zones(g1, g3));
            let z = zones_of(g3, pi);
            law_play_moves_keep_cards(z, id);
            lemma_with_zones_cards(g3, pi, zones_after_destroy(z, id));
            assert(zones_after_destroy(z, id).battleline == remove_first(z.battleline, id));
        }
    }
}

/// Destroying listed creatures of player `pi`'s battleline, each on the line once, keeps
/// the cards of the zones; the other creatures of both lines stay on them.
proof fn lemma_destroy_list_keeps(g: GameModel, pi: usize, ids: Seq<CardId>)
    requires
        game_wf(g),
        pi < 2,
        ids.no_duplicates(),
        forall|k: int| 0 <= k < ids.len() ==> zones_of(g, pi).battleline.contains(#[trigger] ids[k]),
        forall|k: int| 0 <= k < ids.len() ==> g.cards.contains_key(#[trigger] ids[k]),
    ensures
        destroy_list(g, pi, ids) matches Some(h) ==> {
            &&& game_cards(h) == game_cards(g)
            &&& forall|x: CardId| zones_of(g, pi).battleline.contains(x) && !ids.contains(x)
                ==> #[trigger] zones_of(h, pi).battleline.contains(x)
            &&& zones_of(h, other(pi)).battleline == zones_of(g, other(pi)).battleline
        },
    decreases ids.len(),
{
    if ids.len() > 0 {
        let init = ids.drop_last();
        let last = ids.last();
        assert(init.no_duplicates());
        assert forall|k: int| 0 <= k < init.len() implies zones_of(g, pi).battleline.contains(#[trigger] init[k]) by {
            assert(init[k] == ids[k]);
        }
        assert forall|k: int| 0 <= k < init.len() implies g.cards.contains_key(#[trigger] init[k]) by {
            assert(init[k] == ids[k]);
        }
        lemma_destroy_list_keeps(g, pi, init);
        lemma_destroy_list_ok(g, pi, init);
        if let Some(g1) = destroy_list(g, pi, init) {
            assert(zones_of(g, pi).battleline.contains(ids[ids.len() - 1]));
            assert(!init.contains(last)) by {
                if init.contains(last) {
                    let k = choose|k: int| 0 <= k < init.len() && init[k] == last;
                    assert(ids[k] == ids[ids.len() - 1]);
                }
            }
            assert(zones_of(g1, pi).battleline.contains(last));
            assert(g.cards.contains_key(ids[ids.len() - 1]));
            lemma_destroy_one_keeps(g1, pi, last);
            if let Some(h) = destroy_one(g1, pi, last) {
                assert forall|x: CardId| zones_of(g, pi).battleline.contains(x) && !ids.contains(x)
                    implies #[trigger] zones_of(h, pi).battleline.contains(x) by {
                    assert(!init.contains(x)) by {
                        if init.contains(x) {
                            let k = choose|k: int| 0 <= k < init.len() && init[k] == x;
                            assert(ids[k] == x);
                        }
                    }
                    assert(x != last);
                    lemma_remove_first_keeps_others(zones_of(g1, pi).battleline, last, x);
                }
            }
        }
    }
}

proof fn lemma_dead_in_from_line(s: Seq<CardId>, cards: Map<CardId, crate::card::Card>)
    ensures
        forall|k: int| 0 <= k < dead_in(s, cards).len() ==> s.contains(#[trigger] dead_in(s, cards)[k]),
        s.no_duplicates() ==> dead_in(s, cards).no_duplicates(),
    decreases s.len(),
{
    if s.len() > 0 {
        let t = s.drop_last();
        lemma_dead_in_from_line(t, cards);
        let r = dead_in(t, cards);
        assert forall|k: int| 0 <= k < dead_in(s, cards).len() implies s.contains(#[trigger] dead_in(s, cards)[k]) by {
            if k < r.len() {
                assert(dead_in(s, cards)[k] == r[k]);
                let j = choose|j: int| 0 <= j < t.len() && t[j] == r[k];
                assert(s[j] == r[k]);
            } else {
                assert(dead_in(s, cards)[k] == s[s.len() - 1]);
            }
        }
        if s.no_duplicates() {
            assert(t.no_duplicates());
            if dead_in(s, cards).len() > r.len() {
                assert(!r.contains(s.last())) by {
                    if r.contains(s.last()) {
                        let k = choose|k: int| 0 <= k < r.len() && r[k] == s.last();
                        assert(t.contains(r[k]));
                        let j = choose|j: int| 0 <= j < t.len() && t[j] == r[k];
                        assert(s[j] == s[s.len() - 1]);
                    }
                }
                assert forall|a: int, b: int| 0 <= a < b < dead_in(s, cards).len() implies dead_in(s, cards)[a]
                    != dead_in(s, cards)[b] by {
                    if b == r.len() {
                        assert(dead_in(s, cards)[a] == r[a]);
                    } else {
                        assert(dead_in(s, cards)[a] == r[a]);
                        assert(dead_in(s, cards)[b] == r[b]);
                    }
                }
            }
        }
    }
}

/// A sequence whose entries are each counted at most once among the zones has no repeats.
proof fn lemma_line_no_dup(g: GameModel, i: usize)
    requires
        each_card_once(g),
        i < 2,
    ensures
        zones_of(g, i).battleline.no_duplicates(),
{
    let b = zones_of(g, i).battleline;
    assert forall|x: CardId| b.to_multiset().contains(x) implies b.to_multiset().count(x) == 1 by {
        assert(game_cards(g).count(x) <= 1);
        assert(game_cards(g).count(x) >= b.to_multiset().count(x));
    }
    b.lemma_multiset_has_no_duplicates_conv();
}

/// Destroyed creatures leaving play keep the cards of the zones.
proof fn lemma_destroy_dead_keeps(g: GameModel)
    requires
        game_wf(g),
        each_card_once(g),
    ensures
        keeps_cards(g, destroy_dead_model(g)),
{
    let d0 = dead_in(zones_of(g, 0).battleline, g.cards);
    lemma_line_no_dup(g, 0);
    lemma_dead_in_from_line(zones_of(g, 0).battleline, g.cards);
    lemma_dead_in(zones_of(g, 0).battleline, g.cards);
    lemma_destroy_list_keeps(g, 0, d0);
    lemma_destroy_list_ok(g, 0, d0);
    if let Some(g1) = destroy_list(g, 0, d0) {
        assert(each_card_once(g1));
        let d1 = dead_in(zones_of(g1, 1).battleline, g1.cards);
        lemma_line_no_dup(g1, 1);
        lemma_dead_in_from_line(zones_of(g1, 1).battleline, g1.cards);
        lemma_dead_in(zones_of(g1, 1).battleline, g1.cards);
        lemma_destroy_list_keeps(g1, 1, d1);
    }
}

proof fn lemma_damage_each_same(g: GameModel, ids: Seq<CardId>, n: u32)
    ensures
        damage_each(g, ids, n) matches Some(h) ==> h.sides == g.sides,
    decreases ids.len(),
{
    if ids.len() > 0 {
        lemma_damage_each_same(g, ids.drop_last(), n);
    }
}

proof fn lemma_effect_full_keeps(g: GameModel, card_id: CardId, ctl: usize, e: Effect)
    requires
        game_wf(g),
        each_card_once(g),
        ctl < 2,
    ensures
        keeps_cards(g, effect_full(g, card_id, ctl, e)),
{
    match e {
        Effect::DealDamageToEachEnemy(n) => {
            let ids = zones_of(g, other(ctl)).battleline;
            lemma_damage_each_same(g, ids, n);
            crate::model::lemma_damage_each_ok(g, ids, n);
            if let Some(g1) = damage_each(g, ids, n) {
                assert(same_zones(g, g1));
                assert(game_cards(g1) == game_cards(g));
                lemma_destroy_dead_keeps(g1);
            }
        },
        _ => {
            lemma_effect_basic_keeps(g, card_id, ctl, e);
        },
    }
}

proof fn lemma_effects_full_keeps(g: GameModel, card_id: CardId, ctl: usize, effs: Seq<Effect>)
    requires
        game_wf(g),
        each_card_once(g),
        ctl < 2,
    ensures
        keeps_cards(g, crate::model::effects_full(g, card_id, ctl, effs)),
    decreases effs.len(),
{
    if effs.len() > 0 {
        lemma_effects_full_keeps(g, card_id, ctl, effs.drop_last());
        crate::model::lemma_effects_full_ok(g, card_id, ctl, effs.drop_last());
        if let Some(g1) = crate::model::effects_full(g, card_id, ctl, effs.drop_last()) {
            assert(each_card_once(g1));
            lemma_effect_full_keeps(g1, card_id, ctl, effs.last());
        }
    }
}

proof fn lemma_icon_step_keeps(g: GameModel, card_id: CardId, pi: usize, icon: BonusIcon)
    requires
        game_wf(g),
        each_card_once(g),
        pi < 2,
    ensures
        keeps_cards(g, icon_step(g, card_id, pi, icon)),
{
    match icon {
        BonusIcon::Damage => {
            let target = match first_of(zones_of(g, other(pi)).battleline) {
                Some(t) => Some(t),
                None => first_of(zones_of(g, pi).battleline),
            };
            if let Some(t) = target {
                crate::model::lemma_damage_card_ok(g, t, 1);
                if let Some(g1) = damage_card(g, t, 1) {
                    assert(same_zones(g, g1));
                    assert(game_cards(g1) == game_cards(g));
                    lemma_destroy_dead_keeps(g1);
                }
            }
        },
        BonusIcon::Draw => {
            law_draw_and_refill_keep_cards(zones_of(g, pi));
            lemma_with_zones_cards(g, pi, zones_after_draw(zones_of(g, pi)).0);
        },
        _ => {
            if let Some(h) = icon_step(g, card_id, pi, icon) {
                assert(same_zones(g, h));
            }
        },
    }
}

proof fn lemma_icons_keeps(g: GameModel, card_id: CardId, pi: usize, icons: Seq<BonusIcon>)
    requires
        game_wf(g),
        each_card_once(g),
        pi < 2,
    ensures
        keeps_cards(g, icons_model(g, card_id, pi, icons)),
    decreases icons.len(),
{
    if icons.len() > 0 {
        lemma_icons_keeps(g, card_id, pi, icons.drop_last());
        crate::model::lemma_icons_ok(g, card_id, pi, icons.drop_last());
        if let Some(g1) = icons_model(g, card_id, pi, icons.drop_last()) {
            assert(each_card_once(g1));
            lemma_icon_step_keeps(g1, card_id, pi, icons.last());
        }
    }
}

/// Everything that follows a card entering play keeps the cards of the zones.
proof fn lemma_after_play_keeps(g: GameModel, card_id: CardId)
    requires
        game_wf(g),
        each_card_once(g),
        g.cards.contains_key(card_id),
    ensures
        keeps_cards(g, after_play_model(g, card_id)),
{
    let pi = g.active_player;
    lemma_icons_keeps(g, card_id, pi, g.cards[card_id].def.bonus_icons@);
    crate::model::lemma_icons_ok(g, card_id, pi, g.cards[card_id].def.bonus_icons@);
    if let Some(g1) = icons_model(g, card_id, pi, g.cards[card_id].def.bonus_icons@) {
        let g2 = if card_has_keyword(g1.cards[card_id], Keyword::Exalt) {
            add_card_aember(g1, card_id, 1)
        } else {
            Some(g1)
        };
        crate::model::lemma_add_card_aember_ok(g1, card_id, 1);
        if let Some(g3) = g2 {
            assert(same_zones(g1, g3));
            assert(game_cards(g3) == game_cards(g1));
            assert(each_card_once(g3));
            lemma_effects_full_keeps(g3, card_id, pi, g3.cards[card_id].def.on_play@);
        }
    }
}

/// The count of a card in a zone is at most its count among all the zones.
proof fn lemma_once_in_hand(g: GameModel, i: usize, id: CardId)
    requires
        each_card_once(g),
        i < 2,
        zones_of(g, i).hand.contains(id),
    ensures
        zones_of(g, i).hand.to_multiset().count(id) == 1,
        zones_of(g, other(i)).hand.to_multiset().count(id) == 0,
{
    broadcast use vstd::seq_lib::group_to_multiset_ensures;
    assert(game_cards(g).count(id) <= 1);
}

/// Taking a card that is once among the zones out of the active player's hand leaves
/// every other card where it was.
proof fn lemma_from_hand_cards(g: GameModel, card_id: CardId)
    requires
        game_wf(g),
        each_card_once(g),
        zones_of(g, g.active_player).hand.contains(card_id),
    ensures
        game_cards(from_hand(g, card_id)) == game_cards(g).remove(card_id),
        game_cards(g).count(card_id) == 1,
{
    let pi = g.active_player;
    let z = zones_of(g, pi);
    lemma_once_in_hand(g, pi, card_id);
    lemma_without_once(z.hand, card_id);
    let nz = ZonesView { hand: without(z.hand, card_id), ..z };
    lemma_with_zones_cards(g, pi, nz);
    assert(zone_cards(nz) =~= zone_cards(z).remove(card_id));
    if pi == 0 {
        assert(game_cards(from_hand(g, card_id)) =~= game_cards(g).remove(card_id));
    } else {
        assert(game_cards(from_hand(g, card_id)) =~= game_cards(g).remove(card_id));
    }
}

/// Adding one card to one zone of player `i` adds it once to the cards of the game.
proof fn lemma_place_card(g: GameModel, i: usize, z: ZonesView, id: CardId)
    requires
        g.sides.len() == 2,
        i < 2,
        zone_cards(z) == zone_cards(zones_of(g, i)).insert(id),
    ensures
        game_cards(with_zones(g, i, z)) == game_cards(g).insert(id),
{
    lemma_with_zones_cards(g, i, z);
    assert(game_cards(with_zones(g, i, z)) =~= game_cards(g).insert(id));
}

/// Playing a card from the active player's hand keeps the cards of the zones (a
/// Treachery card moves to the opponent's zones).
proof fn lemma_play_keeps(g: GameModel, card_id: CardId, flank: Flank)
    requires
        game_wf(g),
        each_card_once(g),
        zones_of(g, g.active_player).hand.contains(card_id),
        g.cards.contains_key(card_id),
    ensures
        keeps_cards(g, play_card_model(g, card_id, flank)),
{
    broadcast use vstd::seq_lib::group_to_multiset_ensures;
    let pi = g.active_player;
    let owner = receiving_side(g, card_id);
    lemma_from_hand_cards(g, card_id);
    lemma_from_hand_ok(g, card_id);
    let g1 = from_hand(g, card_id);
    let zo = zones_of(g1, owner);
    let zp = zones_of(g1, pi);
    lemma_flank_ms(zo.battleline, card_id, flank);
    match g.cards[card_id].def.card_type {
        CardType::Creature => {
            let nz = ZonesView { battleline: add_on_flank(zo.battleline, card_id, flank), ..zo };
            assert(zone_cards(nz) =~= zone_cards(zo).insert(card_id));
            lemma_place_card(g1, owner, nz, card_id);
        },
        CardType::Artifact => {
            let nz = ZonesView { artifacts: zo.artifacts.push(card_id), ..zo };
            assert(zone_cards(nz) =~= zone_cards(zo).insert(card_id));
            lemma_place_card(g1, owner, nz, card_id);
        },
        _ => {
            let nz = ZonesView { discard: zp.discard.push(card_id), ..zp };
            assert(zone_cards(nz) =~= zone_cards(zp).insert(card_id));
            lemma_place_card(g1, pi, nz, card_id);
        },
    }
    let g2 = play_zones(g, card_id, flank);
    assert(game_cards(g).remove(card_id).insert(card_id) =~= game_cards(g));
    assert(game_cards(g2) == game_cards(g));
    crate::model::lemma_play_zones_ok(g, card_id, flank);
    lemma_after_play_keeps(g2, card_id);
}

/// Deploying a creature from the active player's hand keeps the cards of the zones.
proof fn lemma_deploy_keeps(g: GameModel, card_id: CardId, index: usize)
    requires
        game_wf(g),
        each_card_once(g),
        zones_of(g, g.active_player).hand.contains(card_id),
        g.cards.contains_key(card_id),
        index <= zones_of(g, receiving_side(g, card_id)).battleline.len(),
    ensures
        keeps_cards(g, play_deployed_model(g, card_id, index)),
{
    broadcast use vstd::seq_lib::group_to_multiset_ensures;
    let owner = receiving_side(g, card_id);
    lemma_from_hand_cards(g, card_id);
    lemma_from_hand_ok(g, card_id);
    let g1 = from_hand(g, card_id);
    let zo = zones_of(g1, owner);
    let nz = ZonesView { battleline: zo.battleline.insert(index as int, card_id), ..zo };
    assert(zone_cards(nz) =~= zone_cards(zo).insert(card_id));
    lemma_place_card(g1, owner, nz, card_id);
    assert(game_cards(g).remove(card_id).insert(card_id) =~= game_cards(g));
    let g2 = deploy_zones(g, card_id, index);
    assert(game_cards(g2) == game_cards(g));
    crate::model::lemma_deploy_zones_ok(g, card_id, index);
    lemma_after_play_keeps(g2, card_id);
}

proof fn lemma_capture_then_steal_same(g: GameModel, ctl: usize, id: CardId, c: Card)
    requires
        g.sides.len() == 2,
        ctl < 2,
    ensures
        capture_then_steal(g, ctl, id, c) matches Some(h) ==> same_zones(g, h) && h.sides.len() == 2,
{
}

/// Reaping keeps the cards of the zones.
proof fn lemma_reap_keeps(g: GameModel, id: CardId)
    requires
        game_wf(g),
        each_card_once(g),
    ensures
        keeps_cards(g, reap_model(g, id)),
{
    let pi = g.active_player;
    if g.cards.contains_key(id) {
        let g0 = with_card(g, id, Card { exhausted: true, ..g.cards[id] });
        crate::model::lemma_wf_with_card(g, id, Card { exhausted: true, ..g.cards[id] });
        crate::model::lemma_gain_ok(g0, pi, 1);
        if let Some(g1) = gain(g0, pi, 1) {
            lemma_capture_then_steal_same(g1, pi, id, g1.cards[id]);
            crate::model::lemma_capture_then_steal_ok(g1, pi, id, g1.cards[id]);
            if let Some(g5) = capture_then_steal(g1, pi, id, g1.cards[id]) {
                assert(same_zones(g, g5));
                assert(game_cards(g5) == game_cards(g));
                assert(each_card_once(g5));
                lemma_effects_full_keeps(g5, id, pi, g5.cards[id].def.on_reap@);
            }
        }
    }
}

proof fn lemma_fight_after_keeps(h: GameModel, a: CardId, d: CardId, ca: Card, cd: Card)
    requires
        game_wf(h),
        each_card_once(h),
    ensures
        keeps_cards(h, fight_after(h, a, d, ca, cd)),
{
    let pi = h.active_player;
    let di = other(pi);
    lemma_destroy_dead_keeps(h);
    crate::model::lemma_destroy_dead_ok(h);
    if let Some(h9) = destroy_dead_model(h) {
        assert(each_card_once(h9));
        lemma_effects_full_keeps(h9, a, pi, ca.def.on_fight@);
        crate::model::lemma_effects_full_ok(h9, a, pi, ca.def.on_fight@);
        let s10 = if zones_of(h9, pi).battleline.contains(a) {
            effects_full(h9, a, pi, ca.def.on_fight@)
        } else {
            Some(h9)
        };
        if let Some(h10) = s10 {
            assert(each_card_once(h10));
            lemma_effects_full_keeps(h10, d, di, cd.def.on_fight@);
        }
    }
}

/// Attacking keeps the cards of the zones.
proof fn lemma_attack_keeps(g: GameModel, a: CardId, d: CardId)
    requires
        game_wf(g),
        each_card_once(g),
    ensures
        keeps_cards(g, attack_model(g, a, d)),
{
    if g.cards.contains_key(a) && g.cards.contains_key(d) {
        let ca = g.cards[a];
        let cd = g.cards[d];
        let g0 = with_card(g, a, Card { exhausted: true, ..ca });
        crate::model::lemma_wf_with_card(g, a, Card { exhausted: true, ..ca });
        if !(card_has_keyword(cd, Keyword::Elusive) && !cd.elusive_used_this_turn) {
            crate::model::lemma_fight_damage_ok(g0, a, d, ca, cd);
            if let Some(h3) = fight_damage(g0, a, d, ca, cd) {
                assert(h3.sides == g0.sides);
                let hits = crate::model::fight_hits(g0, a, d, ca, cd);
                let h5 = fight_poison(h3, a, d, hits, ca, cd);
                crate::model::lemma_fight_poison_ok(h3, a, d, hits, ca, cd);
                assert(h5.sides == h3.sides);
                let splash = x_value(ca.def.keywords@, Keyword::SplashAttack(0));
                let nbs = neighbors_of(zones_of(g, other(g.active_player)).battleline, d);
                crate::model::lemma_fight_splash_ok(h5, nbs, splash);
                if let Some(h6) = fight_splash(h5, nbs, splash) {
                    assert(h6.sides == h5.sides);
                    crate::model::lemma_fight_loot_ok(h6, a, ca);
                    lemma_capture_then_steal_same(h6, h6.active_player, a, ca);
                    if let Some(h8) = fight_loot(h6, a, ca) {
                        assert(same_zones(g, h8));
                        assert(game_cards(h8) == game_cards(g));
                        assert(each_card_once(h8));
                        lemma_fight_after_keeps(h8, a, d, ca, cd);
                    }
                }
            }
        }
    }
}

/// Ending the turn keeps the cards of the zones.
proof fn lemma_end_turn_keeps(g: GameModel)
    requires
        game_wf(g),
    ensures
        keeps_cards(g, end_turn_model(g)),
{
    let pi = g.active_player;
    let in_play = zones_of(g, pi).battleline + zones_of(g, pi).artifacts;
    crate::model::lemma_ready_all_ok(g, in_play);
    let g1 = ready_all(g, in_play);
    let chains = g1.sides[pi as int].player.chains;
    let max_hand = if chain_penalty_of(chains) >= 6 { 0 } else { (6 - chain_penalty_of(chains)) as nat };
    let z = draw_until(zones_of(g1, pi), max_hand);
    lemma_draw_until_keeps(zones_of(g1, pi), max_hand);
    lemma_with_zones_cards(g1, pi, z);
    let g2 = with_zones(g1, pi, z);
    let g3 = with_player(g2, pi, PlayerModel { chains: (chains - 1) as u32, ..g2.sides[pi as int].player });
    assert(same_zones(g2, g3));
    assert(game_cards(g1) == game_cards(g));
}

/// The cards of a new game's zones are the two decks; when no card is in both decks or
/// twice in one, every card is in exactly one zone, before and after the opening draw.
pub proof fn law_new_game_each_card_once(p0: Seq<CardId>, p1: Seq<CardId>, cards: Map<CardId, Card>)
    requires
        (p0 + p1).no_duplicates(),
    ensures
        game_cards(initial_model(p0, p1, cards)) == (p0 + p1).to_multiset(),
        game_cards(new_game_model(p0, p1, cards)) == (p0 + p1).to_multiset(),
        each_card_once(initial_model(p0, p1, cards)),
        each_card_once(new_game_model(p0, p1, cards)),
{
    broadcast use vstd::seq_lib::group_to_multiset_ensures;
    let g = initial_model(p0, p1, cards);
    vstd::seq_lib::lemma_multiset_commutative(p0, p1);
    assert(Seq::<CardId>::empty().to_multiset() =~= Multiset::<CardId>::empty());
    assert(game_cards(g) =~= (p0 + p1).to_multiset());
    lemma_draw_n_keeps(zones_of(g, 0), 7);
    lemma_with_zones_cards(g, 0, draw_n(zones_of(g, 0), 7));
    let g1 = with_zones(g, 0, draw_n(zones_of(g, 0), 7));
    lemma_draw_n_keeps(zones_of(g1, 1), 6);
    lemma_with_zones_cards(g1, 1, draw_n(zones_of(g1, 1), 6));
    (p0 + p1).lemma_multiset_has_no_duplicates();
    assert forall|id: CardId| #[trigger] game_cards(g).count(id) <= 1 by {
        if (p0 + p1).to_multiset().contains(id) {
        }
    }
}

/// Every card stays in exactly one zone through every request the server accepts: the
/// cards of the zones, counted with repeats, are the same after the request as before.
pub proof fn law_each_card_stays_in_one_zone(g: GameModel, pi: usize, msg: ClientMessage)
    requires
        game_wf(g),
        each_card_once(g),
    ensures
        dispatch_model(g, pi, msg) matches Some((h, _)) ==> game_cards(h) == game_cards(g)
            && each_card_once(h),
{
    let mine = zones_of(g, pi);
    if pi == g.active_player {
    match msg {
        ClientMessage::ChooseHouse { house, pick_up_archives } => {
            if pick_up_archives {
                let g1 = GameModel { active_house: Some(house), ..g };
                law_draw_and_refill_keep_cards(mine);
                lemma_with_zones_cards(g1, pi, ZonesView { hand: mine.hand + mine.archives, archives: Seq::empty(), ..mine });
            }
        },
        ClientMessage::PlayCard { card_id, flank } => {
            if mine.hand.contains(card_id) {
                let k = choose|k: int| 0 <= k < mine.hand.len() && mine.hand[k] == card_id;
                assert(g.cards.contains_key(mine.hand[k]));
                lemma_play_keeps(g, card_id, flank);
            }
        },
        ClientMessage::PlayCardDeployed { card_id, index } => {
            if mine.hand.contains(card_id) {
                let k = choose|k: int| 0 <= k < mine.hand.len() && mine.hand[k] == card_id;
                assert(g.cards.contains_key(mine.hand[k]));
                if index <= zones_of(g, receiving_side(g, card_id)).battleline.len() {
                    lemma_deploy_keeps(g, card_id, index);
                }
            }
        },
        ClientMessage::Reap { card_id } => {
            lemma_reap_keeps(g, card_id);
        },
        ClientMessage::Attack { attacker_id, defender_id } => {
            lemma_attack_keeps(g, attacker_id, defender_id);
        },
        ClientMessage::Unstun { card_id } => {
            if let Some(h) = unstun_model(g, card_id) {
                assert(same_zones(g, h));
            }
        },
        ClientMessage::DiscardFromHand { card_id } => {
            if mine.hand.contains(card_id) {
                lemma_once_in_hand(g, pi, card_id);
                law_hand_moves_keep_cards(mine, card_id, Flank::Left, 0);
                lemma_with_zones_cards(g, pi, ZonesView { hand: without(mine.hand, card_id), discard: mine.discard.push(card_id), ..mine });
            }
        },
        ClientMessage::EndTurn => {
            lemma_end_turn_keeps(g);
            crate::model::lemma_end_turn_ok(g);
            if let Some(h) = end_turn_model(g) {
                let ap = h.active_player;
                let h2 = with_player(h, ap, forged_step(h.sides[ap as int].player));
                assert(same_zones(h, h2));
                assert(game_cards(h2) == game_cards(h));
            }
        },
    }
    }
}

} // verus!
