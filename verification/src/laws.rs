//! Properties that relate several operations of the game, the server and the view.

use vstd::prelude::*;

use crate::card::{BonusIcon, Card, CardId, CardType, Effect, House};
use crate::deck::id_after;
use crate::deck_store::{SavedDeck, has_deck_id, with_deck};
use crate::model::{GameModel, can_attack_spec, can_fight_spec, can_play_spec, can_reap_spec, attack_model, capture_one, chain_penalty_of, choose_house_model, deploy_zones, draw_n, damage_card, destroy_dead_model, draw_until, effect_basic, end_turn_model, game_wf, icon_step, initial_model, lemma_after_play_ok, lemma_attack_ok, lemma_deploy_zones_ok, lemma_end_turn_ok, lemma_ids_in_push, lemma_ids_in_without, lemma_note_use_ok, lemma_play_zones_ok, lemma_reap_ok, lemma_wf_with_card, lemma_wf_with_zones, min_int, new_game_model, other, play_zones, pool, ready_all, reap_model, receiving_side, steal_one, unstun_model, uses_of, with_card, with_player, with_zones, zones_of};
use crate::protocol::{ClientGameView, ClientMessage};
use crate::server::{dispatch_model, forged_step, play_allowed, unstun_allowed};
use crate::view::client_view_of;
use crate::zones::{ZonesView, without, zones_after_draw};

verus! {

/// A refused request leaves the game as it was.
pub proof fn law_refused_request_changes_nothing(g: GameModel, pi: usize, msg: ClientMessage)
    ensures
        dispatch_model(g, pi, msg) matches Some((h, Err(_))) ==> h == g,
{
}

/// The Rule of Six: once cards of a name were played or used six times this turn, no
/// card of that name can be played, reap or fight again this turn.
pub proof fn law_rule_of_six(g: GameModel, id: CardId)
    requires
        uses_of(g, g.cards[id].def.name@) >= 6,
    ensures
        !can_play_spec(g, id),
        !can_reap_spec(g, id),
        !can_fight_spec(g, id),
{
}

/// After an Omega card is played, no further card can be played this step; on the first
/// player's first turn only one card can be played or discarded.
pub proof fn law_play_lockouts(g: GameModel, id: CardId)
    ensures
        g.omega_triggered ==> !can_play_spec(g, id),
        g.turn == 1 && g.active_player == g.first_player && g.cards_used_this_turn >= 1
            ==> !can_play_spec(g, id),
{
}

/// Stealing moves Aember from one pool to the other: the total in both pools is kept.
/// Capturing moves it from the opponent's pool onto the capturing card.
pub proof fn law_steal_and_capture_move_aember(g: GameModel, ctl: usize, id: CardId)
    requires
        game_wf(g),
        ctl < 2,
    ensures
        steal_one(g, ctl) matches Some(h) ==> pool(h, 0) + pool(h, 1) == pool(g, 0) + pool(g, 1),
        capture_one(g, ctl, id) matches Some(h) ==> pool(h, 0) + pool(h, 1) + h.cards[id].aember
            == pool(g, 0) + pool(g, 1) + g.cards[id].aember,
{
}

proof fn lemma_ready_all_ready(g: GameModel, ids: Seq<CardId>)
    ensures
        forall|k: int|
            0 <= k < ids.len() && g.cards.contains_key(#[trigger] ids[k]) ==> ready_all(g, ids).cards.contains_key(ids[k])
                && !ready_all(g, ids).cards[ids[k]].exhausted
                && ready_all(g, ids).cards[ids[k]].armor_used_this_turn == 0
                && !ready_all(g, ids).cards[ids[k]].elusive_used_this_turn,
        ready_all(g, ids).cards.dom() == g.cards.dom(),
        ready_all(g, ids) == (GameModel { cards: ready_all(g, ids).cards, ..g }),
    decreases ids.len(),
{
    if ids.len() > 0 {
        lemma_ready_all_ready(g, ids.drop_last());
        assert forall|k: int|
            0 <= k < ids.len() && g.cards.contains_key(#[trigger] ids[k]) implies ready_all(g, ids).cards.contains_key(ids[k])
                && !ready_all(g, ids).cards[ids[k]].exhausted
                && ready_all(g, ids).cards[ids[k]].armor_used_this_turn == 0
                && !ready_all(g, ids).cards[ids[k]].elusive_used_this_turn by {
            if k < ids.len() - 1 {
                assert(ids.drop_last()[k] == ids[k]);
            }
        }
        assert(ready_all(g, ids).cards.dom() =~= g.cards.dom());
    }
}

proof fn lemma_draw_until_fills(z: ZonesView, max: nat)
    ensures
        draw_until(z, max).hand.len() >= max || (draw_until(z, max).deck.len() == 0
            && draw_until(z, max).discard.len() == 0),
        draw_until(z, max).hand.len() >= z.hand.len(),
        z.hand.len() >= max ==> draw_until(z, max) == z,
    decreases z.deck.len() + z.discard.len(),
{
    if z.hand.len() < max {
        let (z1, r) = zones_after_draw(z);
        if r is Some {
            lemma_draw_until_fills(z1, max);
        }
    }
}

proof fn lemma_draw_until_len(z: ZonesView, max: nat)
    ensures
        draw_until(z, max).hand.len() == if z.hand.len() >= max {
            z.hand.len() as int
        } else {
            min_int(max as int, (z.hand.len() + z.deck.len() + z.discard.len()) as int)
        },
    decreases z.deck.len() + z.discard.len(),
{
    if z.hand.len() < max {
        let (z1, r) = zones_after_draw(z);
        if r is Some {
            lemma_draw_until_len(z1, max);
        }
    }
}

pub open spec fn max_int(a: int, b: int) -> int {
    if a < b { b } else { a }
}

/// Ending a turn passes it to the other player, counts one more turn, clears what is
/// counted per turn (cards used, the Rule of Six, Omega, the active house), readies
/// every card the ending player has in play and gives back its armor and Elusive, and
/// refills their hand to six cards less the chain penalty: a hand of `h` cards with `d`
/// cards in the deck and `x` in the discard pile ends with `max(h, min(limit, h + d + x))`
/// cards. The other player's side is not touched.
pub proof fn law_end_turn(g: GameModel)
    requires
        game_wf(g),
        end_turn_model(g) is Some,
    ensures
        ({
            let h = end_turn_model(g)->0;
            let pi = g.active_player;
            let in_play = zones_of(g, pi).battleline + zones_of(g, pi).artifacts;
            let max_hand = 6 - chain_penalty_of(g.sides[pi as int].player.chains);
            &&& h.active_player == other(pi)
            &&& h.turn == g.turn + 1
            &&& h.cards_used_this_turn == 0
            &&& forall|name: Seq<char>| uses_of(h, name) == 0
            &&& !h.omega_triggered
            &&& h.active_house is None
            &&& forall|k: int| 0 <= k < in_play.len() ==> !h.cards[#[trigger] in_play[k]].exhausted
                && h.cards[in_play[k]].armor_used_this_turn == 0
                && !h.cards[in_play[k]].elusive_used_this_turn
            &&& zones_of(h, pi).hand.len() >= max_hand || (zones_of(h, pi).deck.len() == 0
                && zones_of(h, pi).discard.len() == 0)
            &&& zones_of(h, pi).hand.len() == max_int(
                zones_of(g, pi).hand.len() as int,
                min_int(
                    max_hand,
                    (zones_of(g, pi).hand.len() + zones_of(g, pi).deck.len() + zones_of(g, pi).discard.len()) as int,
                ),
            )
            &&& h.sides[other(pi) as int] == g.sides[other(pi) as int]
        }),
{
    let pi = g.active_player;
    let in_play = zones_of(g, pi).battleline + zones_of(g, pi).artifacts;
    lemma_ready_all_ready(g, in_play);
    assert forall|k: int| 0 <= k < in_play.len() implies g.cards.contains_key(#[trigger] in_play[k]) by {
        if k < zones_of(g, pi).battleline.len() {
            assert(in_play[k] == zones_of(g, pi).battleline[k]);
        } else {
            assert(in_play[k] == zones_of(g, pi).artifacts[k - zones_of(g, pi).battleline.len()]);
        }
    }
    let g1 = ready_all(g, in_play);
    let chains = g1.sides[pi as int].player.chains;
    let max_hand = if chain_penalty_of(chains) >= 6 { 0 } else { (6 - chain_penalty_of(chains)) as nat };
    lemma_draw_until_fills(zones_of(g1, pi), max_hand);
    lemma_draw_until_len(zones_of(g1, pi), max_hand);
}

proof fn lemma_draw_n_from_deck(z: ZonesView, n: nat)
    requires
        z.deck.len() >= n,
    ensures
        draw_n(z, n).hand.len() == z.hand.len() + n,
        draw_n(z, n).deck.len() == z.deck.len() - n,
        draw_n(z, n).discard == z.discard,
    decreases n,
{
    if n > 0 {
        lemma_draw_n_from_deck(z, (n - 1) as nat);
    }
}

/// A new game deals seven cards to the first player and six to the second, from the
/// top of their decks, when the decks are large enough.
pub proof fn law_opening_hands(p0: Seq<CardId>, p1: Seq<CardId>, cards: Map<CardId, Card>)
    requires
        p0.len() >= 7,
        p1.len() >= 6,
    ensures
        zones_of(crate::model::new_game_model(p0, p1, cards), 0).hand.len() == 7,
        zones_of(crate::model::new_game_model(p0, p1, cards), 0).deck.len() == p0.len() - 7,
        zones_of(crate::model::new_game_model(p0, p1, cards), 1).hand.len() == 6,
        zones_of(crate::model::new_game_model(p0, p1, cards), 1).deck.len() == p1.len() - 6,
        crate::model::new_game_model(p0, p1, cards).active_player == 0,
        crate::model::new_game_model(p0, p1, cards).turn == 1,
{
    let g = crate::model::initial_model(p0, p1, cards);
    lemma_draw_n_from_deck(zones_of(g, 0), 7);
    let g1 = crate::model::with_zones(g, 0, draw_n(zones_of(g, 0), 7));
    lemma_draw_n_from_deck(zones_of(g1, 1), 6);
}

/// The two players' views agree on what each sees of the other: one's hand, deck and
/// archives are the other's counts, and the cards in play and discarded are the same.
pub proof fn law_views_agree(g: GameModel, v0: ClientGameView, v1: ClientGameView)
    requires
        client_view_of(v0, g, 0),
        client_view_of(v1, g, 1),
    ensures
        v0.my_hand@.len() == v1.opp_hand_count,
        v1.my_hand@.len() == v0.opp_hand_count,
        v0.my_deck_count == v1.opp_deck_count,
        v1.my_deck_count == v0.opp_deck_count,
        v0.my_archives@.len() == v1.opp_archives_count,
        v1.my_archives@.len() == v0.opp_archives_count,
        v0.my_battleline@.len() == v1.opp_battleline@.len(),
        v0.opp_battleline@.len() == v1.my_battleline@.len(),
        v0.my_player.aember_pool == v1.opp_player.aember_pool,
        v1.my_player.aember_pool == v0.opp_player.aember_pool,
        v0.turn == v1.turn,
        v0.active_player == v1.active_player,
{
}

/// A player's view does not depend on what is in the opponent's hand, deck or archives,
/// only on how many cards are there.
pub proof fn law_view_hides_opponent_cards(
    g: GameModel,
    me: usize,
    v: ClientGameView,
    hand: Seq<CardId>,
    deck: Seq<CardId>,
    archives: Seq<CardId>,
)
    requires
        me < 2,
        g.sides.len() == 2,
        client_view_of(v, g, me),
        hand.len() == zones_of(g, other(me)).hand.len(),
        deck.len() == zones_of(g, other(me)).deck.len(),
        archives.len() == zones_of(g, other(me)).archives.len(),
    ensures
        client_view_of(
            v,
            crate::model::with_zones(
                g,
                other(me),
                ZonesView { hand, deck, archives, ..zones_of(g, other(me)) },
            ),
            me,
        ),
{
    let g2 = crate::model::with_zones(g, other(me), ZonesView { hand, deck, archives, ..zones_of(g, other(me)) });
    assert(zones_of(g2, me) == zones_of(g, me));
    assert(g2.sides[me as int].player == g.sides[me as int].player);
    assert(g2.sides[other(me) as int].player == g.sides[other(me) as int].player);
}

/// Adding a deck twice is adding it once, and a list without repeated ids stays so.
pub proof fn law_add_deck_idempotent(decks: Seq<SavedDeck>, deck: SavedDeck)
    ensures
        with_deck(with_deck(decks, deck), deck) == with_deck(decks, deck),
        has_deck_id(with_deck(decks, deck), deck.id@),
        (forall|i: int, j: int| 0 <= i < j < decks.len() ==> (#[trigger] decks[i]).id@ != (#[trigger] decks[j]).id@)
            ==> (forall|i: int, j: int|
            0 <= i < j < with_deck(decks, deck).len() ==> (#[trigger] with_deck(decks, deck)[i]).id@
                != (#[trigger] with_deck(decks, deck)[j]).id@),
{
    let d1 = with_deck(decks, deck);
    if !has_deck_id(decks, deck.id@) {
        assert(d1[decks.len() as int] == deck);
        assert(has_deck_id(d1, deck.id@));
    }
}

/// Card ids handed out one after another are all different as long as they do not
/// wrap around.
pub proof fn law_ids_distinct(start: CardId, n: int)
    requires
        0 <= n,
        start + n <= 0x1_0000_0000,
    ensures
        forall|i: int, j: int| 0 <= i < j < n ==> id_after(start, i) != id_after(start, j),
{
}

proof fn lemma_hand_card_exists(g: GameModel, pi: usize, id: CardId)
    requires
        game_wf(g),
        pi < 2,
        zones_of(g, pi).hand.contains(id),
    ensures
        g.cards.contains_key(id),
{
    let h = zones_of(g, pi).hand;
    let k = choose|k: int| 0 <= k < h.len() && h[k] == id;
    assert(g.cards.contains_key(h[k]));
}

proof fn lemma_choose_house_ok(g: GameModel, house: House, pick_up: bool)
    requires
        game_wf(g),
    ensures
        game_wf(choose_house_model(g, house, pick_up)),
        choose_house_model(g, house, pick_up).cards == g.cards,
{
    let g1 = GameModel { active_house: Some(house), ..g };
    if pick_up {
        let pi = g1.active_player;
        let z = zones_of(g1, pi);
        assert forall|k: int| 0 <= k < (z.hand + z.archives).len() implies g.cards.contains_key(
            #[trigger] (z.hand + z.archives)[k],
        ) by {
            if k < z.hand.len() {
                assert((z.hand + z.archives)[k] == z.hand[k]);
            } else {
                assert((z.hand + z.archives)[k] == z.archives[k - z.hand.len()]);
            }
        }
        lemma_wf_with_zones(g1, pi, ZonesView { hand: z.hand + z.archives, archives: Seq::empty(), ..z });
    }
}

/// Every request the server accepts keeps the game well-formed (two sides, every card in
/// a zone known, every card's numbers in range) and neither loses nor invents a card.
pub proof fn law_accepted_requests_keep_game_valid(g: GameModel, pi: usize, msg: ClientMessage)
    requires
        game_wf(g),
        pi < 2,
    ensures
        dispatch_model(g, pi, msg) matches Some((h, _)) ==> game_wf(h) && h.cards.dom() == g.cards.dom(),
{
    match msg {
        ClientMessage::ChooseHouse { house, pick_up_archives } => {
            lemma_choose_house_ok(g, house, pick_up_archives);
        },
        ClientMessage::PlayCard { card_id, flank } => {
            if zones_of(g, pi).hand.contains(card_id) {
                lemma_hand_card_exists(g, pi, card_id);
                lemma_play_zones_ok(g, card_id, flank);
                lemma_after_play_ok(play_zones(g, card_id, flank), card_id);
            }
        },
        ClientMessage::PlayCardDeployed { card_id, index } => {
            if zones_of(g, pi).hand.contains(card_id) {
                lemma_hand_card_exists(g, pi, card_id);
                if index <= zones_of(g, receiving_side(g, card_id)).battleline.len() {
                    lemma_deploy_zones_ok(g, card_id, index);
                    lemma_after_play_ok(deploy_zones(g, card_id, index), card_id);
                }
            }
        },
        ClientMessage::Reap { card_id } => {
            lemma_reap_ok(g, card_id);
        },
        ClientMessage::Attack { attacker_id, defender_id } => {
            lemma_attack_ok(g, attacker_id, defender_id);
        },
        ClientMessage::Unstun { card_id } => {
            if g.cards.contains_key(card_id) {
                let c = Card { stun: false, exhausted: true, ..g.cards[card_id] };
                lemma_wf_with_card(g, card_id, c);
                lemma_note_use_ok(with_card(g, card_id, c), c.def.name@);
            }
        },
        ClientMessage::DiscardFromHand { card_id } => {
            if zones_of(g, pi).hand.contains(card_id) {
                lemma_hand_card_exists(g, pi, card_id);
                let z = zones_of(g, pi);
                lemma_ids_in_without(z.hand, card_id, g.cards);
                lemma_ids_in_push(z.discard, card_id, g.cards);
                lemma_wf_with_zones(g, pi, ZonesView { hand: without(z.hand, card_id), discard: z.discard.push(card_id), ..z });
            }
        },
        ClientMessage::EndTurn => {
            lemma_end_turn_ok(g);
            if let Some(h) = end_turn_model(g) {
                let ap = h.active_player;
                let p = h.sides[ap as int].player;
                if p.key_cost_modifier <= i32::MAX - 6 {
                    let h2 = with_player(h, ap, forged_step(p));
                    assert(forged_step(p).keys.len() == 3);
                    assert(zones_of(h2, 0) == zones_of(h, 0));
                    assert(zones_of(h2, 1) == zones_of(h, 1));
                }
            }
        },
    }
}

/// A request the rules do not allow now, whoever sends it.
pub open spec fn forbidden(g: GameModel, msg: ClientMessage) -> bool {
    match msg {
        ClientMessage::PlayCard { card_id, .. } => !play_allowed(g, card_id),
        ClientMessage::PlayCardDeployed { card_id, .. } => !play_allowed(g, card_id),
        ClientMessage::Reap { card_id } => !can_reap_spec(g, card_id),
        ClientMessage::Attack { attacker_id, defender_id } => !can_fight_spec(g, attacker_id)
            || !can_attack_spec(g, defender_id),
        ClientMessage::Unstun { card_id } => !unstun_allowed(g, card_id),
        _ => false,
    }
}

/// The request is answered with an error and the game is left as it was.
pub open spec fn refused(g: GameModel, r: Option<(GameModel, Result<(), Seq<char>>)>) -> bool {
    match r {
        Some((h, Err(_))) => h == g,
        _ => false,
    }
}

/// The server refuses what the rules do not allow: any request from the player who is not
/// active; playing a card during an Omega lockout, an Alpha card after another card, or a
/// seventh card of a name; a reap by a creature that cannot reap; an attack by a creature
/// that cannot fight or on a creature that Taunt protects; unstunning a creature that is
/// not stunned and ready.
pub proof fn law_forbidden_requests_refused(g: GameModel, pi: usize, msg: ClientMessage)
    ensures
        pi != g.active_player ==> dispatch_model(g, pi, msg) == Some((g, Err::<(), Seq<char>>("Not your turn"@))),
        forbidden(g, msg) ==> refused(g, dispatch_model(g, pi, msg)),
{
}

/// The server first checks where the named cards are. A play or discard of a card not in
/// the player's hand, a reap or unstun of a creature not on their battleline, and an attack
/// by a creature not on their battleline or on one not on the opponent's battleline are
/// refused with the matching message, the attacker's place checked first, and the game is
/// left as it was. A reap, attack or unstun that passes every check is carried out and
/// answered `Ok`.
pub proof fn law_requests_check_where_cards_are(g: GameModel, msg: ClientMessage)
    ensures
        ({
            let pi = g.active_player;
            let mine = zones_of(g, pi);
            let theirs = zones_of(g, other(pi));
            let r = dispatch_model(g, pi, msg);
            match msg {
                ClientMessage::PlayCard { card_id, .. } => !mine.hand.contains(card_id)
                    ==> r == Some((g, Err::<(), Seq<char>>("Card not in hand"@))),
                ClientMessage::PlayCardDeployed { card_id, .. } => !mine.hand.contains(card_id)
                    ==> r == Some((g, Err::<(), Seq<char>>("Card not in hand"@))),
                ClientMessage::DiscardFromHand { card_id } => !mine.hand.contains(card_id)
                    ==> r == Some((g, Err::<(), Seq<char>>("Card not in hand"@))),
                ClientMessage::Reap { card_id } => {
                    &&& !mine.battleline.contains(card_id)
                        ==> r == Some((g, Err::<(), Seq<char>>("Creature not on your battleline"@)))
                    &&& mine.battleline.contains(card_id) && can_reap_spec(g, card_id)
                        && reap_model(g, card_id) is Some
                        ==> r == Some((reap_model(g, card_id)->0, Ok::<(), Seq<char>>(())))
                },
                ClientMessage::Unstun { card_id } => {
                    &&& !mine.battleline.contains(card_id)
                        ==> r == Some((g, Err::<(), Seq<char>>("Creature not on your battleline"@)))
                    &&& mine.battleline.contains(card_id) && unstun_allowed(g, card_id)
                        && unstun_model(g, card_id) is Some
                        ==> r == Some((unstun_model(g, card_id)->0, Ok::<(), Seq<char>>(())))
                },
                ClientMessage::Attack { attacker_id, defender_id } => {
                    &&& !mine.battleline.contains(attacker_id)
                        ==> r == Some((g, Err::<(), Seq<char>>("Attacker not on your battleline"@)))
                    &&& mine.battleline.contains(attacker_id) && !theirs.battleline.contains(defender_id)
                        ==> r == Some((g, Err::<(), Seq<char>>("Defender not on opponent battleline"@)))
                    &&& mine.battleline.contains(attacker_id) && theirs.battleline.contains(defender_id)
                        && can_fight_spec(g, attacker_id) && can_attack_spec(g, defender_id)
                        && attack_model(g, attacker_id, defender_id) is Some
                        ==> r == Some((attack_model(g, attacker_id, defender_id)->0, Ok::<(), Seq<char>>(())))
                },
                _ => true,
            }
        }),
{
}

/// Stealing `n` Aember takes `min(n, pool)` from the opponent's pool and adds it to the
/// stealer's; capturing `n` puts that amount on the capturing card instead. Either way the
/// Aember in both pools and on the card adds up to what it was, and no pool goes below 0.
pub proof fn law_steal_and_capture_effects(g: GameModel, card_id: CardId, ctl: usize, n: u32)
    requires
        game_wf(g),
        ctl < 2,
    ensures
        ({
            let opp = other(ctl);
            let m = min_int(n as int, pool(g, opp) as int);
            &&& effect_basic(g, card_id, ctl, Effect::StealAember(n)) matches Some(h) ==> {
                &&& pool(h, opp) == pool(g, opp) - m
                &&& pool(h, ctl) == pool(g, ctl) + m
                &&& h.cards == g.cards
            }
            &&& effect_basic(g, card_id, ctl, Effect::CaptureAember(n)) matches Some(h) ==> {
                &&& pool(h, opp) == pool(g, opp) - m
                &&& pool(h, ctl) == pool(g, ctl)
                &&& h.cards[card_id].aember == g.cards[card_id].aember + m
                &&& pool(h, 0) + pool(h, 1) + h.cards[card_id].aember
                    == pool(g, 0) + pool(g, 1) + g.cards[card_id].aember
            }
        }),
{
}

/// The bonus icons of a card just played by player `pi`. Aember: one more in the player's
/// pool. Capture: one Aember, if there is one, leaves the opponent's pool and goes onto the
/// card when it is a creature, else onto the player's first creature, else back to the
/// opponent. Damage: the opponent's first creature, else the player's own first creature,
/// takes one damage and destroyed creatures leave play; with no creature nothing happens.
/// Draw: the player draws one card. Discard: nothing happens.
pub proof fn law_bonus_icons(g: GameModel, card_id: CardId, pi: usize)
    requires
        game_wf(g),
        pi < 2,
        g.cards.contains_key(card_id),
    ensures
        ({
            let opp = other(pi);
            let m = min_int(1, pool(g, opp) as int);
            let mine = zones_of(g, pi).battleline;
            let theirs = zones_of(g, opp).battleline;
            let target = if g.cards[card_id].def.card_type == CardType::Creature {
                Some(card_id)
            } else if mine.len() > 0 {
                Some(mine[0])
            } else {
                None
            };
            let victim = if theirs.len() > 0 {
                Some(theirs[0])
            } else if mine.len() > 0 {
                Some(mine[0])
            } else {
                None
            };
            &&& icon_step(g, card_id, pi, BonusIcon::Aember) matches Some(h) ==> pool(h, pi) == pool(g, pi) + 1
                && pool(h, opp) == pool(g, opp) && h.cards == g.cards
            &&& icon_step(g, card_id, pi, BonusIcon::Capture) matches Some(h) ==> {
                &&& pool(h, pi) == pool(g, pi)
                &&& target matches Some(t) ==> {
                    &&& pool(h, opp) == pool(g, opp) - m
                    &&& h.cards[t].aember == g.cards[t].aember + m
                }
                &&& target is None ==> pool(h, opp) == pool(g, opp) && h.cards == g.cards
            }
            &&& victim matches Some(t) ==> icon_step(g, card_id, pi, BonusIcon::Damage) == match damage_card(g, t, 1) {
                Some(g1) => destroy_dead_model(g1),
                None => None,
            }
            &&& victim is None ==> icon_step(g, card_id, pi, BonusIcon::Damage) == Some(g)
            &&& icon_step(g, card_id, pi, BonusIcon::Draw) == Some(with_zones(g, pi, zones_after_draw(zones_of(g, pi)).0))
            &&& icon_step(g, card_id, pi, BonusIcon::Discard) == Some(g)
        }),
{
}

} // verus!
