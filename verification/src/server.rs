//! Applying a client's request to the game.

use vstd::prelude::*;

use crate::card::{Card, CardId, Keyword, card_has_keyword};
use crate::game::{GameState, attack, can_attack, can_fight_with, can_reap, choose_house, end_turn, forge_at_cost, key_cost, play_card, play_card_deployed, reap, step_forge_key, unstun};
use crate::model::{GameModel, PlayerModel, attack_model, can_attack_spec, can_fight_spec, can_reap_spec, choose_house_model, end_turn_model, game_wf, lemma_ids_in_push, lemma_ids_in_without, lemma_wf_with_zones, other, play_card_model, play_deployed_model, reap_model, receiving_side, unstun_model, uses_of, with_player, with_zones, zones_of};
use crate::protocol::ClientMessage;
use crate::zones::{Flank, ZonesView, vec_contains, without};

verus! {

/// The result of a request as plain text.
pub open spec fn result_view(r: Result<(), String>) -> Result<(), Seq<char>> {
    match r {
        Ok(()) => Ok(()),
        Err(e) => Err(e@),
    }
}

/// A successful step of the game.
pub open spec fn done(r: Option<GameModel>) -> Option<(GameModel, Result<(), Seq<char>>)> {
    match r {
        Some(h) => Some((h, Ok(()))),
        None => None,
    }
}

/// The player after Step 1 at the current key cost.
pub open spec fn forged_step(p: PlayerModel) -> PlayerModel {
    forge_at_cost(p, key_cost(p))
}

/// Whether a card may be played now as far as the server checks: no Omega lockout, Alpha
/// allows it and the Rule of Six is not reached. (The First Turn Rule and the active house
/// are left to the client.)
pub open spec fn play_allowed(g: GameModel, id: CardId) -> bool {
    let c = g.cards[id];
    &&& !g.omega_triggered
    &&& !(card_has_keyword(c, Keyword::Alpha) && g.cards_used_this_turn > 0)
    &&& uses_of(g, c.def.name@) < 6
}

/// Whether a creature may be unstunned: it is stunned and ready.
pub open spec fn unstun_allowed(g: GameModel, id: CardId) -> bool {
    g.cards[id].stun && !g.cards[id].exhausted
}

/// What a request from player `pi` does: the next game and the answer, or `None` where
/// handling it would fail (a number overflows, or a deploy position lies beyond the line).
/// A request from the player who is not active, one naming a card that is not where it
/// must be, and one the rules do not allow now are refused with a message and leave the
/// game unchanged.
pub open spec fn dispatch_model(g: GameModel, pi: usize, msg: ClientMessage) -> Option<
    (GameModel, Result<(), Seq<char>>),
> {
    if pi != g.active_player {
        Some((g, Err("Not your turn"@)))
    } else {
        request_model(g, pi, msg)
    }
}

/// A request of the active player `pi`.
pub open spec fn request_model(g: GameModel, pi: usize, msg: ClientMessage) -> Option<
    (GameModel, Result<(), Seq<char>>),
> {
    let mine = zones_of(g, pi);
    match msg {
        ClientMessage::ChooseHouse { house, pick_up_archives } => Some(
            (choose_house_model(g, house, pick_up_archives), Ok(())),
        ),
        ClientMessage::PlayCard { card_id, flank } => if !mine.hand.contains(card_id) {
            Some((g, Err("Card not in hand"@)))
        } else if !play_allowed(g, card_id) {
            Some((g, Err("Card cannot be played now"@)))
        } else {
            done(play_card_model(g, card_id, flank))
        },
        ClientMessage::PlayCardDeployed { card_id, index } => if !mine.hand.contains(card_id) {
            Some((g, Err("Card not in hand"@)))
        } else if !play_allowed(g, card_id) {
            Some((g, Err("Card cannot be played now"@)))
        } else if index > zones_of(g, receiving_side(g, card_id)).battleline.len() {
            None
        } else {
            done(play_deployed_model(g, card_id, index))
        },
        ClientMessage::Reap { card_id } => if !mine.battleline.contains(card_id) {
            Some((g, Err("Creature not on your battleline"@)))
        } else if !can_reap_spec(g, card_id) {
            Some((g, Err("Creature cannot reap now"@)))
        } else {
            done(reap_model(g, card_id))
        },
        ClientMessage::Attack { attacker_id, defender_id } => if !mine.battleline.contains(
            attacker_id,
        ) {
            Some((g, Err("Attacker not on your battleline"@)))
        } else if !zones_of(g, other(pi)).battleline.contains(defender_id) {
            Some((g, Err("Defender not on opponent battleline"@)))
        } else if !can_fight_spec(g, attacker_id) {
            Some((g, Err("Creature cannot fight now"@)))
        } else if !can_attack_spec(g, defender_id) {
            Some((g, Err("A creature with Taunt protects the defender"@)))
        } else {
            done(attack_model(g, attacker_id, defender_id))
        },
        ClientMessage::Unstun { card_id } => if !mine.battleline.contains(card_id) {
            Some((g, Err("Creature not on your battleline"@)))
        } else if !unstun_allowed(g, card_id) {
            Some((g, Err("Creature is not stunned and ready"@)))
        } else {
            done(unstun_model(g, card_id))
        },
        ClientMessage::DiscardFromHand { card_id } => if !mine.hand.contains(card_id) {
            Some((g, Err("Card not in hand"@)))
        } else {
            Some(
                (
                    with_zones(
                        g,
                        pi,
                        ZonesView {
                            hand: without(mine.hand, card_id),
                            discard: mine.discard.push(card_id),
                            ..mine
                        },
                    ),
                    Ok(()),
                ),
            )
        },
        ClientMessage::EndTurn => match end_turn_model(g) {
            None => None,
            Some(h) => {
                let p = h.sides[h.active_player as int].player;
                if p.key_cost_modifier > i32::MAX - 6 {
                    None
                } else {
                    Some((with_player(h, h.active_player, forged_step(p)), Ok(())))
                }
            },
        },
    }
}

/// A discard request: the card moves from the requester's hand to their discard pile.
fn dispatch_discard(game: &mut GameState, player_idx: usize, card_id: CardId) -> (r: Result<(), String>)
    requires
        game_wf(old(game)@),
        player_idx == old(game)@.active_player,
    ensures
        final(game)@ == (dispatch_model(old(game)@, player_idx, ClientMessage::DiscardFromHand { card_id })->0).0,
        result_view(r) == (dispatch_model(old(game)@, player_idx, ClientMessage::DiscardFromHand { card_id })->0).1,
        game_wf(final(game)@),
{
    let ghost g = game@;
    if !vec_contains(&game.players[player_idx].zones.hand, card_id) {
        Err("Card not in hand".to_owned())
    } else {
        game.players[player_idx].zones.discard_from_hand(card_id);
        proof {
            let z = zones_of(g, player_idx);
            let nz = ZonesView { hand: without(z.hand, card_id), discard: z.discard.push(card_id), ..z };
            assert(game@.sides =~= with_zones(g, player_idx, nz).sides);
            assert(g.cards.contains_key(card_id)) by {
                let k = choose|k: int| 0 <= k < z.hand.len() && z.hand[k] == card_id;
                assert(g.cards.contains_key(z.hand[k]));
            }
            lemma_ids_in_without(z.hand, card_id, g.cards);
            lemma_ids_in_push(z.discard, card_id, g.cards);
            lemma_wf_with_zones(g, player_idx, nz);
        }
        Ok(())
    }
}

/// Step 1 of the active player's turn: forge a key if they can afford it.
fn forge_step_active(game: &mut GameState)
    requires
        game_wf(old(game)@),
        old(game)@.sides[old(game)@.active_player as int].player.key_cost_modifier <= i32::MAX - 6,
    ensures
        final(game)@ == with_player(
            old(game)@,
            old(game)@.active_player,
            forged_step(old(game)@.sides[old(game)@.active_player as int].player),
        ),
        game_wf(final(game)@),
{
    let ghost h = game@;
    let ap = game.active_player;
    let _ = step_forge_key(&mut game.players[ap].player);
    proof {
        let p = h.sides[ap as int].player;
        assert(game@.sides =~= with_player(h, ap, forged_step(p)).sides);
        assert(forged_step(p).keys.len() == 3);
        assert(zones_of(game@, 0) == zones_of(h, 0));
        assert(zones_of(game@, 1) == zones_of(h, 1));
    }
}

proof fn lemma_card_of_zone(g: GameModel, i: usize, id: CardId)
    requires
        game_wf(g),
        i < 2,
        zones_of(g, i).battleline.contains(id) || zones_of(g, i).hand.contains(id),
    ensures
        g.cards.contains_key(id),
{
    if zones_of(g, i).battleline.contains(id) {
        let b = zones_of(g, i).battleline;
        let k = choose|k: int| 0 <= k < b.len() && b[k] == id;
        assert(g.cards.contains_key(b[k]));
    } else {
        let h = zones_of(g, i).hand;
        let k = choose|k: int| 0 <= k < h.len() && h[k] == id;
        assert(g.cards.contains_key(h[k]));
    }
}

fn play_allowed_exec(game: &GameState, id: CardId) -> (b: bool)
    requires
        game@.cards.contains_key(id),
    ensures
        b == play_allowed(game@, id),
{
    let c = game.card(id);
    !game.omega_triggered && !(c.has_keyword(Keyword::Alpha) && game.cards_used_this_turn > 0)
        && game.uses(&c.def.name) < 6
}

/// A play request of the active player.
fn dispatch_play(game: &mut GameState, pi: usize, card_id: CardId, flank: Flank) -> (r: Result<(), String>)
    requires
        game_wf(old(game)@),
        pi == old(game)@.active_player,
        dispatch_model(old(game)@, pi, ClientMessage::PlayCard { card_id, flank }) is Some,
    ensures
        final(game)@ == (dispatch_model(old(game)@, pi, ClientMessage::PlayCard { card_id, flank })->0).0,
        result_view(r) == (dispatch_model(old(game)@, pi, ClientMessage::PlayCard { card_id, flank })->0).1,
        game_wf(final(game)@),
{
    if !vec_contains(&game.players[pi].zones.hand, card_id) {
        return Err("Card not in hand".to_owned());
    }
    proof {
        lemma_card_of_zone(game@, pi, card_id);
    }
    if !play_allowed_exec(game, card_id) {
        return Err("Card cannot be played now".to_owned());
    }
    play_card(game, card_id, flank);
    Ok(())
}

/// A deploy request of the active player.
fn dispatch_deploy(game: &mut GameState, pi: usize, card_id: CardId, index: usize) -> (r: Result<(), String>)
    requires
        game_wf(old(game)@),
        pi == old(game)@.active_player,
        dispatch_model(old(game)@, pi, ClientMessage::PlayCardDeployed { card_id, index }) is Some,
    ensures
        final(game)@ == (dispatch_model(old(game)@, pi, ClientMessage::PlayCardDeployed { card_id, index })->0).0,
        result_view(r) == (dispatch_model(old(game)@, pi, ClientMessage::PlayCardDeployed { card_id, index })->0).1,
        game_wf(final(game)@),
{
    if !vec_contains(&game.players[pi].zones.hand, card_id) {
        return Err("Card not in hand".to_owned());
    }
    proof {
        lemma_card_of_zone(game@, pi, card_id);
    }
    if !play_allowed_exec(game, card_id) {
        return Err("Card cannot be played now".to_owned());
    }
    play_card_deployed(game, card_id, index);
    Ok(())
}

/// A reap request of the active player.
fn dispatch_reap(game: &mut GameState, pi: usize, card_id: CardId) -> (r: Result<(), String>)
    requires
        game_wf(old(game)@),
        pi == old(game)@.active_player,
        dispatch_model(old(game)@, pi, ClientMessage::Reap { card_id }) is Some,
    ensures
        final(game)@ == (dispatch_model(old(game)@, pi, ClientMessage::Reap { card_id })->0).0,
        result_view(r) == (dispatch_model(old(game)@, pi, ClientMessage::Reap { card_id })->0).1,
        game_wf(final(game)@),
{
    if !game.players[pi].zones.battleline.contains(card_id) {
        return Err("Creature not on your battleline".to_owned());
    }
    proof {
        lemma_card_of_zone(game@, pi, card_id);
    }
    if !can_reap(game, card_id) {
        return Err("Creature cannot reap now".to_owned());
    }
    reap(game, card_id);
    Ok(())
}

/// An attack request of the active player.
fn dispatch_attack(game: &mut GameState, pi: usize, attacker_id: CardId, defender_id: CardId) -> (r: Result<(), String>)
    requires
        game_wf(old(game)@),
        pi == old(game)@.active_player,
        dispatch_model(old(game)@, pi, ClientMessage::Attack { attacker_id, defender_id }) is Some,
    ensures
        final(game)@ == (dispatch_model(old(game)@, pi, ClientMessage::Attack { attacker_id, defender_id })->0).0,
        result_view(r) == (dispatch_model(old(game)@, pi, ClientMessage::Attack { attacker_id, defender_id })->0).1,
        game_wf(final(game)@),
{
    if !game.players[pi].zones.battleline.contains(attacker_id) {
        return Err("Attacker not on your battleline".to_owned());
    }
    if !game.players[1 - pi].zones.battleline.contains(defender_id) {
        return Err("Defender not on opponent battleline".to_owned());
    }
    proof {
        lemma_card_of_zone(game@, pi, attacker_id);
        lemma_card_of_zone(game@, other(pi), defender_id);
    }
    if !can_fight_with(game, attacker_id) {
        return Err("Creature cannot fight now".to_owned());
    }
    if !can_attack(game, attacker_id, defender_id) {
        return Err("A creature with Taunt protects the defender".to_owned());
    }
    attack(game, attacker_id, defender_id);
    Ok(())
}

/// An unstun request of the active player.
fn dispatch_unstun(game: &mut GameState, pi: usize, card_id: CardId) -> (r: Result<(), String>)
    requires
        game_wf(old(game)@),
        pi == old(game)@.active_player,
        dispatch_model(old(game)@, pi, ClientMessage::Unstun { card_id }) is Some,
    ensures
        final(game)@ == (dispatch_model(old(game)@, pi, ClientMessage::Unstun { card_id })->0).0,
        result_view(r) == (dispatch_model(old(game)@, pi, ClientMessage::Unstun { card_id })->0).1,
        game_wf(final(game)@),
{
    if !game.players[pi].zones.battleline.contains(card_id) {
        return Err("Creature not on your battleline".to_owned());
    }
    proof {
        lemma_card_of_zone(game@, pi, card_id);
    }
    let c = game.card(card_id);
    if !(c.stun && !c.exhausted) {
        return Err("Creature is not stunned and ready".to_owned());
    }
    unstun(game, card_id);
    Ok(())
}

/// Process one client message on behalf of `player_idx`.
/// Returns `Ok(())` on success or `Err(reason)` for invalid actions.
pub fn dispatch_message(game: &mut GameState, player_idx: usize, msg: ClientMessage) -> (r: Result<(), String>)
    requires
        game_wf(old(game)@),
        player_idx < 2,
        dispatch_model(old(game)@, player_idx, msg) is Some,
    ensures
        final(game)@ == (dispatch_model(old(game)@, player_idx, msg)->0).0,
        result_view(r) == (dispatch_model(old(game)@, player_idx, msg)->0).1,
        game_wf(final(game)@),
{
    if player_idx != game.active_player {
        return Err("Not your turn".to_owned());
    }
    match msg {
        ClientMessage::ChooseHouse { house, pick_up_archives } => {
            choose_house(game, house, pick_up_archives);
            Ok(())
        },
        ClientMessage::PlayCard { card_id, flank } => dispatch_play(game, player_idx, card_id, flank),
        ClientMessage::PlayCardDeployed { card_id, index } => dispatch_deploy(game, player_idx, card_id, index),
        ClientMessage::Reap { card_id } => dispatch_reap(game, player_idx, card_id),
        ClientMessage::Attack { attacker_id, defender_id } => dispatch_attack(game, player_idx, attacker_id, defender_id),
        ClientMessage::Unstun { card_id } => dispatch_unstun(game, player_idx, card_id),
        ClientMessage::DiscardFromHand { card_id } => dispatch_discard(game, player_idx, card_id),
        ClientMessage::EndTurn => {
            end_turn(game);
            forge_step_active(game);
            Ok(())
        },
    }
}

} // verus!
