//! The filtered view of a game that one player is allowed to see.

use vstd::prelude::*;

use crate::card::{Card, CardId};
use crate::game::GameState;
use crate::model::{GameModel, PlayerModel, ids_in, other, zones_of};
use crate::protocol::{CardView, ClientGameView, KeyView, PlayerView};
use crate::victory::Key;

verus! {

broadcast use vstd::std_specs::hash::group_hash_axioms;

/// Two lists of strings with the same text, entry by entry.
pub open spec fn same_strings(a: Seq<String>, b: Seq<String>) -> bool {
    &&& a.len() == b.len()
    &&& forall|i: int| 0 <= i < a.len() ==> #[trigger] a[i]@ == b[i]@
}

/// The snapshot shows the card's definition and its mutable state.
pub open spec fn shows_card(v: CardView, c: Card) -> bool {
    &&& v.id == c.id
    &&& v.name@ == c.def.name@
    &&& v.card_type == c.def.card_type
    &&& v.house == c.def.house
    &&& v.power == c.def.power
    &&& v.armor == c.def.armor
    &&& v.keywords@ == c.def.keywords@
    &&& v.bonus_icons@ == c.def.bonus_icons@
    &&& same_strings(v.traits@, c.def.traits@)
    &&& v.rarity == c.def.rarity
    &&& v.on_reap@ == c.def.on_reap@
    &&& v.on_fight@ == c.def.on_fight@
    &&& v.on_play@ == c.def.on_play@
    &&& v.on_destroyed@ == c.def.on_destroyed@
    &&& v.text@ == c.def.text@
    &&& v.exhausted == c.exhausted
    &&& v.damage == c.damage
    &&& v.aember == c.aember
    &&& v.stun == c.stun
    &&& v.ward == c.ward
    &&& v.enrage == c.enrage
    &&& v.power_counters == c.power_counters
    &&& v.armor_bonus == c.armor_bonus
}

/// The snapshots show the listed cards, in order.
pub open spec fn shows_cards(vs: Seq<CardView>, ids: Seq<CardId>, cards: Map<CardId, Card>) -> bool {
    &&& vs.len() == ids.len()
    &&& forall|i: int| 0 <= i < vs.len() ==> shows_card(#[trigger] vs[i], cards[ids[i]])
}

/// The key views show the keys, in order.
pub open spec fn shows_keys(vs: Seq<KeyView>, keys: Seq<Key>) -> bool {
    &&& vs.len() == keys.len()
    &&& forall|i: int| 0 <= i < vs.len() ==> (#[trigger] vs[i]).color == keys[i].color && vs[i].forged == keys[i].forged
}

/// The player view shows the player's Aember, keys and chains.
pub open spec fn shows_player(v: PlayerView, p: PlayerModel) -> bool {
    &&& v.aember_pool == p.aember_pool
    &&& shows_keys(v.keys@, p.keys)
    &&& v.chains == p.chains
}

/// The view of the game for player `me`: all of their own zones but the deck, which
/// shows as a count; of the opponent, the cards in play and in the discard pile, and
/// only counts of the hand, the archives and the deck.
pub open spec fn client_view_of(v: ClientGameView, g: GameModel, me: usize) -> bool {
    let mine = zones_of(g, me);
    let theirs = zones_of(g, other(me));
    &&& v.my_index == me
    &&& v.active_player == g.active_player
    &&& v.active_house == g.active_house
    &&& v.turn == g.turn
    &&& shows_player(v.my_player, g.sides[me as int].player)
    &&& shows_cards(v.my_hand@, mine.hand, g.cards)
    &&& shows_cards(v.my_battleline@, mine.battleline, g.cards)
    &&& shows_cards(v.my_artifacts@, mine.artifacts, g.cards)
    &&& shows_cards(v.my_discard@, mine.discard, g.cards)
    &&& shows_cards(v.my_archives@, mine.archives, g.cards)
    &&& v.my_deck_count == mine.deck.len()
    &&& shows_player(v.opp_player, g.sides[other(me) as int].player)
    &&& v.opp_hand_count == theirs.hand.len()
    &&& shows_cards(v.opp_battleline@, theirs.battleline, g.cards)
    &&& shows_cards(v.opp_artifacts@, theirs.artifacts, g.cards)
    &&& shows_cards(v.opp_discard@, theirs.discard, g.cards)
    &&& v.opp_archives_count == theirs.archives.len()
    &&& v.opp_deck_count == theirs.deck.len()
}

/// The cards that player `me` sees face up exist in the game.
pub open spec fn visible_ids_in(g: GameModel, me: usize) -> bool {
    let mine = zones_of(g, me);
    let theirs = zones_of(g, other(me));
    &&& ids_in(mine.hand, g.cards)
    &&& ids_in(mine.battleline, g.cards)
    &&& ids_in(mine.artifacts, g.cards)
    &&& ids_in(mine.discard, g.cards)
    &&& ids_in(mine.archives, g.cards)
    &&& ids_in(theirs.battleline, g.cards)
    &&& ids_in(theirs.artifacts, g.cards)
    &&& ids_in(theirs.discard, g.cards)
}

fn copy_strings(v: &Vec<String>) -> (r: Vec<String>)
    ensures
        same_strings(r@, v@),
{
    let mut r: Vec<String> = Vec::new();
    let mut i: usize = 0;
    while i < v.len()
        invariant
            0 <= i <= v@.len(),
            r@.len() == i,
            forall|k: int| 0 <= k < i ==> #[trigger] r@[k]@ == v@[k]@,
        decreases v@.len() - i,
    {
        r.push(v[i].clone());
        i = i + 1;
    }
    r
}

fn copy_vec<T: Copy>(v: &Vec<T>) -> (r: Vec<T>)
    ensures
        r@ == v@,
{
    let mut r: Vec<T> = Vec::new();
    let mut i: usize = 0;
    while i < v.len()
        invariant
            0 <= i <= v@.len(),
            r@ == v@.take(i as int),
        decreases v@.len() - i,
    {
        r.push(v[i]);
        proof {
            assert(v@.take(i + 1) =~= v@.take(i as int).push(v@[i as int]));
        }
        i = i + 1;
    }
    assert(v@.take(v@.len() as int) =~= v@);
    r
}

fn card_view(card: &Card) -> (v: CardView)
    ensures
        shows_card(v, *card),
{
    CardView {
        id: card.id,
        name: card.def.name.clone(),
        card_type: card.def.card_type,
        house: card.def.house,
        power: card.def.power,
        armor: card.def.armor,
        keywords: copy_vec(&card.def.keywords),
        bonus_icons: copy_vec(&card.def.bonus_icons),
        traits: copy_strings(&card.def.traits),
        rarity: card.def.rarity,
        on_reap: copy_vec(&card.def.on_reap),
        on_fight: copy_vec(&card.def.on_fight),
        on_play: copy_vec(&card.def.on_play),
        on_destroyed: copy_vec(&card.def.on_destroyed),
        text: card.def.text.clone(),
        exhausted: card.exhausted,
        damage: card.damage,
        aember: card.aember,
        stun: card.stun,
        ward: card.ward,
        enrage: card.enrage,
        power_counters: card.power_counters,
        armor_bonus: card.armor_bonus,
    }
}

fn card_views(game: &GameState, ids: &Vec<CardId>) -> (vs: Vec<CardView>)
    requires
        ids_in(ids@, game@.cards),
    ensures
        shows_cards(vs@, ids@, game@.cards),
{
    let mut vs: Vec<CardView> = Vec::new();
    let mut i: usize = 0;
    while i < ids.len()
        invariant
            0 <= i <= ids@.len(),
            ids_in(ids@, game@.cards),
            vs@.len() == i,
            forall|k: int| 0 <= k < i ==> shows_card(#[trigger] vs@[k], game@.cards[ids@[k]]),
        decreases ids@.len() - i,
    {
        let card = game.cards.get(&ids[i]).unwrap();
        vs.push(card_view(card));
        i = i + 1;
    }
    vs
}

fn player_view(game: &GameState, player_idx: usize) -> (v: PlayerView)
    requires
        player_idx < 2,
    ensures
        shows_player(v, game@.sides[player_idx as int].player),
{
    let p = &game.players[player_idx].player;
    let mut keys: Vec<KeyView> = Vec::new();
    let mut i: usize = 0;
    while i < 3
        invariant
            0 <= i <= 3,
            p@ == game@.sides[player_idx as int].player,
            p@.keys.len() == 3,
            keys@.len() == i,
            forall|k: int| 0 <= k < i ==> (#[trigger] keys@[k]).color == p@.keys[k].color
                && keys@[k].forged == p@.keys[k].forged,
        decreases 3 - i,
    {
        let k = p.keys.keys[i];
        keys.push(KeyView { color: k.color, forged: k.forged });
        i = i + 1;
    }
    PlayerView { aember_pool: p.aember_pool, keys, chains: p.chains }
}

/// What player `my_idx` may see of the game.
pub fn to_client_view(game: &GameState, my_idx: usize) -> (v: ClientGameView)
    requires
        my_idx < 2,
        visible_ids_in(game@, my_idx),
    ensures
        client_view_of(v, game@, my_idx),
{
    let opp_idx = 1 - my_idx;
    let my = &game.players[my_idx];
    let opp = &game.players[opp_idx];
    ClientGameView {
        my_index: my_idx,
        active_player: game.active_player,
        active_house: game.active_house,
        turn: game.turn,
        my_player: player_view(game, my_idx),
        my_hand: card_views(game, &my.zones.hand),
        my_battleline: card_views(game, &my.zones.battleline.creature_ids()),
        my_artifacts: card_views(game, &my.zones.artifacts),
        my_discard: card_views(game, &my.zones.discard),
        my_archives: card_views(game, &my.zones.archives),
        my_deck_count: my.zones.deck.len(),
        opp_player: player_view(game, opp_idx),
        opp_hand_count: opp.zones.hand.len(),
        opp_battleline: card_views(game, &opp.zones.battleline.creature_ids()),
        opp_artifacts: card_views(game, &opp.zones.artifacts),
        opp_discard: card_views(game, &opp.zones.discard),
        opp_archives_count: opp.zones.archives.len(),
        opp_deck_count: opp.zones.deck.len(),
    }
}

} // verus!
