use vstd::prelude::*;
use vstd::hash_map::StringHashMap;
use std::collections::HashMap;

use crate::card::{BonusIcon, Card, CardId, CardType, Effect, House, Keyword, absorbed, after_damage, after_heal, after_reset_turn, card_has_keyword, card_power};
use crate::model::{GameModel, PlayerModel, SideModel, add_card_aember, after_play_model, any_taunt, attack_model, can_attack_spec, can_fight_spec, can_play_spec, can_reap_spec, capture_one, capture_then_steal, card_ok, chain_penalty_of, choose_house_model, damage_card, damage_each, dead_in, deploy_zones, destroy_dead_model, destroy_list, discard_model, draw_n, draw_until, effect_basic, effects_basic, effects_full, end_turn_model, fight_after, fight_damage, fight_hits, fight_model, from_hand, gain, game_wf, has_mass_damage, icon_step, icons_model, ids_in, initial_model, is_active_house_spec, lemma_add_card_aember_ok, lemma_after_play_ok, lemma_attack_ok, lemma_capture_then_steal_ok, lemma_damage_card_ok, lemma_damage_each_ok, lemma_damage_each_prefix, lemma_dead_in, lemma_deploy_zones_ok, lemma_destroy_dead_ok, lemma_destroy_list_ok, lemma_destroy_list_prefix, lemma_effects_basic_ok, lemma_effects_full_basic, lemma_effects_full_ok, lemma_effects_full_prefix, lemma_end_turn_ok, lemma_fight_after_ok, lemma_fight_damage_ok, lemma_fight_loot_ok, lemma_fight_poison_ok, lemma_fight_splash_ok, lemma_from_hand_ok, lemma_gain_ok, lemma_icons_ok, lemma_icons_prefix, lemma_ids_in_push, lemma_ids_in_without, lemma_initial_ok, lemma_note_use_ok, lemma_play_zones_ok, lemma_poisoned_ok, lemma_ready_all_ok, lemma_reap_ok, lemma_wf_with_card, lemma_wf_with_pool, lemma_wf_with_zones, lemma_with_zones_same, lemma_with_zones_twice, new_game_model, note_use, other, play_card_model, play_deployed_model, play_zones, poisoned, ready_all, reap_model, receiving_side, setup_ok, splash_one, steal_one, unstun_model, uses_of, with_card, with_player, with_pool, with_zones, x_value, zones_of};
use crate::victory::{Key, KeyColor, PlayerKeys, color_forged, count_forged, first_key_of, initial_keys, keys_ok, law_forge_moves_count_by_one, set_forged, unforged_colors};
use crate::zones::{Flank, PlayerZones, ZonesView, remove_all, without, zones_after_destroy, zones_after_draw};

verus! {

broadcast use vstd::std_specs::hash::group_hash_axioms;

// ---------------------------------------------------------------------------
// Player
// ---------------------------------------------------------------------------

pub struct Player {
    pub aember_pool: u32,
    pub keys: PlayerKeys,
    pub key_cost_modifier: i32,
    /// Current chain count. Reduces hand refill size by 1 per 6 chains.
    pub chains: u32,
}

impl View for Player {
    type V = PlayerModel;

    open spec fn view(&self) -> PlayerModel {
        PlayerModel {
            aember_pool: self.aember_pool,
            keys: self.keys@,
            key_cost_modifier: self.key_cost_modifier,
            chains: self.chains,
        }
    }
}

/// Current key cost: 6 plus the modifier, never below 0.
pub open spec fn key_cost(p: PlayerModel) -> int {
    if 6 + p.key_cost_modifier < 0 { 0 } else { 6 + p.key_cost_modifier }
}

/// The player after trying to forge a key at the given cost: when they can afford it and
/// have an unforged key, the cost is paid and the first unforged key's color is forged.
pub open spec fn forge_at_cost(p: PlayerModel, cost: int) -> PlayerModel {
    if p.aember_pool >= cost && count_forged(p.keys) < 3 {
        PlayerModel {
            aember_pool: (p.aember_pool - cost) as u32,
            keys: set_forged(p.keys, unforged_colors(p.keys)[0], true),
            ..p
        }
    } else {
        p
    }
}

/// A player with fewer than three forged keys has an unforged one.
pub proof fn lemma_unforged_exists(keys: Seq<Key>)
    requires
        keys.len() == 3,
        count_forged(keys) < 3,
    ensures
        unforged_colors(keys).len() > 0,
{
}

impl Player {
    pub fn new() -> (p: Self)
        ensures
            p@ == (PlayerModel {
                aember_pool: 0,
                keys: initial_keys(),
                key_cost_modifier: 0,
                chains: 0,
            }),
    {
        Self { aember_pool: 0, keys: PlayerKeys::new(), key_cost_modifier: 0, chains: 0 }
    }

    /// Base cost is 6. Card effects add/subtract. Minimum 0.
    pub fn current_key_cost(&self) -> (c: u32)
        requires
            self.key_cost_modifier <= i32::MAX - 6,
        ensures
            c == key_cost(self@),
    {
        let s: i32 = 6i32 + self.key_cost_modifier;
        if s < 0 {
            0
        } else {
            s as u32
        }
    }

    /// Returns the first unforged key color.
    pub fn choose_key_to_forge(&self) -> (c: KeyColor)
        requires
            unforged_colors(self@.keys).len() > 0,
        ensures
            c == unforged_colors(self@.keys)[0],
    {
        let v = self.keys.unforged_keys();
        v[0]
    }
}

/// Forge a key at `cost` if the player can pay and has an unforged key.
/// Returns whether all three keys are now forged.
fn forge_with_cost(player: &mut Player, cost: u32) -> (won: bool)
    ensures
        final(player)@ == forge_at_cost(old(player)@, cost as int),
        won == (count_forged(final(player)@.keys) == 3),
{
    if player.aember_pool >= cost && player.keys.forged_count() < 3 {
        player.aember_pool = player.aember_pool - cost;
        proof {
            lemma_unforged_exists(player@.keys);
        }
        let color = player.choose_key_to_forge();
        player.keys.forge(color);
    }
    player.keys.has_won()
}

/// Step 1 of turn. Returns true if the player wins.
pub fn step_forge_key(player: &mut Player) -> (won: bool)
    requires
        old(player).key_cost_modifier <= i32::MAX - 6,
    ensures
        final(player)@ == forge_at_cost(old(player)@, key_cost(old(player)@)),
        won == (count_forged(final(player)@.keys) == 3),
{
    let cost = player.current_key_cost();
    forge_with_cost(player, cost)
}

/// End-of-turn check announcement.
pub fn should_announce_check(player: &Player) -> (b: bool)
    requires
        player.key_cost_modifier <= i32::MAX - 6,
    ensures
        b == (player.aember_pool >= key_cost(player@) && count_forged(player@.keys) < 3),
{
    player.aember_pool >= player.current_key_cost() && player.keys.forged_count() < 3
}

/// Forge a key outside of Step 1 (card effect). Returns true if the player wins.
pub fn forge_key_at_cost(player: &mut Player, cost: u32) -> (won: bool)
    ensures
        final(player)@ == forge_at_cost(old(player)@, cost as int),
        won == (count_forged(final(player)@.keys) == 3),
{
    forge_with_cost(player, cost)
}

// ---------------------------------------------------------------------------
// Game state
// ---------------------------------------------------------------------------

pub struct PlayerState {
    pub player: Player,
    pub zones: PlayerZones,
}

impl View for PlayerState {
    type V = SideModel;

    open spec fn view(&self) -> SideModel {
        SideModel { player: self.player@, zones: self.zones@ }
    }
}

pub struct GameState {
    pub players: [PlayerState; 2],
    pub cards: HashMap<CardId, Card>,
    pub active_player: usize,
    pub active_house: Option<House>,
    pub turn: u32,
    /// Index of the player who goes first (subject to First Turn Rule).
    pub first_player: usize,
    /// Number of cards played or used (reap/attack) this turn.
    pub cards_used_this_turn: u32,
    /// How many times each card name has been played/used this turn (Rule of Six).
    pub card_use_counts: StringHashMap<u32>,
    /// Set when an Omega card is played; blocks further plays this step.
    pub omega_triggered: bool,
}

impl GameState {
    pub fn new(p0_deck: Vec<CardId>, p1_deck: Vec<CardId>, cards: HashMap<CardId, Card>) -> (g: Self)
        ensures
            g@ == new_game_model(p0_deck@, p1_deck@, cards@),
            setup_ok(p0_deck@, p1_deck@, cards@) ==> game_wf(g@),
    {
        let mut state = Self::new_no_draw(p0_deck, p1_deck, cards);
        proof {
            if setup_ok(p0_deck@, p1_deck@, cards@) {
                lemma_initial_ok(p0_deck@, p1_deck@, cards@);
            }
        }
        // Setup draw: first player draws 7, second player draws 6.
        draw_cards(&mut state, 0, 7);
        draw_cards(&mut state, 1, 6);
        state
    }

    /// Create a game state without the initial draw (for games whose hands are set up by hand).
    pub fn new_no_draw(p0_deck: Vec<CardId>, p1_deck: Vec<CardId>, cards: HashMap<CardId, Card>) -> (g: Self)
        ensures
            g@ == initial_model(p0_deck@, p1_deck@, cards@),
            setup_ok(p0_deck@, p1_deck@, cards@) ==> game_wf(g@),
    {
        let g = Self {
            players: [
                PlayerState { player: Player::new(), zones: PlayerZones::new(p0_deck) },
                PlayerState { player: Player::new(), zones: PlayerZones::new(p1_deck) },
            ],
            cards,
            active_player: 0,
            active_house: None,
            turn: 1,
            first_player: 0,
            cards_used_this_turn: 0,
            card_use_counts: StringHashMap::new(),
            omega_triggered: false,
        };
        proof {
            assert(g@.sides =~= initial_model(p0_deck@, p1_deck@, cards@).sides);
            assert(g@.use_counts =~= Map::<Seq<char>, u32>::empty());
            if setup_ok(p0_deck@, p1_deck@, cards@) {
                lemma_initial_ok(p0_deck@, p1_deck@, cards@);
            }
        }
        g
    }
}

impl View for GameState {
    type V = GameModel;

    open spec fn view(&self) -> GameModel {
        GameModel {
            sides: seq![self.players@[0]@, self.players@[1]@],
            cards: self.cards@,
            active_player: self.active_player,
            active_house: self.active_house,
            turn: self.turn,
            first_player: self.first_player,
            cards_used_this_turn: self.cards_used_this_turn,
            use_counts: self.card_use_counts@,
            omega_triggered: self.omega_triggered,
        }
    }
}

} // verus!

verus! {

/// Copy of an effect list.
fn copy_effects(v: &Vec<Effect>) -> (r: Vec<Effect>)
    ensures
        r@ == v@,
{
    let mut r: Vec<Effect> = Vec::new();
    let mut i: usize = 0;
    while i < v.len()
        invariant
            0 <= i <= v@.len(),
            r@ == v@.take(i as int),
        decreases v@.len() - i,
    {
        r.push(v[i]);
        proof {
            assert(v@.take(i + 1) =~= v@.take(i as int).push(v@[i as int]));
        }
        i = i + 1;
    }
    assert(v@.take(v@.len() as int) =~= v@);
    r
}

/// Copy of a bonus icon list.
fn copy_icons(v: &Vec<BonusIcon>) -> (r: Vec<BonusIcon>)
    ensures
        r@ == v@,
{
    let mut r: Vec<BonusIcon> = Vec::new();
    let mut i: usize = 0;
    while i < v.len()
        invariant
            0 <= i <= v@.len(),
            r@ == v@.take(i as int),
        decreases v@.len() - i,
    {
        r.push(v[i]);
        proof {
            assert(v@.take(i + 1) =~= v@.take(i as int).push(v@[i as int]));
        }
        i = i + 1;
    }
    assert(v@.take(v@.len() as int) =~= v@);
    r
}

impl GameState {
    /// A card of the game.
    pub(crate) fn card(&self, id: CardId) -> (c: &Card)
        requires
            self.cards@.contains_key(id),
        ensures
            *c == self.cards@[id],
    {
        self.cards.get(&id).unwrap()
    }

    fn take_card(&mut self, id: CardId) -> (c: Card)
        requires
            old(self).cards@.contains_key(id),
        ensures
            c == old(self).cards@[id],
            final(self)@ == (GameModel { cards: old(self).cards@.remove(id), ..old(self)@ }),
    {
        self.cards.remove(&id).unwrap()
    }

    fn put_card(&mut self, id: CardId, c: Card)
        ensures
            final(self)@ == (GameModel { cards: old(self).cards@.insert(id, c), ..old(self)@ }),
    {
        self.cards.insert(id, c);
    }

    /// Card `id` after `deal_damage(n)`.
    fn damage_card(&mut self, id: CardId, n: u32)
        requires
            damage_card(old(self)@, id, n) is Some,
        ensures
            final(self)@ == damage_card(old(self)@, id, n)->0,
    {
        let ghost g = self@;
        let mut c = self.take_card(id);
        c.deal_damage(n);
        self.put_card(id, c);
        assert(self@.cards =~= g.cards.insert(id, after_damage(g.cards[id], n)));
    }

    /// Card `id` gets `n` more Aember.
    fn add_card_aember(&mut self, id: CardId, n: u32)
        requires
            add_card_aember(old(self)@, id, n as int) is Some,
        ensures
            final(self)@ == add_card_aember(old(self)@, id, n as int)->0,
    {
        let ghost g = self@;
        let mut c = self.take_card(id);
        c.aember = c.aember + n;
        self.put_card(id, c);
        assert(self@.cards =~= g.cards.insert(id, Card { aember: (g.cards[id].aember + n) as u32, ..g.cards[id] }));
    }

    fn set_pool(&mut self, i: usize, v: u32)
        requires
            i < 2,
        ensures
            final(self)@ == with_pool(old(self)@, i, v),
    {
        self.players[i].player.aember_pool = v;
        assert(self@.sides =~= with_pool(old(self)@, i, v).sides);
    }

    fn gain_aember(&mut self, i: usize, n: u32)
        requires
            i < 2,
            gain(old(self)@, i, n as int) is Some,
        ensures
            final(self)@ == gain(old(self)@, i, n as int)->0,
    {
        let v = self.players[i].player.aember_pool + n;
        self.set_pool(i, v);
    }

    fn note_use(&mut self, name: &String)
        requires
            note_use(old(self)@, name@) is Some,
        ensures
            final(self)@ == note_use(old(self)@, name@)->0,
    {
        let n: u32 = match self.card_use_counts.get(name.as_str()) {
            Some(k) => *k,
            None => 0,
        };
        self.card_use_counts.insert(name.clone(), n + 1);
        self.cards_used_this_turn = self.cards_used_this_turn + 1;
    }

    fn draw_for(&mut self, i: usize) -> (r: Option<CardId>)
        requires
            i < 2,
        ensures
            final(self)@ == with_zones(old(self)@, i, zones_after_draw(zones_of(old(self)@, i)).0),
            r == zones_after_draw(zones_of(old(self)@, i)).1,
    {
        let r = self.players[i].zones.draw();
        assert(self@.sides =~= with_zones(old(self)@, i, self.players@[i as int].zones@).sides);
        r
    }

    fn destroy_for(&mut self, i: usize, id: CardId)
        requires
            i < 2,
        ensures
            final(self)@ == with_zones(old(self)@, i, zones_after_destroy(zones_of(old(self)@, i), id)),
    {
        self.players[i].zones.destroy(id);
        assert(self@.sides =~= with_zones(old(self)@, i, self.players@[i as int].zones@).sides);
    }
}

} // verus!

verus! {

/// Player `i` draws `n` cards.
fn draw_cards(game: &mut GameState, i: usize, n: u32)
    requires
        i < 2,
        old(game)@.sides.len() == 2,
    ensures
        final(game)@ == with_zones(old(game)@, i, draw_n(zones_of(old(game)@, i), n as nat)),
{
    let ghost z0 = zones_of(game@, i);
    let ghost gd = game@;
    proof {
        lemma_with_zones_same(gd, i);
    }
    let mut k: u32 = 0;
    while k < n
        invariant
            0 <= k <= n,
            i < 2,
            gd.sides.len() == 2,
            z0 == zones_of(gd, i),
            game@ == with_zones(gd, i, draw_n(z0, k as nat)),
        decreases n - k,
    {
        proof {
            lemma_with_zones_twice(gd, i, draw_n(z0, k as nat), draw_n(z0, (k + 1) as nat));
        }
        let _ = game.draw_for(i);
        k = k + 1;
    }
}

/// One effect other than mass damage.
fn apply_basic_effect(game: &mut GameState, card_id: CardId, controller: usize, effect: Effect)
    requires
        game_wf(old(game)@),
        controller < 2,
        effect_basic(old(game)@, card_id, controller, effect) is Some,
        !(effect is DealDamageToEachEnemy),
    ensures
        final(game)@ == effect_basic(old(game)@, card_id, controller, effect)->0,
{
    let opp = 1 - controller;
    match effect {
        Effect::GainAember(n) => {
            game.gain_aember(controller, n);
        },
        Effect::StealAember(n) => {
            let p = game.players[opp].player.aember_pool;
            let stolen = if n < p { n } else { p };
            game.set_pool(opp, p - stolen);
            game.gain_aember(controller, stolen);
        },
        Effect::CaptureAember(n) => {
            let p = game.players[opp].player.aember_pool;
            let captured = if n < p { n } else { p };
            game.set_pool(opp, p - captured);
            game.add_card_aember(card_id, captured);
        },
        Effect::DrawCards(n) => {
            draw_cards(game, controller, n);
        },
        Effect::DealDamageToEachEnemy(_) => {},
        Effect::HealSelf(n) => {
            let mut c = game.take_card(card_id);
            c.heal(n);
            game.put_card(card_id, c);
            proof {
                let g = old(game)@;
                assert(game@.cards =~= g.cards.insert(card_id, after_heal(g.cards[card_id], n)));
            }
        },
    }
}

/// Each listed creature takes `n` damage.
fn damage_all(game: &mut GameState, ids: &Vec<CardId>, n: u32)
    requires
        damage_each(old(game)@, ids@, n) is Some,
    ensures
        final(game)@ == damage_each(old(game)@, ids@, n)->0,
{
    let ghost gd = game@;
    let mut k: usize = 0;
    while k < ids.len()
        invariant
            0 <= k <= ids@.len(),
            damage_each(gd, ids@, n) is Some,
            damage_each(gd, ids@.take(k as int), n) == Some(game@),
        decreases ids@.len() - k,
    {
        proof {
            lemma_damage_each_prefix(gd, ids@, n, k + 1);
            assert(ids@.take(k + 1).drop_last() =~= ids@.take(k as int));
        }
        game.damage_card(ids[k], n);
        k = k + 1;
    }
    proof {
        assert(ids@.take(ids@.len() as int) =~= ids@);
    }
}

/// Apply a slice of triggered effects on behalf of `controller`.
/// `card_id` is the source card (for self-targeting effects).
fn apply_effects(game: &mut GameState, card_id: CardId, controller: usize, effects: &Vec<Effect>)
    requires
        game_wf(old(game)@),
        controller < 2,
        effects_full(old(game)@, card_id, controller, effects@) is Some,
    ensures
        final(game)@ == effects_full(old(game)@, card_id, controller, effects@)->0,
    decreases if has_mass_damage(effects@) { 3nat } else { 0nat },
{
    let ghost g0 = game@;
    let mut i: usize = 0;
    while i < effects.len()
        invariant
            0 <= i <= effects@.len(),
            controller < 2,
            game_wf(g0),
            effects_full(g0, card_id, controller, effects@) is Some,
            effects_full(g0, card_id, controller, effects@.take(i as int)) == Some(game@),
            game_wf(game@),
        decreases effects@.len() - i,
    {
        proof {
            lemma_effects_full_prefix(g0, card_id, controller, effects@, i + 1);
            assert(effects@.take(i + 1).drop_last() =~= effects@.take(i as int));
            assert(effects@.take(i + 1).last() == effects@[i as int]);
            lemma_effects_full_ok(g0, card_id, controller, effects@.take(i + 1));
        }
        let effect = effects[i];
        match effect {
            Effect::DealDamageToEachEnemy(n) => {
                proof {
                    assert(effects@[i as int] is DealDamageToEachEnemy);
                    assert(has_mass_damage(effects@));
                }
                let enemies = game.players[1 - controller].zones.battleline.creature_ids();
                let ghost gd = game@;
                damage_all(game, &enemies, n);
                proof {
                    lemma_damage_each_ok(gd, enemies@, n);
                }
                destroy_dead(game);
            },
            _ => {
                apply_basic_effect(game, card_id, controller, effect);
            },
        }
        i = i + 1;
    }
    proof {
        assert(effects@.take(effects@.len() as int) =~= effects@);
    }
}

/// Move the destroyed creatures of player `pi` to the discard pile,
/// transferring any captured Aember to the opponent first.
fn destroy_side(game: &mut GameState, pi: usize)
    requires
        game_wf(old(game)@),
        pi < 2,
        destroy_list(old(game)@, pi, dead_in(zones_of(old(game)@, pi).battleline, old(game)@.cards)) is Some,
    ensures
        final(game)@ == destroy_list(
            old(game)@,
            pi,
            dead_in(zones_of(old(game)@, pi).battleline, old(game)@.cards),
        )->0,
    decreases 1nat,
{
    let ghost g0 = game@;
    let ids = game.players[pi].zones.battleline.creature_ids();
    let mut dead: Vec<CardId> = Vec::new();
    let mut i: usize = 0;
    while i < ids.len()
        invariant
            0 <= i <= ids@.len(),
            game@ == g0,
            game_wf(g0),
            ids@ == zones_of(g0, pi).battleline,
            dead@ == dead_in(ids@.take(i as int), g0.cards),
        decreases ids@.len() - i,
    {
        let id = ids[i];
        proof {
            assert(ids@.take(i + 1).drop_last() =~= ids@.take(i as int));
        }
        match game.cards.get(&id) {
            Some(c) => {
                if c.is_destroyed() && !c.has_keyword(Keyword::Invulnerable) {
                    dead.push(id);
                }
            },
            None => {},
        }
        i = i + 1;
    }
    proof {
        assert(ids@.take(ids@.len() as int) =~= ids@);
        lemma_dead_in(ids@, g0.cards);
    }
    let mut j: usize = 0;
    while j < dead.len()
        invariant
            0 <= j <= dead@.len(),
            pi < 2,
            game_wf(g0),
            dead@ == dead_in(zones_of(g0, pi).battleline, g0.cards),
            forall|k: int| 0 <= k < dead@.len() ==> g0.cards.contains_key(#[trigger] dead@[k]),
            destroy_list(g0, pi, dead@) is Some,
            destroy_list(g0, pi, dead@.take(j as int)) == Some(game@),
            game_wf(game@),
            game@.cards.dom() == g0.cards.dom(),
        decreases dead@.len() - j,
    {
        proof {
            lemma_destroy_list_prefix(g0, pi, dead@, j + 1);
            assert(dead@.take(j + 1).drop_last() =~= dead@.take(j as int));
            assert(forall|k: int| 0 <= k < dead@.take(j + 1).len() ==> dead@.take(j + 1)[k] == dead@[k]);
            lemma_destroy_list_ok(g0, pi, dead@.take(j + 1));
        }
        let id = dead[j];
        let ghost gs = game@;
        proof {
            assert(g0.cards.contains_key(dead@[j as int]));
        }
        let od = copy_effects(&game.card(id).def.on_destroyed);
        proof {
            assert(card_ok(gs.cards[id]));
            lemma_effects_full_basic(gs, id, pi, od@);
            lemma_effects_basic_ok(gs, id, pi, od@);
        }
        apply_effects(game, id, pi, &od);
        let captured = game.card(id).aember;
        if captured > 0 {
            game.gain_aember(1 - pi, captured);
            let mut c = game.take_card(id);
            c.aember = 0;
            game.put_card(id, c);
        }
        game.destroy_for(pi, id);
        proof {
            let g1 = effects_basic(gs, id, pi, gs.cards[id].def.on_destroyed@)->0;
            if captured > 0 {
                let gg = gain(g1, other(pi), captured as int)->0;
                assert(with_card(gg, id, Card { aember: 0, ..g1.cards[id] }).cards =~= gg.cards.remove(id).insert(id, Card { aember: 0, ..g1.cards[id] }));
            }
        }
        j = j + 1;
    }
    proof {
        assert(dead@.take(dead@.len() as int) =~= dead@);
    }
}

/// Move all destroyed creatures to their owner's discard pile,
/// transferring any captured Aember to the opponent first.
fn destroy_dead(game: &mut GameState)
    requires
        game_wf(old(game)@),
        destroy_dead_model(old(game)@) is Some,
    ensures
        final(game)@ == destroy_dead_model(old(game)@)->0,
    decreases 2nat,
{
    let ghost g = game@;
    proof {
        lemma_dead_in(zones_of(g, 0).battleline, g.cards);
        lemma_destroy_list_ok(g, 0, dead_in(zones_of(g, 0).battleline, g.cards));
    }
    destroy_side(game, 0);
    destroy_side(game, 1);
}

} // verus!

verus! {

/// One bonus icon of a card just played by player `pi`.
fn resolve_icon(game: &mut GameState, card_id: CardId, pi: usize, icon: BonusIcon)
    requires
        game_wf(old(game)@),
        pi < 2,
        old(game)@.cards.contains_key(card_id),
        icon_step(old(game)@, card_id, pi, icon) is Some,
    ensures
        final(game)@ == icon_step(old(game)@, card_id, pi, icon)->0,
{
    let opp = 1 - pi;
    match icon {
        BonusIcon::Aember => {
            game.gain_aember(pi, 1);
        },
        BonusIcon::Capture => {
            let p = game.players[opp].player.aember_pool;
            let n: u32 = if 1 < p { 1 } else { p };
            game.set_pool(opp, p - n);
            proof {
                lemma_wf_with_pool(old(game)@, opp, (p - n) as u32);
            }
            let is_creature = game.card(card_id).def.card_type == CardType::Creature;
            let target = if is_creature {
                Some(card_id)
            } else {
                game.players[pi].zones.battleline.left_flank()
            };
            match target {
                Some(t) => {
                    game.add_card_aember(t, n);
                },
                None => {
                    game.gain_aember(opp, n);
                },
            }
        },
        BonusIcon::Damage => {
            let target = match game.players[opp].zones.battleline.left_flank() {
                Some(t) => Some(t),
                None => game.players[pi].zones.battleline.left_flank(),
            };
            match target {
                Some(t) => {
                    let ghost g0 = game@;
                    game.damage_card(t, 1);
                    proof {
                        lemma_damage_card_ok(g0, t, 1);
                    }
                    destroy_dead(game);
                },
                None => {},
            }
        },
        BonusIcon::Draw => {
            let _ = game.draw_for(pi);
        },
        BonusIcon::Discard => {},
    }
}

/// Resolve all bonus icons on a card immediately after it is played.
/// Non-interactive icons (Aember, Draw) resolve automatically.
/// Capture defaults to the played creature if it's a creature, else the first friendly creature.
/// Damage defaults to the first enemy creature (first friendly if no enemies).
/// Discard requires player choice and is skipped.
fn resolve_bonus_icons(game: &mut GameState, card_id: CardId, pi: usize)
    requires
        game_wf(old(game)@),
        pi < 2,
        old(game)@.cards.contains_key(card_id),
        icons_model(old(game)@, card_id, pi, old(game)@.cards[card_id].def.bonus_icons@) is Some,
    ensures
        final(game)@ == icons_model(
            old(game)@,
            card_id,
            pi,
            old(game)@.cards[card_id].def.bonus_icons@,
        )->0,
{
    let ghost g0 = game@;
    let icons = copy_icons(&game.card(card_id).def.bonus_icons);
    let mut i: usize = 0;
    while i < icons.len()
        invariant
            0 <= i <= icons@.len(),
            pi < 2,
            game_wf(g0),
            icons_model(g0, card_id, pi, icons@) is Some,
            icons_model(g0, card_id, pi, icons@.take(i as int)) == Some(game@),
            game_wf(game@),
            game@.cards.dom() == g0.cards.dom(),
            g0.cards.contains_key(card_id),
        decreases icons@.len() - i,
    {
        proof {
            lemma_icons_prefix(g0, card_id, pi, icons@, i + 1);
            assert(icons@.take(i + 1).drop_last() =~= icons@.take(i as int));
            lemma_icons_ok(g0, card_id, pi, icons@.take(i + 1));
        }
        resolve_icon(game, card_id, pi, icons[i]);
        i = i + 1;
    }
    proof {
        assert(icons@.take(icons@.len() as int) =~= icons@);
    }
}

impl GameState {
    fn set_exhausted(&mut self, id: CardId, v: bool)
        requires
            old(self).cards@.contains_key(id),
        ensures
            final(self)@ == with_card(old(self)@, id, Card { exhausted: v, ..old(self).cards@[id] }),
    {
        let ghost g = self@;
        let mut c = self.take_card(id);
        c.exhausted = v;
        self.put_card(id, c);
        assert(self@.cards =~= g.cards.insert(id, Card { exhausted: v, ..g.cards[id] }));
    }
}

/// Bonus icons, Exalt, Play effects, Omega and the use count of a card just put into play.
fn after_play(game: &mut GameState, card_id: CardId)
    requires
        game_wf(old(game)@),
        old(game)@.cards.contains_key(card_id),
        after_play_model(old(game)@, card_id) is Some,
    ensures
        final(game)@ == after_play_model(old(game)@, card_id)->0,
{
    let ghost g0 = game@;
    let pi = game.active_player;
    proof {
        lemma_icons_ok(g0, card_id, pi, g0.cards[card_id].def.bonus_icons@);
    }
    resolve_bonus_icons(game, card_id, pi);
    let ghost g1 = game@;
    if game.card(card_id).has_keyword(Keyword::Exalt) {
        game.add_card_aember(card_id, 1);
        proof {
            lemma_add_card_aember_ok(g1, card_id, 1);
        }
    }
    let ghost g3 = game@;
    let on_play = copy_effects(&game.card(card_id).def.on_play);
    apply_effects(game, card_id, pi, &on_play);
    proof {
        lemma_effects_full_ok(g3, card_id, pi, on_play@);
    }
    if game.card(card_id).has_keyword(Keyword::Omega) {
        game.omega_triggered = true;
    }
    let name = game.card(card_id).def.name.clone();
    game.note_use(&name);
}

/// Play a card from hand.
/// Creatures go to the battleline at `flank` (ignored for other types).
/// Actions go to discard. Artifacts go to the artifact zone.
/// Upgrades are discarded (upgrade attachment is not modelled).
/// Handles Treachery, bonus icons, Exalt, on_play effects, Omega, and Rule of Six.
pub fn play_card(game: &mut GameState, card_id: CardId, flank: Flank)
    requires
        game_wf(old(game)@),
        play_card_model(old(game)@, card_id, flank) is Some,
    ensures
        final(game)@ == play_card_model(old(game)@, card_id, flank)->0,
        game_wf(final(game)@),
{
    let ghost g0 = game@;
    let card_type = game.card(card_id).def.card_type;
    let pi = game.active_player;
    // Treachery: the card enters play under the opponent's control.
    let has_treachery = game.card(card_id).has_keyword(Keyword::Treachery);
    let owner = if has_treachery { 1 - pi } else { pi };
    take_from_hand(game, card_id);
    let ghost g1 = game@;
    match card_type {
        CardType::Creature => {
            game.players[owner].zones.battleline.add(card_id, flank);
        },
        CardType::Artifact => {
            game.players[owner].zones.artifacts.push(card_id);
        },
        _ => {
            game.players[pi].zones.discard.push(card_id);
        },
    }
    proof {
        assert(game@.sides =~= play_zones(g0, card_id, flank).sides);
        lemma_play_zones_ok(g0, card_id, flank);
        lemma_after_play_ok(game@, card_id);
    }
    after_play(game, card_id);
}

/// The active player takes a card out of their hand.
fn take_from_hand(game: &mut GameState, card_id: CardId)
    requires
        game_wf(old(game)@),
    ensures
        final(game)@ == from_hand(old(game)@, card_id),
{
    let pi = game.active_player;
    remove_all(&mut game.players[pi].zones.hand, card_id);
    assert(game@.sides =~= from_hand(old(game)@, card_id).sides);
}

/// Play a creature with Deploy: place it at any position in the battleline.
pub fn play_card_deployed(game: &mut GameState, card_id: CardId, index: usize)
    requires
        game_wf(old(game)@),
        play_deployed_model(old(game)@, card_id, index) is Some,
        index <= zones_of(old(game)@, receiving_side(old(game)@, card_id)).battleline.len(),
    ensures
        final(game)@ == play_deployed_model(old(game)@, card_id, index)->0,
        game_wf(final(game)@),
{
    let ghost g0 = game@;
    let pi = game.active_player;
    let has_treachery = game.card(card_id).has_keyword(Keyword::Treachery);
    let owner = if has_treachery { 1 - pi } else { pi };
    take_from_hand(game, card_id);
    proof {
        lemma_from_hand_ok(g0, card_id);
    }
    game.players[owner].zones.battleline.deploy_at(index, card_id);
    proof {
        assert(game@.sides =~= deploy_zones(g0, card_id, index).sides);
        lemma_deploy_zones_ok(g0, card_id, index);
        lemma_after_play_ok(game@, card_id);
    }
    after_play(game, card_id);
}

} // verus!

verus! {

/// Player `ctl`'s card `id` captures 1 Aember from the opponent (if they have any).
fn capture_one_exec(game: &mut GameState, ctl: usize, id: CardId)
    requires
        ctl < 2,
        capture_one(old(game)@, ctl, id) is Some,
    ensures
        final(game)@ == capture_one(old(game)@, ctl, id)->0,
{
    let opp = 1 - ctl;
    let p = game.players[opp].player.aember_pool;
    let n: u32 = if 1 < p { 1 } else { p };
    game.set_pool(opp, p - n);
    game.add_card_aember(id, n);
}

/// Player `ctl` steals 1 Aember from the opponent (if they have any).
fn steal_one_exec(game: &mut GameState, ctl: usize)
    requires
        ctl < 2,
        steal_one(old(game)@, ctl) is Some,
    ensures
        final(game)@ == steal_one(old(game)@, ctl)->0,
{
    let opp = 1 - ctl;
    let p = game.players[opp].player.aember_pool;
    let n: u32 = if 1 < p { 1 } else { p };
    game.set_pool(opp, p - n);
    game.gain_aember(ctl, n);
}

/// Capture then Steal, as the card's keywords say, on behalf of player `ctl`.
fn capture_then_steal_exec(
    game: &mut GameState,
    ctl: usize,
    id: CardId,
    Ghost(c): Ghost<Card>,
    capture: bool,
    steal: bool,
)
    requires
        ctl < 2,
        capture == card_has_keyword(c, Keyword::Capture),
        steal == card_has_keyword(c, Keyword::Steal),
        capture_then_steal(old(game)@, ctl, id, c) is Some,
    ensures
        final(game)@ == capture_then_steal(old(game)@, ctl, id, c)->0,
{
    if capture {
        capture_one_exec(game, ctl, id);
    }
    if steal {
        steal_one_exec(game, ctl);
    }
}

/// Exhaust a friendly creature and gain 1 Aember.
/// Also handles Capture, Steal, and on_reap effects.
pub fn reap(game: &mut GameState, card_id: CardId)
    requires
        game_wf(old(game)@),
        reap_model(old(game)@, card_id) is Some,
    ensures
        final(game)@ == reap_model(old(game)@, card_id)->0,
        game_wf(final(game)@),
{
    let ghost g = game@;
    proof {
        lemma_reap_ok(g, card_id);
        lemma_wf_with_card(g, card_id, Card { exhausted: true, ..g.cards[card_id] });
    }
    let pi = game.active_player;
    game.set_exhausted(card_id, true);
    let ghost g0 = game@;
    game.gain_aember(pi, 1);
    let ghost g1 = game@;
    proof {
        lemma_gain_ok(g0, pi, 1);
        lemma_capture_then_steal_ok(g1, pi, card_id, g1.cards[card_id]);
    }
    let capture = game.card(card_id).has_keyword(Keyword::Capture);
    let steal = game.card(card_id).has_keyword(Keyword::Steal);
    capture_then_steal_exec(game, pi, card_id, Ghost(g1.cards[card_id]), capture, steal);
    let on_reap = copy_effects(&game.card(card_id).def.on_reap);
    apply_effects(game, card_id, pi, &on_reap);
    let name = game.card(card_id).def.name.clone();
    game.note_use(&name);
}

/// Use a stunned creature: exhaust it and remove its stun counter.
/// This counts as using the creature for Rule of Six purposes.
pub fn unstun(game: &mut GameState, card_id: CardId)
    requires
        game_wf(old(game)@),
        unstun_model(old(game)@, card_id) is Some,
    ensures
        final(game)@ == unstun_model(old(game)@, card_id)->0,
        game_wf(final(game)@),
{
    let ghost g = game@;
    let mut c = game.take_card(card_id);
    c.stun = false;
    c.exhausted = true;
    game.put_card(card_id, c);
    proof {
        assert(game@.cards =~= g.cards.insert(card_id, Card { stun: false, exhausted: true, ..g.cards[card_id] }));
        lemma_wf_with_card(g, card_id, Card { stun: false, exhausted: true, ..g.cards[card_id] });
        lemma_note_use_ok(game@, game@.cards[card_id].def.name@);
    }
    let name = game.card(card_id).def.name.clone();
    game.note_use(&name);
}

/// Discard a card from the active player's hand (Step 3 discard action).
pub fn discard_card_from_hand(game: &mut GameState, card_id: CardId)
    requires
        game_wf(old(game)@),
        discard_model(old(game)@, card_id) is Some,
    ensures
        final(game)@ == discard_model(old(game)@, card_id)->0,
        game_wf(final(game)@),
{
    let ghost g = game@;
    let pi = game.active_player;
    game.players[pi].zones.discard_from_hand(card_id);
    proof {
        let z = zones_of(g, pi);
        let nz = ZonesView { hand: without(z.hand, card_id), discard: z.discard.push(card_id), ..z };
        assert(game@.sides =~= with_zones(g, pi, nz).sides);
        lemma_ids_in_without(z.hand, card_id, g.cards);
        lemma_ids_in_push(z.discard, card_id, g.cards);
        lemma_wf_with_zones(g, pi, nz);
        lemma_note_use_ok(game@, g.cards[card_id].def.name@);
    }
    let name = game.card(card_id).def.name.clone();
    game.note_use(&name);
}

/// Set the active house for this turn. Optionally pick up all archived cards.
pub fn choose_house(game: &mut GameState, house: House, pick_up_archives: bool)
    requires
        old(game).active_player < 2,
    ensures
        final(game)@ == choose_house_model(old(game)@, house, pick_up_archives),
        game_wf(old(game)@) ==> game_wf(final(game)@),
{
    let ghost g = game@;
    game.active_house = Some(house);
    if pick_up_archives {
        let pi = game.active_player;
        game.players[pi].zones.pick_up_archives();
        proof {
            let g1 = GameModel { active_house: Some(house), ..g };
            let z = zones_of(g1, pi);
            assert(game@.sides =~= with_zones(
                g1,
                pi,
                ZonesView { hand: z.hand + z.archives, archives: Seq::empty(), ..z },
            ).sides);
            if game_wf(g) {
                assert forall|k: int| 0 <= k < (z.hand + z.archives).len() implies g.cards.contains_key(
                    #[trigger] (z.hand + z.archives)[k],
                ) by {
                    if k < z.hand.len() {
                        assert((z.hand + z.archives)[k] == z.hand[k]);
                    } else {
                        assert((z.hand + z.archives)[k] == z.archives[k - z.hand.len()]);
                    }
                }
                lemma_wf_with_zones(g1, pi, ZonesView { hand: z.hand + z.archives, archives: Seq::empty(), ..z });
            }
        }
    }
}

} // verus!

verus! {

/// Extract the X value from Assault(X), Hazardous(X), or SplashAttack(X).
/// Pass Keyword::Assault(0) / Keyword::Hazardous(0) / Keyword::SplashAttack(0) as tag.
fn x_keyword(keywords: &Vec<Keyword>, tag: Keyword) -> (x: u32)
    ensures
        x == x_value(keywords@, tag),
{
    let mut i: usize = 0;
    assert(keywords@.skip(0) =~= keywords@);
    while i < keywords.len()
        invariant
            0 <= i <= keywords@.len(),
            x_value(keywords@, tag) == x_value(keywords@.skip(i as int), tag),
        decreases keywords@.len() - i,
    {
        let kw = keywords[i];
        proof {
            assert(keywords@.skip(i as int).drop_first() =~= keywords@.skip(i + 1));
            assert(keywords@.skip(i as int)[0] == kw);
        }
        match (kw, tag) {
            (Keyword::Assault(x), Keyword::Assault(_)) => {
                return x;
            },
            (Keyword::Hazardous(x), Keyword::Hazardous(_)) => {
                return x;
            },
            (Keyword::SplashAttack(x), Keyword::SplashAttack(_)) => {
                return x;
            },
            _ => {},
        }
        i = i + 1;
    }
    0
}

/// Assault, Hazardous and the exchange of fight damage.
fn fight_damage_exec(
    game: &mut GameState,
    a: CardId,
    d: CardId,
    Ghost(ca): Ghost<Card>,
    Ghost(cd): Ghost<Card>,
    assault: u32,
    hazardous: u32,
    attacker_power: u32,
    defender_power: u32,
    skirmish: bool,
) -> (hits: (bool, bool))
    requires
        game_wf(old(game)@),
        old(game)@.cards.contains_key(d),
        assault == x_value(ca.def.keywords@, Keyword::Assault(0)),
        hazardous == x_value(cd.def.keywords@, Keyword::Hazardous(0)),
        attacker_power == card_power(ca),
        defender_power == card_power(cd),
        skirmish == card_has_keyword(ca, Keyword::Skirmish),
        fight_damage(old(game)@, a, d, ca, cd) is Some,
    ensures
        final(game)@ == fight_damage(old(game)@, a, d, ca, cd)->0,
        hits == fight_hits(old(game)@, a, d, ca, cd),
{
    let ghost g = game@;
    if assault > 0 {
        game.damage_card(d, assault);
    }
    if hazardous > 0 {
        game.damage_card(a, hazardous);
    }
    proof {
        let s1 = if assault > 0 { damage_card(g, d, assault) } else { Some(g) };
        lemma_damage_card_ok(g, d, assault);
        match s1 {
            Some(h) => lemma_damage_card_ok(h, a, hazardous),
            None => {},
        }
        assert(game@.cards.contains_key(d));
        assert(card_ok(game@.cards[d]));
    }
    let mut hit_d = false;
    let mut hit_a = false;
    if !game.card(d).is_destroyed() {
        let before_d = game.card(d).damage;
        game.damage_card(d, attacker_power);
        hit_d = game.card(d).damage > before_d;
        if !skirmish {
            let ghost h2 = game@;
            proof {
                assert(h2.cards.contains_key(a));
            }
            let before_a = game.card(a).damage;
            game.damage_card(a, defender_power);
            hit_a = game.card(a).damage > before_a;
        }
    }
    (hit_d, hit_a)
}

impl GameState {
    /// Poison: a damaged creature's damage is raised to its power (at least 1).
    fn poison(&mut self, id: CardId)
        requires
            game_wf(old(self)@),
            old(self)@.cards.contains_key(id),
        ensures
            final(self)@ == poisoned(old(self)@, id),
    {
        let ghost g = self@;
        proof {
            assert(card_ok(g.cards[id]));
        }
        let mut c = self.take_card(id);
        if c.damage > 0 {
            let p = c.power();
            c.damage = if p > 1 { p } else { 1 };
        }
        self.put_card(id, c);
        proof {
            if g.cards[id].damage > 0 {
                let c0 = g.cards[id];
                assert(self@.cards =~= g.cards.insert(id, Card { damage: if card_power(c0) > 1 { card_power(c0) } else { 1 }, ..c0 }));
            } else {
                assert(self@.cards =~= g.cards);
            }
        }
    }

    /// Splash damage to one neighbor (skipped when it is not a card of the game).
    fn splash(&mut self, nb: Option<CardId>, n: u32)
        requires
            splash_one(old(self)@, nb, n) is Some,
        ensures
            final(self)@ == splash_one(old(self)@, nb, n)->0,
    {
        if let Some(id) = nb {
            if self.cards.contains_key(&id) {
                self.damage_card(id, n);
            }
        }
    }
}

/// Fight: attacker attacks defender.
/// Handles Elusive, Assault, Hazardous, Skirmish, Poison, SplashAttack, Capture and Steal
/// keywords, and on_fight effects. Destroyed creatures are moved to discard automatically.
#[verifier::rlimit(60)]
pub fn attack(game: &mut GameState, attacker_id: CardId, defender_id: CardId)
    requires
        game_wf(old(game)@),
        attack_model(old(game)@, attacker_id, defender_id) is Some,
    ensures
        final(game)@ == attack_model(old(game)@, attacker_id, defender_id)->0,
        game_wf(final(game)@),
{
    let ghost g = game@;
    proof {
        lemma_attack_ok(g, attacker_id, defender_id);
    }
    let ghost ca = g.cards[attacker_id];
    let ghost cd = g.cards[defender_id];
    let pi = game.active_player;
    let def_idx = 1 - pi;

    let assault = x_keyword(&game.card(attacker_id).def.keywords, Keyword::Assault(0));
    let hazardous = x_keyword(&game.card(defender_id).def.keywords, Keyword::Hazardous(0));
    let splash = x_keyword(&game.card(attacker_id).def.keywords, Keyword::SplashAttack(0));
    let skirmish = game.card(attacker_id).has_keyword(Keyword::Skirmish);
    let attacker_poison = game.card(attacker_id).has_keyword(Keyword::Poison);
    let defender_poison = game.card(defender_id).has_keyword(Keyword::Poison);
    let attacker_capture = game.card(attacker_id).has_keyword(Keyword::Capture);
    let attacker_steal = game.card(attacker_id).has_keyword(Keyword::Steal);
    let defender_elusive = game.card(defender_id).has_keyword(Keyword::Elusive);
    let elusive_used = game.card(defender_id).elusive_used_this_turn;
    proof {
        assert(card_ok(ca));
        assert(card_ok(cd));
    }
    let attacker_power = game.card(attacker_id).power();
    let defender_power = game.card(defender_id).power();
    let on_fight_attacker = copy_effects(&game.card(attacker_id).def.on_fight);
    let on_fight_defender = copy_effects(&game.card(defender_id).def.on_fight);
    let (left_nb, right_nb) = game.players[def_idx].zones.battleline.neighbors(defender_id);

    game.set_exhausted(attacker_id, true);
    let ghost g0 = game@;
    proof {
        lemma_wf_with_card(g, attacker_id, Card { exhausted: true, ..ca });
    }

    // Elusive: first attack this turn is absorbed — no damage either way.
    if defender_elusive && !elusive_used {
        let mut c = game.take_card(defender_id);
        c.elusive_used_this_turn = true;
        game.put_card(defender_id, c);
        proof {
            assert(game@.cards =~= g0.cards.insert(
                defender_id,
                Card { elusive_used_this_turn: true, ..g0.cards[defender_id] },
            ));
        }
        // The attack still counts as a use of the attacker.
        let name = game.card(attacker_id).def.name.clone();
        game.note_use(&name);
        return;
    }
    fight_exec(
        game,
        attacker_id,
        defender_id,
        Ghost(ca),
        Ghost(cd),
        (left_nb, right_nb),
        FightFacts {
            assault,
            hazardous,
            splash,
            skirmish,
            attacker_poison,
            defender_poison,
            attacker_capture,
            attacker_steal,
            attacker_power,
            defender_power,
        },
        &on_fight_attacker,
        &on_fight_defender,
    );
}

/// What the attacker and defender bring to a fight, read before it starts.
struct FightFacts {
    assault: u32,
    hazardous: u32,
    splash: u32,
    skirmish: bool,
    attacker_poison: bool,
    defender_poison: bool,
    attacker_capture: bool,
    attacker_steal: bool,
    attacker_power: u32,
    defender_power: u32,
}

/// The facts of a fight between the two cards.
spec fn facts_of(f: FightFacts, ca: Card, cd: Card) -> bool {
    &&& f.assault == x_value(ca.def.keywords@, Keyword::Assault(0))
    &&& f.hazardous == x_value(cd.def.keywords@, Keyword::Hazardous(0))
    &&& f.splash == x_value(ca.def.keywords@, Keyword::SplashAttack(0))
    &&& f.skirmish == card_has_keyword(ca, Keyword::Skirmish)
    &&& f.attacker_poison == card_has_keyword(ca, Keyword::Poison)
    &&& f.defender_poison == card_has_keyword(cd, Keyword::Poison)
    &&& f.attacker_capture == card_has_keyword(ca, Keyword::Capture)
    &&& f.attacker_steal == card_has_keyword(ca, Keyword::Steal)
    &&& f.attacker_power == card_power(ca)
    &&& f.defender_power == card_power(cd)
}

/// The fight proper, once Elusive did not stop it.
#[verifier::rlimit(60)]
fn fight_exec(
    game: &mut GameState,
    attacker_id: CardId,
    defender_id: CardId,
    Ghost(ca): Ghost<Card>,
    Ghost(cd): Ghost<Card>,
    nbs: (Option<CardId>, Option<CardId>),
    f: FightFacts,
    on_fight_attacker: &Vec<Effect>,
    on_fight_defender: &Vec<Effect>,
)
    requires
        game_wf(old(game)@),
        old(game)@.cards.contains_key(attacker_id),
        old(game)@.cards.contains_key(defender_id),
        old(game)@.cards[attacker_id].def == ca.def,
        facts_of(f, ca, cd),
        on_fight_attacker@ == ca.def.on_fight@,
        on_fight_defender@ == cd.def.on_fight@,
        fight_model(old(game)@, attacker_id, defender_id, ca, cd, nbs) is Some,
    ensures
        final(game)@ == fight_model(old(game)@, attacker_id, defender_id, ca, cd, nbs)->0,
{
    let ghost g0 = game@;
    let pi = game.active_player;
    let assault = f.assault;
    let hazardous = f.hazardous;
    let splash = f.splash;
    let skirmish = f.skirmish;
    let attacker_power = f.attacker_power;
    let defender_power = f.defender_power;
    let attacker_poison = f.attacker_poison;
    let defender_poison = f.defender_poison;
    let attacker_capture = f.attacker_capture;
    let attacker_steal = f.attacker_steal;
    let left_nb = nbs.0;
    let right_nb = nbs.1;
    let hits = fight_damage_exec(
        game,
        attacker_id,
        defender_id,
        Ghost(ca),
        Ghost(cd),
        assault,
        hazardous,
        attacker_power,
        defender_power,
        skirmish,
    );
    let ghost h3 = game@;
    proof {
        lemma_fight_damage_ok(g0, attacker_id, defender_id, ca, cd);
        lemma_poisoned_ok(h3, defender_id);
    }
    // Poison: power damage dealt in the exchange destroys the damaged creature.
    if attacker_poison && hits.0 {
        game.poison(defender_id);
    }
    if defender_poison && hits.1 {
        game.poison(attacker_id);
    }
    let ghost h5 = game@;
    proof {
        lemma_fight_poison_ok(h3, attacker_id, defender_id, hits, ca, cd);
        lemma_fight_splash_ok(h5, (left_nb, right_nb), splash);
    }
    if splash > 0 {
        game.splash(left_nb, splash);
        game.splash(right_nb, splash);
    }
    let ghost h6 = game@;
    proof {
        lemma_fight_loot_ok(h6, attacker_id, ca);
    }
    capture_then_steal_exec(game, pi, attacker_id, Ghost(ca), attacker_capture, attacker_steal);
    let ghost h8 = game@;
    proof {
        lemma_fight_after_ok(h8, attacker_id, defender_id, ca, cd);
    }
    fight_after_exec(game, attacker_id, defender_id, Ghost(ca), Ghost(cd), &on_fight_attacker, &on_fight_defender);
}

/// Destroyed creatures leave play, the survivors' Fight effects fire, and the
/// attacker's use is counted.
#[verifier::rlimit(60)]
fn fight_after_exec(
    game: &mut GameState,
    a: CardId,
    d: CardId,
    Ghost(ca): Ghost<Card>,
    Ghost(cd): Ghost<Card>,
    on_fight_attacker: &Vec<Effect>,
    on_fight_defender: &Vec<Effect>,
)
    requires
        game_wf(old(game)@),
        on_fight_attacker@ == ca.def.on_fight@,
        on_fight_defender@ == cd.def.on_fight@,
        old(game)@.cards.contains_key(a),
        fight_after(old(game)@, a, d, ca, cd) is Some,
    ensures
        final(game)@ == fight_after(old(game)@, a, d, ca, cd)->0,
{
    let ghost h = game@;
    proof {
        lemma_destroy_dead_ok(h);
    }
    let pi = game.active_player;
    let def_idx = 1 - pi;
    destroy_dead(game);
    let ghost h9 = game@;
    // After Fight: abilities only resolve if the creature survived the fight.
    if game.players[pi].zones.battleline.contains(a) {
        apply_effects(game, a, pi, on_fight_attacker);
        proof {
            lemma_effects_full_ok(h9, a, pi, ca.def.on_fight@);
        }
    }
    let ghost h10 = game@;
    if game.players[def_idx].zones.battleline.contains(d) {
        apply_effects(game, d, def_idx, on_fight_defender);
        proof {
            lemma_effects_full_ok(h10, d, def_idx, cd.def.on_fight@);
        }
    }
    let name = game.card(a).def.name.clone();
    game.note_use(&name);
}

} // verus!

verus! {

/// Cards drawn fewer per hand refill based on chain count.
fn chain_penalty(chains: u32) -> (p: usize)
    ensures
        p == chain_penalty_of(chains),
{
    if chains == 0 {
        0
    } else if chains <= 6 {
        1
    } else if chains <= 12 {
        2
    } else if chains <= 18 {
        3
    } else {
        4
    }
}

impl GameState {
    /// Ready one card and reset its per-turn state.
    fn ready_card(&mut self, id: CardId)
        ensures
            old(self).cards@.contains_key(id) ==> final(self)@ == with_card(
                old(self)@,
                id,
                after_reset_turn(Card { exhausted: false, ..old(self).cards@[id] }),
            ),
            !old(self).cards@.contains_key(id) ==> final(self)@ == old(self)@,
    {
        if self.cards.contains_key(&id) {
            let ghost g = self@;
            let mut c = self.take_card(id);
            c.exhausted = false;
            c.reset_turn();
            self.put_card(id, c);
            assert(self@.cards =~= g.cards.insert(
                id,
                after_reset_turn(Card { exhausted: false, ..g.cards[id] }),
            ));
        }
    }
}

/// Ready the listed cards and reset their per-turn state.
fn ready_cards(game: &mut GameState, ids: &Vec<CardId>)
    ensures
        final(game)@ == ready_all(old(game)@, ids@),
{
    let ghost g0 = game@;
    let mut i: usize = 0;
    while i < ids.len()
        invariant
            0 <= i <= ids@.len(),
            game@ == ready_all(g0, ids@.take(i as int)),
        decreases ids@.len() - i,
    {
        proof {
            assert(ids@.take(i + 1).drop_last() =~= ids@.take(i as int));
        }
        game.ready_card(ids[i]);
        i = i + 1;
    }
    proof {
        assert(ids@.take(ids@.len() as int) =~= ids@);
    }
}

/// Player `pi` draws until their hand holds `max` cards or nothing is left to draw.
fn draw_up_to(game: &mut GameState, pi: usize, max: usize)
    requires
        pi < 2,
        old(game)@.sides.len() == 2,
    ensures
        final(game)@ == with_zones(old(game)@, pi, draw_until(zones_of(old(game)@, pi), max as nat)),
{
    let ghost g1 = game@;
    let ghost target = draw_until(zones_of(g1, pi), max as nat);
    proof {
        lemma_with_zones_same(g1, pi);
    }
    loop
        invariant
            pi < 2,
            g1.sides.len() == 2,
            game@ == with_zones(g1, pi, zones_of(game@, pi)),
            draw_until(zones_of(game@, pi), max as nat) == target,
        ensures
            game@ == with_zones(g1, pi, target),
        decreases zones_of(game@, pi).deck.len() + zones_of(game@, pi).discard.len(),
    {
        let ghost z = zones_of(game@, pi);
        if game.players[pi].zones.hand.len() >= max {
            break;
        }
        let r = game.draw_for(pi);
        proof {
            lemma_with_zones_twice(g1, pi, z, zones_after_draw(z).0);
        }
        if r.is_none() {
            proof {
                let z1 = zones_after_draw(z).0;
                assert(z1.deck =~= z.deck);
                assert(z1.discard =~= z.discard);
                assert(z1 == z);
            }
            break;
        }
    }
}

/// Ready all friendly cards in play, reset per-turn state, draw up to 6, advance turn.
pub fn end_turn(game: &mut GameState)
    requires
        old(game).active_player < 2,
        end_turn_model(old(game)@) is Some,
    ensures
        final(game)@ == end_turn_model(old(game)@)->0,
        game_wf(old(game)@) ==> game_wf(final(game)@),
{
    let ghost g = game@;
    proof {
        if game_wf(g) {
            lemma_end_turn_ok(g);
        }
    }
    let pi = game.active_player;
    let mut in_play = game.players[pi].zones.battleline.creature_ids();
    let mut k: usize = 0;
    let ghost bl = in_play@;
    while k < game.players[pi].zones.artifacts.len()
        invariant
            0 <= k <= zones_of(g, pi).artifacts.len(),
            pi == g.active_player,
            game@ == g,
            g.sides.len() == 2,
            pi < 2,
            bl == zones_of(g, pi).battleline,
            in_play@ == bl + zones_of(g, pi).artifacts.take(k as int),
        decreases zones_of(g, pi).artifacts.len() - k,
    {
        in_play.push(game.players[pi].zones.artifacts[k]);
        proof {
            let a = zones_of(g, pi).artifacts;
            assert(a.take(k + 1) =~= a.take(k as int).push(a[k as int]));
            assert(bl + a.take(k + 1) =~= (bl + a.take(k as int)).push(a[k as int]));
        }
        k = k + 1;
    }
    proof {
        let a = zones_of(g, pi).artifacts;
        assert(a.take(a.len() as int) =~= a);
    }
    ready_cards(game, &in_play);
    proof {
        lemma_ready_all_ok(g, in_play@);
    }
    let chains = game.players[pi].player.chains;
    let hand_before = game.players[pi].zones.hand.len();
    let pen = chain_penalty(chains);
    let max_hand: usize = if pen >= 6 { 0 } else { 6 - pen };
    draw_up_to(game, pi, max_hand);
    if chains > 0 && hand_before < 6 {
        let ghost g2 = game@;
        game.players[pi].player.chains = chains - 1;
        proof {
            assert(game@.sides =~= with_player(
                g2,
                pi,
                PlayerModel { chains: (chains - 1) as u32, ..g2.sides[pi as int].player },
            ).sides);
        }
    }
    game.omega_triggered = false;
    game.active_player = 1 - pi;
    game.active_house = None;
    game.turn = game.turn + 1;
    game.cards_used_this_turn = 0;
    game.card_use_counts.clear();
    proof {
        assert(game@.use_counts =~= Map::<Seq<char>, u32>::empty());
    }
}

} // verus!

verus! {

impl GameState {
    /// How often cards of this name were played or used this turn.
    pub(crate) fn uses(&self, name: &String) -> (n: u32)
        ensures
            n as nat == uses_of(self@, name@),
    {
        match self.card_use_counts.get(name.as_str()) {
            Some(k) => *k,
            None => 0,
        }
    }
}

/// Returns false if the card cannot be played this turn.
/// Checks: Omega lockout, First Turn Rule, Alpha, Rule of Six.
pub fn can_play(game: &GameState, card_id: CardId) -> (b: bool)
    requires
        !game.omega_triggered && !(game.turn == 1 && game.active_player == game.first_player
            && game.cards_used_this_turn >= 1) ==> game@.cards.contains_key(card_id),
    ensures
        b == can_play_spec(game@, card_id),
{
    if game.omega_triggered {
        return false;
    }
    // First Turn Rule: first player's first turn may only play/discard one card.
    if game.turn == 1 && game.active_player == game.first_player && game.cards_used_this_turn >= 1 {
        return false;
    }
    if game.card(card_id).has_keyword(Keyword::Alpha) && game.cards_used_this_turn > 0 {
        return false;
    }
    // Rule of Six: same card name cannot be played/used more than 6 times per turn.
    game.uses(&game.card(card_id).def.name) < 6
}

/// Returns true if the card belongs to the active house, or has Versatile.
pub fn is_active_house_card(game: &GameState, card_id: CardId) -> (b: bool)
    requires
        game@.cards.contains_key(card_id),
    ensures
        b == is_active_house_spec(game@, card_id),
{
    let card = game.card(card_id);
    if card.has_keyword(Keyword::Versatile) {
        return true;
    }
    match game.active_house {
        Some(house) => card.belongs_to_house(house),
        None => false,
    }
}

/// Returns false if the creature is exhausted, stunned, or enraged with enemies present.
pub fn can_reap(game: &GameState, card_id: CardId) -> (b: bool)
    requires
        game@.cards.contains_key(card_id),
        ({
            let c = game@.cards[card_id];
            !c.exhausted && !c.stun && c.enrage ==> game.active_player < 2
        }),
    ensures
        b == can_reap_spec(game@, card_id),
{
    let card = game.card(card_id);
    if card.exhausted || card.stun {
        return false;
    }
    // Enraged creatures must fight if enemy creatures exist.
    if card.enrage {
        let opp = 1 - game.active_player;
        if !game.players[opp].zones.battleline.is_empty() {
            return false;
        }
    }
    game.uses(&card.def.name) < 6
}

/// Returns false if the creature is exhausted or stunned.
pub fn can_fight_with(game: &GameState, card_id: CardId) -> (b: bool)
    requires
        game@.cards.contains_key(card_id),
    ensures
        b == can_fight_spec(game@, card_id),
{
    let card = game.card(card_id);
    if card.exhausted || card.stun {
        return false;
    }
    game.uses(&card.def.name) < 6
}

/// Returns false if Taunt blocks the attack.
///
/// A creature with Taunt in the enemy battleline forces the attacker to
/// target a Taunt creature before targeting any non-Taunt creature that is
/// not on a flank.
pub fn can_attack(game: &GameState, attacker_id: CardId, defender_id: CardId) -> (b: bool)
    requires
        game.active_player < 2,
        ids_in(zones_of(game@, other(game.active_player)).battleline, game@.cards),
        any_taunt(zones_of(game@, other(game.active_player)).battleline, game@.cards)
            ==> game@.cards.contains_key(defender_id),
    ensures
        b == can_attack_spec(game@, defender_id),
{
    let def_idx = 1 - game.active_player;
    let enemy_ids = game.players[def_idx].zones.battleline.creature_ids();
    let ghost line = zones_of(game@, def_idx);
    let mut any_taunt = false;
    let mut i: usize = 0;
    while i < enemy_ids.len()
        invariant
            0 <= i <= enemy_ids@.len(),
            enemy_ids@ == zones_of(game@, def_idx).battleline,
            ids_in(enemy_ids@, game@.cards),
            any_taunt == exists|k: int| 0 <= k < i && card_has_keyword(
                game@.cards[#[trigger] enemy_ids@[k]],
                Keyword::Taunt,
            ),
        decreases enemy_ids@.len() - i,
    {
        if game.card(enemy_ids[i]).has_keyword(Keyword::Taunt) {
            any_taunt = true;
        }
        i = i + 1;
    }
    if !any_taunt {
        return true;
    }
    // Targeting a Taunt creature is always allowed.
    if game.card(defender_id).has_keyword(Keyword::Taunt) {
        return true;
    }
    // Targeting a non-Taunt creature on a flank is allowed.
    game.players[def_idx].zones.battleline.is_on_flank(defender_id)
}

} // verus!

verus! {

/// Step 1: a player who can afford the key cost and has an unforged key must forge
/// exactly one key, paying the cost; otherwise nothing changes. The keys stay three
/// keys of different colors.
pub proof fn law_forge_step(p: PlayerModel, cost: int)
    requires
        keys_ok(p.keys),
        0 <= cost,
    ensures
        p.aember_pool >= cost && count_forged(p.keys) < 3 ==> {
            &&& forge_at_cost(p, cost).aember_pool == p.aember_pool - cost
            &&& count_forged(forge_at_cost(p, cost).keys) == count_forged(p.keys) + 1
        },
        !(p.aember_pool >= cost && count_forged(p.keys) < 3) ==> forge_at_cost(p, cost) == p,
        keys_ok(forge_at_cost(p, cost).keys),
        forge_at_cost(p, cost).key_cost_modifier == p.key_cost_modifier,
        forge_at_cost(p, cost).chains == p.chains,
{
    if p.aember_pool >= cost && count_forged(p.keys) < 3 {
        let keys = p.keys;
        let c = unforged_colors(keys)[0];
        let i: int = if !keys[0].forged { 0 } else if !keys[1].forged { 1 } else { 2 };
        assert(keys[i].color == c && !keys[i].forged);
        assert(first_key_of(keys, c) == Some(i));
        assert(!color_forged(keys, c));
        law_forge_moves_count_by_one(keys, c);
    }
}

/// "Check!" is announced exactly when Step 1 of the player's next turn would forge a key
/// (as long as nothing changes in between).
pub proof fn law_check_announces_forge(p: PlayerModel)
    requires
        keys_ok(p.keys),
    ensures
        (p.aember_pool >= key_cost(p) && count_forged(p.keys) < 3) <==> count_forged(
            forge_at_cost(p, key_cost(p)).keys,
        ) > count_forged(p.keys),
{
    law_forge_step(p, key_cost(p));
}

} // verus!
