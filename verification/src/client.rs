//! What a client does with the server's messages and with the player's clicks: the state
//! of the table as the player sees it, and the requests their clicks turn into.

use vstd::prelude::*;

use crate::card::{Card, CardId, CardType, House};
use crate::protocol::{CardView, ClientGameView, ClientMessage, KeyView, ServerMessage};
use crate::zones::Flank;

verus! {

broadcast use vstd::string::group_string_axioms;

/// The character of a decimal digit.
pub open spec fn digit_char(d: nat) -> char {
    (48 + d) as char
}

/// The decimal notation of a number.
pub open spec fn decimal(n: nat) -> Seq<char>
    decreases n,
{
    if n < 10 {
        seq![digit_char(n)]
    } else {
        decimal(n / 10).push(digit_char(n % 10))
    }
}

fn push_digit(s: &mut String, d: u64)
    requires
        d < 10,
    ensures
        final(s)@ == old(s)@.push(digit_char(d as nat)),
{
    let t: &str = if d == 0 {
        proof { reveal_strlit("0"); }
        "0"
    } else if d == 1 {
        proof { reveal_strlit("1"); }
        "1"
    } else if d == 2 {
        proof { reveal_strlit("2"); }
        "2"
    } else if d == 3 {
        proof { reveal_strlit("3"); }
        "3"
    } else if d == 4 {
        proof { reveal_strlit("4"); }
        "4"
    } else if d == 5 {
        proof { reveal_strlit("5"); }
        "5"
    } else if d == 6 {
        proof { reveal_strlit("6"); }
        "6"
    } else if d == 7 {
        proof { reveal_strlit("7"); }
        "7"
    } else if d == 8 {
        proof { reveal_strlit("8"); }
        "8"
    } else {
        proof { reveal_strlit("9"); }
        "9"
    };
    s.append(t);
    assert(s@ =~= old(s)@.push(digit_char(d as nat)));
}

/// Append the decimal notation of `n`.
fn push_decimal(s: &mut String, n: u64)
    ensures
        final(s)@ == old(s)@ + decimal(n as nat),
    decreases n,
{
    if n >= 10 {
        push_decimal(s, n / 10);
        push_digit(s, n % 10);
        assert(old(s)@ + decimal(n as nat) =~= old(s)@ + decimal((n / 10) as nat) + seq![
            digit_char((n % 10) as nat),
        ]);
    } else {
        push_digit(s, n);
        assert(old(s)@ + decimal(n as nat) =~= old(s)@.push(digit_char(n as nat)));
    }
}

/// The name of a house as the client spells it.
pub open spec fn house_name(h: House) -> Seq<char> {
    match h {
        House::Brobnar => "Brobnar"@,
        House::Dis => "Dis"@,
        House::Ekwidon => "Ekwidon"@,
        House::Geistoid => "Geistoid"@,
        House::Logos => "Logos"@,
        House::Mars => "Mars"@,
        House::Redemption => "Redemption"@,
        House::Sanctum => "Sanctum"@,
        House::Saurian => "Saurian"@,
        House::Shadows => "Shadows"@,
        House::Skyborn => "Skyborn"@,
        House::StarAlliance => "StarAlliance"@,
        House::Unfathomable => "Unfathomable"@,
        House::Untamed => "Untamed"@,
    }
}

fn house_str(h: House) -> (s: &'static str)
    ensures
        s@ == house_name(h),
{
    match h {
        House::Brobnar => "Brobnar",
        House::Dis => "Dis",
        House::Ekwidon => "Ekwidon",
        House::Geistoid => "Geistoid",
        House::Logos => "Logos",
        House::Mars => "Mars",
        House::Redemption => "Redemption",
        House::Sanctum => "Sanctum",
        House::Saurian => "Saurian",
        House::Shadows => "Shadows",
        House::Skyborn => "Skyborn",
        House::StarAlliance => "StarAlliance",
        House::Unfathomable => "Unfathomable",
        House::Untamed => "Untamed",
    }
}

/// Whether a card may be used on this turn: it belongs to the chosen house.
pub fn can_use_card(active_house: Option<House>, card: &CardView) -> (b: bool)
    ensures
        b == (active_house == Some(card.house)),
{
    match active_house {
        Some(h) => card.house == h,
        None => false,
    }
}

/// Printed power plus counters as shown to the player (at least 0).
pub open spec fn shown_power(c: CardView) -> int {
    let base: i32 = match c.power {
        Some(p) => p as i32,
        None => 0,
    };
    if base + c.power_counters < 0 { 0 } else { base + c.power_counters }
}

/// The line under a card's name: power and damage for a creature, else its type.
pub open spec fn sub_line(c: CardView) -> Seq<char> {
    match c.card_type {
        CardType::Creature => "PWR:"@ + decimal(shown_power(c) as nat) + " DMG:"@ + decimal(
            c.damage as nat,
        ),
        CardType::Artifact => "Artifact"@,
        CardType::Action => "Action"@,
        CardType::Upgrade => "Upgrade"@,
    }
}

/// The line under a card's name: power and damage for a creature, else its type.
pub fn card_sub_view(c: &CardView) -> (s: String)
    requires
        c.card_type == CardType::Creature ==> i32::MIN <= (match c.power {
            Some(p) => p as i32,
            None => 0i32,
        }) + c.power_counters <= i32::MAX,
    ensures
        s@ == sub_line(*c),
{
    match c.card_type {
        CardType::Creature => {
            let base: i32 = match c.power {
                Some(p) => p as i32,
                None => 0,
            };
            let sum = base + c.power_counters;
            let effective: u64 = if sum < 0 { 0 } else { sum as u64 };
            let mut s = "PWR:".to_owned();
            push_decimal(&mut s, effective);
            s.append(" DMG:");
            push_decimal(&mut s, c.damage as u64);
            s
        },
        CardType::Artifact => "Artifact".to_owned(),
        CardType::Action => "Action".to_owned(),
        CardType::Upgrade => "Upgrade".to_owned(),
    }
}

/// How many of the keys are forged.
pub fn forged_keys(keys: &Vec<crate::protocol::KeyView>) -> (n: usize)
    ensures
        n == keys@.filter(|k: crate::protocol::KeyView| k.forged).len(),
{
    let mut n: usize = 0;
    let mut i: usize = 0;
    while i < keys.len()
        invariant
            0 <= i <= keys@.len(),
            n == keys@.take(i as int).filter(|k: crate::protocol::KeyView| k.forged).len(),
            n <= i,
        decreases keys@.len() - i,
    {
        proof {
            reveal(Seq::filter);
            assert(keys@.take(i + 1).drop_last() =~= keys@.take(i as int));
        }
        if keys[i].forged {
            n = n + 1;
        }
        i = i + 1;
    }
    assert(keys@.take(keys@.len() as int) =~= keys@);
    n
}

/// The client's side of a game: the last view the server sent, what the player has
/// selected or is dragging, the status line, and the winner once the game is over.
pub struct ClientState {
    pub view: Option<ClientGameView>,
    pub selected_hand: Option<CardId>,
    pub selected_creature: Option<CardId>,
    pub drag_card: Option<CardId>,
    pub msg: String,
    pub game_over: Option<usize>,
}

/// Whether the last view says it is this player's turn.
pub open spec fn my_turn_in(view: Option<ClientGameView>) -> bool {
    view matches Some(v) && v.active_player == v.my_index
}

/// A creature of the player's own battleline is selected.
pub open spec fn attack_ready(s: ClientState) -> bool {
    match s.selected_creature {
        Some(att) => match s.view {
            Some(v) => views_contain(v.my_battleline@, att),
            None => false,
        },
        None => false,
    }
}

/// Whether a card id is among the views.
pub open spec fn views_contain(vs: Seq<CardView>, id: CardId) -> bool {
    exists|i: int| 0 <= i < vs.len() && (#[trigger] vs[i]).id == id
}

fn contains_card(vs: &Vec<CardView>, id: CardId) -> (b: bool)
    ensures
        b == views_contain(vs@, id),
{
    let mut i: usize = 0;
    while i < vs.len()
        invariant
            0 <= i <= vs@.len(),
            forall|j: int| 0 <= j < i ==> (#[trigger] vs@[j]).id != id,
        decreases vs@.len() - i,
    {
        if vs[i].id == id {
            assert(vs@[i as int].id == id);
            return true;
        }
        i = i + 1;
    }
    false
}

impl ClientState {
    pub fn new() -> (c: Self)
        ensures
            c.view is None,
            c.selected_hand is None,
            c.selected_creature is None,
            c.drag_card is None,
            c.msg@ == "Connecting..."@,
            c.game_over is None,
    {
        ClientState {
            view: None,
            selected_hand: None,
            selected_creature: None,
            drag_card: None,
            msg: "Connecting...".to_owned(),
            game_over: None,
        }
    }

    /// Take in one message of the server: a welcome, a new view of the game (with whose
    /// turn it is as the status), an error to show, or the end of the game.
    pub fn receive(&mut self, m: ServerMessage)
        ensures
            match m {
                ServerMessage::Welcome { player_index } => {
                    &&& final(self).msg@ == "Connected as player "@ + decimal(player_index as nat)
                        + ". Waiting for game state..."@
                    &&& final(self).view == old(self).view
                    &&& final(self).game_over == old(self).game_over
                },
                ServerMessage::GameState(v) => {
                    &&& final(self).view == Some(v)
                    &&& final(self).msg@ == if v.active_player == v.my_index {
                        "Your turn. Choose a house."@
                    } else {
                        "Opponent's turn."@
                    }
                    &&& final(self).game_over == old(self).game_over
                },
                ServerMessage::Error(e) => {
                    &&& final(self).msg@ == "Error: "@ + e@
                    &&& final(self).view == old(self).view
                    &&& final(self).game_over == old(self).game_over
                },
                ServerMessage::GameOver { winner } => {
                    &&& final(self).game_over == Some(winner)
                    &&& final(self).view == old(self).view
                    &&& final(self).msg == old(self).msg
                },
            },
            final(self).selected_hand == old(self).selected_hand,
            final(self).selected_creature == old(self).selected_creature,
            final(self).drag_card == old(self).drag_card,
    {
        match m {
            ServerMessage::Welcome { player_index } => {
                let mut s = "Connected as player ".to_owned();
                push_decimal(&mut s, player_index as u64);
                s.append(". Waiting for game state...");
                self.msg = s;
            },
            ServerMessage::GameState(view) => {
                self.msg = if view.active_player == view.my_index {
                    "Your turn. Choose a house.".to_owned()
                } else {
                    "Opponent's turn.".to_owned()
                };
                self.view = Some(view);
            },
            ServerMessage::Error(e) => {
                let mut s = "Error: ".to_owned();
                s.append(e.as_str());
                self.msg = s;
            },
            ServerMessage::GameOver { winner } => {
                self.game_over = Some(winner);
            },
        }
    }

    /// Forget every selection and drag.
    pub fn deselect(&mut self)
        ensures
            final(self).selected_hand is None,
            final(self).selected_creature is None,
            final(self).drag_card is None,
            final(self).view == old(self).view,
            final(self).msg == old(self).msg,
            final(self).game_over == old(self).game_over,
    {
        self.selected_hand = None;
        self.selected_creature = None;
        self.drag_card = None;
    }

    /// Whether it is this player's turn.
    pub fn is_my_turn(&self) -> (b: bool)
        ensures
            b == my_turn_in(self.view),
    {
        match &self.view {
            Some(v) => v.active_player == v.my_index,
            None => false,
        }
    }

    /// A click on an enemy creature: with one of the player's own creatures selected, on
    /// their turn, it attacks that creature.
    pub fn click_enemy_creature(&mut self, defender_id: CardId, my_turn: bool) -> (r: Option<ClientMessage>)
        ensures
            ({
                let attacks = my_turn && attack_ready(*old(self));
                &&& attacks ==> r == Some(ClientMessage::Attack {
                    attacker_id: old(self).selected_creature->0,
                    defender_id,
                }) && final(self).selected_creature is None && final(self).msg@ == "Attack sent."@
                &&& !attacks ==> r is None && final(self).selected_creature == old(self).selected_creature
                    && final(self).msg == old(self).msg
            }),
            final(self).view == old(self).view,
            final(self).selected_hand == old(self).selected_hand,
            final(self).drag_card == old(self).drag_card,
            final(self).game_over == old(self).game_over,
    {
        if let Some(att) = self.selected_creature {
            let own = match &self.view {
                Some(v) => contains_card(&v.my_battleline, att),
                None => false,
            };
            if own && my_turn {
                self.selected_creature = None;
                self.msg = "Attack sent.".to_owned();
                return Some(ClientMessage::Attack { attacker_id: att, defender_id });
            }
        }
        None
    }

    /// A click, on the player's turn, on their own creature at `index` of their
    /// battleline: without a chosen house or of another house it only explains why not;
    /// a second click on the selected creature reaps with it (when it is ready); a first
    /// click selects it.
    pub fn click_own_creature(&mut self, index: usize) -> (r: Option<ClientMessage>)
        requires
            old(self).view matches Some(v) && index < v.my_battleline@.len(),
        ensures
            ({
                let v = old(self).view->0;
                let card = v.my_battleline@[index as int];
                if v.active_house is None {
                    &&& r is None
                    &&& final(self).msg@ == "Choose a house first."@
                    &&& final(self).selected_creature == old(self).selected_creature
                    &&& final(self).selected_hand == old(self).selected_hand
                } else if v.active_house != Some(card.house) {
                    &&& r is None
                    &&& final(self).msg@ == card.name@ + " is not a "@ + house_name(card.house)
                        + " card \u{2014} choose its house to use it."@
                    &&& final(self).selected_creature == old(self).selected_creature
                    &&& final(self).selected_hand == old(self).selected_hand
                } else if old(self).selected_creature == Some(card.id) {
                    if !card.exhausted {
                        &&& r == Some(ClientMessage::Reap { card_id: card.id })
                        &&& final(self).selected_creature is None
                        &&& final(self).msg@ == "Reap sent."@
                        &&& final(self).selected_hand == old(self).selected_hand
                    } else {
                        &&& r is None
                        &&& final(self).msg == old(self).msg
                        &&& final(self).selected_creature == old(self).selected_creature
                        &&& final(self).selected_hand == old(self).selected_hand
                    }
                } else {
                    &&& r is None
                    &&& final(self).selected_creature == Some(card.id)
                    &&& final(self).selected_hand is None
                    &&& final(self).msg@
                        == "Creature selected \u{2014} click again to reap, click enemy to attack."@
                }
            }),
            final(self).view == old(self).view,
            final(self).drag_card == old(self).drag_card,
            final(self).game_over == old(self).game_over,
    {
        let (active_house, id, house, exhausted) = match &self.view {
            Some(v) => {
                let c = &v.my_battleline[index];
                (v.active_house, c.id, c.house, c.exhausted)
            },
            None => {
                return None;
            },
        };
        if active_house.is_none() {
            self.msg = "Choose a house first.".to_owned();
            None
        } else if active_house != Some(house) {
            let mut s = match &self.view {
                Some(v) => v.my_battleline[index].name.clone(),
                None => String::new(),
            };
            s.append(" is not a ");
            s.append(house_str(house));
            s.append(" card \u{2014} choose its house to use it.");
            self.msg = s;
            None
        } else if self.selected_creature == Some(id) {
            if !exhausted {
                self.selected_creature = None;
                self.msg = "Reap sent.".to_owned();
                Some(ClientMessage::Reap { card_id: id })
            } else {
                None
            }
        } else {
            self.selected_creature = Some(id);
            self.selected_hand = None;
            self.msg = "Creature selected \u{2014} click again to reap, click enemy to attack.".to_owned();
            None
        }
    }

    /// A click on a card of the hand starts dragging it and clears the selections.
    pub fn click_hand_card(&mut self, card_id: CardId)
        ensures
            final(self).drag_card == Some(card_id),
            final(self).selected_hand is None,
            final(self).selected_creature is None,
            final(self).view == old(self).view,
            final(self).msg == old(self).msg,
            final(self).game_over == old(self).game_over,
    {
        self.drag_card = Some(card_id);
        self.selected_hand = None;
        self.selected_creature = None;
    }

    /// A click on a play zone (a flank, or the artifact row which plays on the right) with
    /// a card of the hand selected plays that card.
    pub fn click_play_zone(&mut self, flank: Option<Flank>) -> (r: Option<ClientMessage>)
        ensures
            (flank is Some && old(self).selected_hand is Some) ==> {
                &&& r == Some(ClientMessage::PlayCard { card_id: old(self).selected_hand->0, flank: flank->0 })
                &&& final(self).selected_hand is None
                &&& final(self).msg@ == "Play sent."@
            },
            !(flank is Some && old(self).selected_hand is Some) ==> {
                &&& r is None
                &&& final(self).selected_hand == old(self).selected_hand
                &&& final(self).msg == old(self).msg
            },
            final(self).view == old(self).view,
            final(self).selected_creature == old(self).selected_creature,
            final(self).drag_card == old(self).drag_card,
            final(self).game_over == old(self).game_over,
    {
        if let (Some(f), Some(id)) = (flank, self.selected_hand) {
            self.selected_hand = None;
            self.msg = "Play sent.".to_owned();
            Some(ClientMessage::PlayCard { card_id: id, flank: f })
        } else {
            None
        }
    }

    /// Releasing a dragged card: on the discard pile it is discarded; on the artifact row
    /// or a flank it is played (on the left flank only when dropped there); elsewhere it
    /// stays selected. The drag ends in every case.
    pub fn release_drag(&mut self, on_discard: bool, on_artifact: bool, on_left: bool, on_right: bool) -> (r: Option<ClientMessage>)
        ensures
            old(self).drag_card is None ==> r is None && final(self).drag_card is None
                && final(self).msg == old(self).msg
                && final(self).selected_hand == old(self).selected_hand,
            old(self).drag_card matches Some(id) ==> {
                &&& final(self).drag_card is None
                &&& on_discard ==> r == Some(ClientMessage::DiscardFromHand { card_id: id })
                    && final(self).msg@ == "Discard sent."@
                    && final(self).selected_hand == old(self).selected_hand
                &&& !on_discard && (on_artifact || on_left || on_right) ==> r == Some(
                    ClientMessage::PlayCard {
                        card_id: id,
                        flank: if on_left { Flank::Left } else { Flank::Right },
                    },
                ) && final(self).msg@ == "Play sent."@
                    && final(self).selected_hand == old(self).selected_hand
                &&& !on_discard && !(on_artifact || on_left || on_right) ==> r is None
                    && final(self).selected_hand == Some(id)
                    && final(self).msg@ == "Card selected \u{2014} drop in a zone to play or discard."@
            },
            final(self).view == old(self).view,
            final(self).selected_creature == old(self).selected_creature,
            final(self).game_over == old(self).game_over,
    {
        match self.drag_card {
            None => None,
            Some(id) => {
                let r = if on_discard {
                    self.msg = "Discard sent.".to_owned();
                    Some(ClientMessage::DiscardFromHand { card_id: id })
                } else if on_artifact || on_left || on_right {
                    let flank = if on_left { Flank::Left } else { Flank::Right };
                    self.msg = "Play sent.".to_owned();
                    Some(ClientMessage::PlayCard { card_id: id, flank })
                } else {
                    self.selected_hand = Some(id);
                    self.msg = "Card selected \u{2014} drop in a zone to play or discard.".to_owned();
                    None
                };
                self.drag_card = None;
                r
            },
        }
    }

    /// Choosing a house (without picking up the archives).
    pub fn choose_house_click(&mut self, house: House) -> (r: ClientMessage)
        ensures
            r == (ClientMessage::ChooseHouse { house, pick_up_archives: false }),
            final(self).msg@ == "House "@ + house_name(house) + " chosen."@,
            final(self).view == old(self).view,
            final(self).selected_hand == old(self).selected_hand,
            final(self).selected_creature == old(self).selected_creature,
            final(self).drag_card == old(self).drag_card,
            final(self).game_over == old(self).game_over,
    {
        let mut s = "House ".to_owned();
        s.append(house_str(house));
        s.append(" chosen.");
        self.msg = s;
        ClientMessage::ChooseHouse { house, pick_up_archives: false }
    }

    /// Ending the turn clears every selection.
    pub fn end_turn_click(&mut self) -> (r: ClientMessage)
        ensures
            r == ClientMessage::EndTurn,
            final(self).selected_hand is None,
            final(self).selected_creature is None,
            final(self).drag_card is None,
            final(self).msg@ == "End turn sent."@,
            final(self).view == old(self).view,
            final(self).game_over == old(self).game_over,
    {
        self.selected_hand = None;
        self.selected_creature = None;
        self.drag_card = None;
        self.msg = "End turn sent.".to_owned();
        ClientMessage::EndTurn
    }
}

} // verus!
