use vstd::prelude::*;
use vstd::multiset::Multiset;
use std::collections::VecDeque;

use crate::card::CardId;

verus! {

#[derive(Clone, Copy, PartialEq, Eq, Debug, Structural)]
pub enum Flank {
    Left,
    Right,
}

/// `s` with every occurrence of `id` taken out, order kept.
pub open spec fn without(s: Seq<CardId>, id: CardId) -> Seq<CardId>
    decreases s.len(),
{
    if s.len() == 0 {
        s
    } else {
        let rest = without(s.drop_last(), id);
        if s.last() == id {
            rest
        } else {
            rest.push(s.last())
        }
    }
}

/// `s` with the first occurrence of `id` taken out (unchanged when absent).
pub open spec fn remove_first(s: Seq<CardId>, id: CardId) -> Seq<CardId> {
    match s.index_of_first(id) {
        Some(i) => s.remove(i),
        None => s,
    }
}

/// The battleline after a creature enters on the given flank.
pub open spec fn add_on_flank(s: Seq<CardId>, id: CardId, flank: Flank) -> Seq<CardId> {
    match flank {
        Flank::Left => seq![id] + s,
        Flank::Right => s.push(id),
    }
}

/// Left and right neighbors of the first occurrence of `id`.
pub open spec fn neighbors_of(s: Seq<CardId>, id: CardId) -> (Option<CardId>, Option<CardId>) {
    match s.index_of_first(id) {
        None => (None, None),
        Some(p) => (
            if p > 0 { Some(s[p - 1]) } else { None },
            if p + 1 < s.len() { Some(s[p + 1]) } else { None },
        ),
    }
}

/// The creature at the center: exists only for an odd, non-zero count.
pub open spec fn center_of(s: Seq<CardId>) -> Option<CardId> {
    if s.len() % 2 == 1 { Some(s[(s.len() / 2) as int]) } else { None }
}

pub open spec fn left_flank_of(s: Seq<CardId>) -> Option<CardId> {
    if s.len() > 0 { Some(s[0]) } else { None }
}

pub open spec fn right_flank_of(s: Seq<CardId>) -> Option<CardId> {
    if s.len() > 0 { Some(s.last()) } else { None }
}

pub proof fn lemma_without_push(s: Seq<CardId>, x: CardId, id: CardId)
    ensures
        without(s.push(x), id) == if x == id { without(s, id) } else { without(s, id).push(x) },
{
    assert(s.push(x).drop_last() =~= s);
}

pub proof fn lemma_without_contents(s: Seq<CardId>, id: CardId)
    ensures
        !without(s, id).contains(id),
        forall|x: CardId| x != id ==> (without(s, id).contains(x) <==> s.contains(x)),
        without(s, id).len() <= s.len(),
        !s.contains(id) ==> without(s, id) == s,
    decreases s.len(),
{
    if s.len() > 0 {
        lemma_without_contents(s.drop_last(), id);
        let r = without(s.drop_last(), id);
        assert(s =~= s.drop_last().push(s.last()));
        assert forall|x: CardId| x != id implies (without(s, id).contains(x) <==> s.contains(
            x,
        )) by {
            if s.contains(x) {
                let j = choose|j: int| 0 <= j < s.len() && s[j] == x;
                if j < s.len() - 1 {
                    assert(s.drop_last()[j] == x);
                    assert(s.drop_last().contains(x));
                    assert(r.contains(x));
                    let k = choose|k: int| 0 <= k < r.len() && r[k] == x;
                    assert(without(s, id)[k] == x);
                } else {
                    assert(s.last() == x);
                    assert(without(s, id)[r.len() as int] == x);
                }
            }
            if without(s, id).contains(x) {
                let j = choose|j: int| 0 <= j < without(s, id).len() && without(s, id)[j] == x;
                if s.last() != id && j == r.len() {
                    assert(s[s.len() - 1] == x);
                } else {
                    assert(r[j] == x);
                    assert(r.contains(x));
                    assert(s.drop_last().contains(x));
                    let k = choose|k: int| 0 <= k < s.drop_last().len() && s.drop_last()[k] == x;
                    assert(s[k] == x);
                }
            }
        }
        if without(s, id).contains(id) {
            let j = choose|j: int| 0 <= j < without(s, id).len() && without(s, id)[j] == id;
            if s.last() != id && j == r.len() {
            } else {
                assert(r[j] == id);
            }
        }
        if !s.contains(id) {
            assert(!s.drop_last().contains(id)) by {
                if s.drop_last().contains(id) {
                    let k = choose|k: int| 0 <= k < s.drop_last().len() && s.drop_last()[k] == id;
                    assert(s[k] == id);
                }
            }
            assert(s[s.len() - 1] != id);
        }
    }
}

/// Remove every occurrence of `id` from `v`, keeping the order of the rest.
pub fn remove_all(v: &mut Vec<CardId>, id: CardId)
    ensures
        final(v)@ == without(old(v)@, id),
{
    let mut kept: Vec<CardId> = Vec::new();
    let mut i: usize = 0;
    while i < v.len()
        invariant
            0 <= i <= v@.len(),
            kept@ == without(v@.take(i as int), id),
        decreases v@.len() - i,
    {
        let x = v[i];
        proof {
            assert(v@.take(i + 1) =~= v@.take(i as int).push(x));
            lemma_without_push(v@.take(i as int), x, id);
        }
        if x != id {
            kept.push(x);
        }
        i = i + 1;
    }
    assert(v@.take(v@.len() as int) =~= v@);
    *v = kept;
}

/// Whether `v` holds `id`.
pub fn vec_contains(v: &Vec<CardId>, id: CardId) -> (b: bool)
    ensures
        b == v@.contains(id),
{
    let mut i: usize = 0;
    while i < v.len()
        invariant
            0 <= i <= v@.len(),
            forall|j: int| 0 <= j < i ==> v@[j] != id,
        decreases v@.len() - i,
    {
        if v[i] == id {
            return true;
        }
        i = i + 1;
    }
    false
}

/// Ordered line of creatures. Index 0 = left flank.
pub struct Battleline {
    creatures: VecDeque<CardId>,
}

impl View for Battleline {
    type V = Seq<CardId>;

    closed spec fn view(&self) -> Seq<CardId> {
        self.creatures@
    }
}

impl Battleline {
    proof fn lemma_len(&self)
        ensures
            self.creatures.len() == self@.len(),
    {
        broadcast use vstd::std_specs::vecdeque::group_vec_dequeue_axioms;
    }

    pub fn new() -> (b: Self)
        ensures
            b@ == Seq::<CardId>::empty(),
    {
        Self { creatures: VecDeque::new() }
    }

    pub fn add(&mut self, id: CardId, flank: Flank)
        ensures
            final(self)@ == add_on_flank(old(self)@, id, flank),
    {
        match flank {
            Flank::Left => self.creatures.push_front(id),
            Flank::Right => self.creatures.push_back(id),
        }
    }

    /// Insert a creature at a position (Deploy); the position must be within the line.
    pub fn deploy_at(&mut self, index: usize, id: CardId)
        requires
            index <= old(self)@.len(),
        ensures
            final(self)@ == old(self)@.insert(index as int, id),
    {
        self.creatures.insert(index, id);
    }

    /// Index of the first occurrence of `id`.
    fn position(&self, id: CardId) -> (r: Option<usize>)
        ensures
            match self@.index_of_first(id) {
                Some(i) => r == Some(i as usize),
                None => r is None,
            },
    {
        proof {
            self@.index_of_first_ensures(id);
        }
        let mut i: usize = 0;
        while i < self.creatures.len()
            invariant
                0 <= i <= self@.len(),
                forall|j: int| 0 <= j < i ==> self@[j] != id,
                match self@.index_of_first(id) {
                    Some(k) => {
                        &&& self@.contains(id)
                        &&& 0 <= k < self@.len()
                        &&& self@[k] == id
                        &&& forall|j: int| 0 <= j < k < self@.len() ==> self@[j] != id
                    },
                    None => !self@.contains(id),
                },
            decreases self@.len() - i,
        {
            if self.creatures[i] == id {
                return Some(i);
            }
            i = i + 1;
        }
        None
    }

    /// Remove a creature; the gap collapses automatically.
    pub fn remove(&mut self, id: CardId)
        ensures
            final(self)@ == remove_first(old(self)@, id),
    {
        proof {
            self@.index_of_first_ensures(id);
            self.lemma_len();
        }
        if let Some(pos) = self.position(id) {
            let _ = self.creatures.remove(pos);
        }
    }

    /// Returns (left_neighbor, right_neighbor).
    pub fn neighbors(&self, id: CardId) -> (r: (Option<CardId>, Option<CardId>))
        ensures
            r == neighbors_of(self@, id),
    {
        proof {
            self@.index_of_first_ensures(id);
            self.lemma_len();
        }
        let pos = match self.position(id) {
            Some(p) => p,
            None => return (None, None),
        };
        let left = if pos > 0 { Some(self.creatures[pos - 1]) } else { None };
        let right = if pos + 1 < self.creatures.len() { Some(self.creatures[pos + 1]) } else { None };
        (left, right)
    }

    pub fn left_flank(&self) -> (r: Option<CardId>)
        ensures
            r == left_flank_of(self@),
    {
        if self.creatures.len() > 0 { Some(self.creatures[0]) } else { None }
    }

    pub fn right_flank(&self) -> (r: Option<CardId>)
        ensures
            r == right_flank_of(self@),
    {
        let n = self.creatures.len();
        if n > 0 { Some(self.creatures[n - 1]) } else { None }
    }

    /// Center creature exists only when count is odd.
    pub fn center(&self) -> (r: Option<CardId>)
        ensures
            r == center_of(self@),
    {
        let len = self.creatures.len();
        if len == 0 || len % 2 == 0 {
            None
        } else {
            Some(self.creatures[len / 2])
        }
    }

    pub fn is_on_flank(&self, id: CardId) -> (b: bool)
        ensures
            b == (left_flank_of(self@) == Some(id) || right_flank_of(self@) == Some(id)),
    {
        self.left_flank() == Some(id) || self.right_flank() == Some(id)
    }

    pub fn len(&self) -> (n: usize)
        ensures
            n == self@.len(),
    {
        self.creatures.len()
    }

    pub fn is_empty(&self) -> (b: bool)
        ensures
            b == (self@.len() == 0),
    {
        self.creatures.len() == 0
    }

    /// Whether the line holds `id`.
    pub fn contains(&self, id: CardId) -> (b: bool)
        ensures
            b == self@.contains(id),
    {
        proof {
            self@.index_of_first_ensures(id);
        }
        self.position(id).is_some()
    }

    pub fn creature_ids(&self) -> (v: Vec<CardId>)
        ensures
            v@ == self@,
    {
        let mut v: Vec<CardId> = Vec::new();
        let mut i: usize = 0;
        while i < self.creatures.len()
            invariant
                0 <= i <= self@.len(),
                v@ == self@.take(i as int),
            decreases self@.len() - i,
        {
            v.push(self.creatures[i]);
            proof {
                assert(self@.take(i + 1) =~= self@.take(i as int).push(self@[i as int]));
            }
            i = i + 1;
        }
        assert(self@.take(self@.len() as int) =~= self@);
        v
    }
}

/// The contents of all zones of one player.
pub struct ZonesView {
    pub deck: Seq<CardId>,
    pub hand: Seq<CardId>,
    pub battleline: Seq<CardId>,
    pub artifacts: Seq<CardId>,
    pub discard: Seq<CardId>,
    pub archives: Seq<CardId>,
    pub purged: Seq<CardId>,
}

/// All zones belonging to one player.
pub struct PlayerZones {
    pub deck: Vec<CardId>,
    pub hand: Vec<CardId>,
    pub battleline: Battleline,
    pub artifacts: Vec<CardId>,
    pub discard: Vec<CardId>,
    pub archives: Vec<CardId>,
    pub purged: Vec<CardId>,
}

impl View for PlayerZones {
    type V = ZonesView;

    open spec fn view(&self) -> ZonesView {
        ZonesView {
            deck: self.deck@,
            hand: self.hand@,
            battleline: self.battleline@,
            artifacts: self.artifacts@,
            discard: self.discard@,
            archives: self.archives@,
            purged: self.purged@,
        }
    }
}

/// Zones after `draw`: an empty deck is first refilled from the discard pile,
/// then the top (last) card of the deck moves to the hand.
pub open spec fn zones_after_draw(z: ZonesView) -> (ZonesView, Option<CardId>) {
    let z1 = if z.deck.len() == 0 {
        ZonesView { deck: z.deck + z.discard, discard: Seq::empty(), ..z }
    } else {
        z
    };
    if z1.deck.len() == 0 {
        (z1, None)
    } else {
        (
            ZonesView { deck: z1.deck.drop_last(), hand: z1.hand.push(z1.deck.last()), ..z1 },
            Some(z1.deck.last()),
        )
    }
}

/// Zones after a card is purged: taken out of every zone and added to the purged pile.
pub open spec fn zones_after_purge(z: ZonesView, id: CardId) -> ZonesView {
    ZonesView {
        deck: without(z.deck, id),
        hand: without(z.hand, id),
        battleline: remove_first(z.battleline, id),
        artifacts: without(z.artifacts, id),
        discard: without(z.discard, id),
        archives: without(z.archives, id),
        purged: z.purged.push(id),
    }
}

/// Zones after a card leaves play for the discard pile: from the battleline when it is
/// there, otherwise from the artifacts.
pub open spec fn zones_after_destroy(z: ZonesView, id: CardId) -> ZonesView {
    if z.battleline.contains(id) {
        ZonesView { battleline: remove_first(z.battleline, id), discard: z.discard.push(id), ..z }
    } else {
        ZonesView { artifacts: without(z.artifacts, id), discard: z.discard.push(id), ..z }
    }
}

impl PlayerZones {
    pub fn new(deck: Vec<CardId>) -> (z: Self)
        ensures
            z@ == (ZonesView {
                deck: deck@,
                hand: Seq::empty(),
                battleline: Seq::empty(),
                artifacts: Seq::empty(),
                discard: Seq::empty(),
                archives: Seq::empty(),
                purged: Seq::empty(),
            }),
    {
        Self {
            deck,
            hand: Vec::new(),
            battleline: Battleline::new(),
            artifacts: Vec::new(),
            discard: Vec::new(),
            archives: Vec::new(),
            purged: Vec::new(),
        }
    }

    /// Draw one card: deck -> hand. When deck is empty, shuffles discard into deck first.
    pub fn draw(&mut self) -> (r: Option<CardId>)
        ensures
            (final(self)@, r) == zones_after_draw(old(self)@),
    {
        if self.deck.len() == 0 {
            self.shuffle_discard_into_deck();
        }
        let card = match self.deck.pop() {
            Some(c) => c,
            None => return None,
        };
        self.hand.push(card);
        Some(card)
    }

    /// hand -> battleline flank
    pub fn play_creature(&mut self, id: CardId, flank: Flank)
        ensures
            final(self)@ == (ZonesView {
                hand: without(old(self)@.hand, id),
                battleline: add_on_flank(old(self)@.battleline, id, flank),
                ..old(self)@
            }),
    {
        remove_all(&mut self.hand, id);
        self.battleline.add(id, flank);
    }

    /// hand -> battleline at position (Deploy keyword)
    pub fn deploy_creature(&mut self, id: CardId, index: usize)
        requires
            index <= old(self)@.battleline.len(),
        ensures
            final(self)@ == (ZonesView {
                hand: without(old(self)@.hand, id),
                battleline: old(self)@.battleline.insert(index as int, id),
                ..old(self)@
            }),
    {
        remove_all(&mut self.hand, id);
        self.battleline.deploy_at(index, id);
    }

    /// hand -> artifacts
    pub fn play_artifact(&mut self, id: CardId)
        ensures
            final(self)@ == (ZonesView {
                hand: without(old(self)@.hand, id),
                artifacts: old(self)@.artifacts.push(id),
                ..old(self)@
            }),
    {
        remove_all(&mut self.hand, id);
        self.artifacts.push(id);
    }

    /// hand -> discard
    pub fn discard_from_hand(&mut self, id: CardId)
        ensures
            final(self)@ == (ZonesView {
                hand: without(old(self)@.hand, id),
                discard: old(self)@.discard.push(id),
                ..old(self)@
            }),
    {
        remove_all(&mut self.hand, id);
        self.discard.push(id);
    }

    /// battleline or artifacts -> discard
    pub fn destroy(&mut self, id: CardId)
        ensures
            final(self)@ == zones_after_destroy(old(self)@, id),
    {
        let in_battleline = self.battleline.contains(id);
        if in_battleline {
            self.battleline.remove(id);
        } else {
            remove_all(&mut self.artifacts, id);
        }
        self.discard.push(id);
    }

    /// hand -> archives
    pub fn archive_from_hand(&mut self, id: CardId)
        ensures
            final(self)@ == (ZonesView {
                hand: without(old(self)@.hand, id),
                archives: old(self)@.archives.push(id),
                ..old(self)@
            }),
    {
        remove_all(&mut self.hand, id);
        self.archives.push(id);
    }

    /// battleline -> archives
    pub fn archive_from_play(&mut self, id: CardId)
        ensures
            final(self)@ == (ZonesView {
                battleline: remove_first(old(self)@.battleline, id),
                archives: old(self)@.archives.push(id),
                ..old(self)@
            }),
    {
        self.battleline.remove(id);
        self.archives.push(id);
    }

    /// archives -> hand (all at once)
    pub fn pick_up_archives(&mut self)
        ensures
            final(self)@ == (ZonesView {
                hand: old(self)@.hand + old(self)@.archives,
                archives: Seq::empty(),
                ..old(self)@
            }),
    {
        self.hand.append(&mut self.archives);
    }

    /// Remove card from any zone and add to purged.
    pub fn purge(&mut self, id: CardId)
        ensures
            final(self)@ == zones_after_purge(old(self)@, id),
    {
        remove_all(&mut self.deck, id);
        remove_all(&mut self.hand, id);
        self.battleline.remove(id);
        remove_all(&mut self.artifacts, id);
        remove_all(&mut self.discard, id);
        remove_all(&mut self.archives, id);
        self.purged.push(id);
    }

    /// battleline -> hand
    pub fn return_to_hand(&mut self, id: CardId)
        ensures
            final(self)@ == (ZonesView {
                battleline: remove_first(old(self)@.battleline, id),
                hand: old(self)@.hand.push(id),
                ..old(self)@
            }),
    {
        self.battleline.remove(id);
        self.hand.push(id);
    }

    /// battleline -> deck (shuffled in)
    pub fn shuffle_into_deck(&mut self, id: CardId)
        ensures
            final(self)@ == (ZonesView {
                battleline: remove_first(old(self)@.battleline, id),
                deck: old(self)@.deck.push(id),
                ..old(self)@
            }),
    {
        self.battleline.remove(id);
        self.deck.push(id);
    }

    /// discard -> deck (when deck empty)
    pub fn shuffle_discard_into_deck(&mut self)
        ensures
            final(self)@ == (ZonesView {
                deck: old(self)@.deck + old(self)@.discard,
                discard: Seq::empty(),
                ..old(self)@
            }),
    {
        self.deck.append(&mut self.discard);
    }
}

} // verus!

verus! {

broadcast use vstd::seq_lib::group_to_multiset_ensures;

/// Every card in the player's zones, counted as often as it appears.
pub open spec fn zone_cards(z: ZonesView) -> Multiset<CardId> {
    z.deck.to_multiset().add(z.hand.to_multiset()).add(z.battleline.to_multiset()).add(
        z.artifacts.to_multiset(),
    ).add(z.discard.to_multiset()).add(z.archives.to_multiset()).add(z.purged.to_multiset())
}

proof fn lemma_without_count(s: Seq<CardId>, id: CardId, x: CardId)
    ensures
        without(s, id).to_multiset().count(x) == if x == id { 0 } else { s.to_multiset().count(x) },
    decreases s.len(),
{
    if s.len() > 0 {
        lemma_without_count(s.drop_last(), id, x);
        assert(s =~= s.drop_last().push(s.last()));
    } else {
        assert(without(s, id) == s);
    }
}

/// Taking a card that appears once out of a sequence removes exactly that copy.
pub proof fn lemma_without_once(s: Seq<CardId>, id: CardId)
    requires
        s.to_multiset().count(id) == 1,
    ensures
        without(s, id).to_multiset() =~= s.to_multiset().remove(id),
{
    assert forall|x: CardId| #[trigger] without(s, id).to_multiset().count(x) == s.to_multiset().remove(id).count(x) by {
        lemma_without_count(s, id, x);
    }
}

proof fn lemma_remove_first_ms(s: Seq<CardId>, id: CardId)
    requires
        s.contains(id),
    ensures
        remove_first(s, id).to_multiset() =~= s.to_multiset().remove(id),
{
    s.index_of_first_ensures(id);
}

proof fn lemma_prepend_ms(s: Seq<CardId>, id: CardId)
    ensures
        (seq![id] + s).to_multiset() =~= s.to_multiset().insert(id),
{
    vstd::seq_lib::lemma_multiset_commutative(seq![id], s);
    assert(seq![id] =~= Seq::<CardId>::empty().push(id));
}

pub proof fn lemma_flank_ms(s: Seq<CardId>, id: CardId, flank: Flank)
    ensures
        add_on_flank(s, id, flank).to_multiset() =~= s.to_multiset().insert(id),
{
    lemma_prepend_ms(s, id);
}

/// Playing, deploying, discarding or archiving a card that is once in the hand moves it:
/// no card of the player's zones is lost or copied.
pub proof fn law_hand_moves_keep_cards(z: ZonesView, id: CardId, flank: Flank, index: int)
    requires
        z.hand.to_multiset().count(id) == 1,
        0 <= index <= z.battleline.len(),
    ensures
        zone_cards(ZonesView { hand: without(z.hand, id), battleline: add_on_flank(z.battleline, id, flank), ..z })
            == zone_cards(z),
        zone_cards(ZonesView { hand: without(z.hand, id), battleline: z.battleline.insert(index, id), ..z })
            == zone_cards(z),
        zone_cards(ZonesView { hand: without(z.hand, id), artifacts: z.artifacts.push(id), ..z })
            == zone_cards(z),
        zone_cards(ZonesView { hand: without(z.hand, id), discard: z.discard.push(id), ..z })
            == zone_cards(z),
        zone_cards(ZonesView { hand: without(z.hand, id), archives: z.archives.push(id), ..z })
            == zone_cards(z),
{
    lemma_without_once(z.hand, id);
    lemma_flank_ms(z.battleline, id, flank);
    assert(z.hand.to_multiset().remove(id).insert(id) =~= z.hand.to_multiset());
    assert(zone_cards(ZonesView { hand: without(z.hand, id), battleline: add_on_flank(z.battleline, id, flank), ..z })
        =~= zone_cards(z));
    assert(zone_cards(ZonesView { hand: without(z.hand, id), battleline: z.battleline.insert(index, id), ..z })
        =~= zone_cards(z));
    assert(zone_cards(ZonesView { hand: without(z.hand, id), artifacts: z.artifacts.push(id), ..z })
        =~= zone_cards(z));
    assert(zone_cards(ZonesView { hand: without(z.hand, id), discard: z.discard.push(id), ..z })
        =~= zone_cards(z));
    assert(zone_cards(ZonesView { hand: without(z.hand, id), archives: z.archives.push(id), ..z })
        =~= zone_cards(z));
}

/// Archiving, returning to hand or shuffling into the deck a creature of the battleline
/// moves it; so does destroying a card in play (a creature, or an artifact that is once
/// among the artifacts).
pub proof fn law_play_moves_keep_cards(z: ZonesView, id: CardId)
    requires
        z.battleline.contains(id),
    ensures
        zone_cards(ZonesView { battleline: remove_first(z.battleline, id), archives: z.archives.push(id), ..z })
            == zone_cards(z),
        zone_cards(ZonesView { battleline: remove_first(z.battleline, id), hand: z.hand.push(id), ..z })
            == zone_cards(z),
        zone_cards(ZonesView { battleline: remove_first(z.battleline, id), deck: z.deck.push(id), ..z })
            == zone_cards(z),
        zone_cards(zones_after_destroy(z, id)) == zone_cards(z),
{
    lemma_remove_first_ms(z.battleline, id);
    let b = z.battleline.to_multiset();
    assert(b.remove(id).insert(id) =~= b);
    assert(zone_cards(ZonesView { battleline: remove_first(z.battleline, id), archives: z.archives.push(id), ..z })
        =~= zone_cards(z));
    assert(zone_cards(ZonesView { battleline: remove_first(z.battleline, id), hand: z.hand.push(id), ..z })
        =~= zone_cards(z));
    assert(zone_cards(ZonesView { battleline: remove_first(z.battleline, id), deck: z.deck.push(id), ..z })
        =~= zone_cards(z));
    assert(zone_cards(zones_after_destroy(z, id)) =~= zone_cards(z));
}

/// Destroying an artifact that is once among the artifacts (and not a creature of the
/// battleline) moves it to the discard pile.
pub proof fn law_destroy_artifact_keeps_cards(z: ZonesView, id: CardId)
    requires
        !z.battleline.contains(id),
        z.artifacts.to_multiset().count(id) == 1,
    ensures
        zone_cards(zones_after_destroy(z, id)) == zone_cards(z),
{
    lemma_without_once(z.artifacts, id);
    let a = z.artifacts.to_multiset();
    assert(a.remove(id).insert(id) =~= a);
    assert(zone_cards(zones_after_destroy(z, id)) =~= zone_cards(z));
}

/// Drawing, picking up the archives and shuffling the discard pile into the deck move
/// cards between zones without losing or copying any.
pub proof fn law_draw_and_refill_keep_cards(z: ZonesView)
    ensures
        zone_cards(zones_after_draw(z).0) == zone_cards(z),
        zone_cards(ZonesView { hand: z.hand + z.archives, archives: Seq::empty(), ..z }) == zone_cards(z),
        zone_cards(ZonesView { deck: z.deck + z.discard, discard: Seq::empty(), ..z }) == zone_cards(z),
{
    vstd::seq_lib::lemma_multiset_commutative(z.hand, z.archives);
    vstd::seq_lib::lemma_multiset_commutative(z.deck, z.discard);
    assert(Seq::<CardId>::empty().to_multiset() =~= Multiset::<CardId>::empty());
    let z1 = if z.deck.len() == 0 {
        ZonesView { deck: z.deck + z.discard, discard: Seq::empty(), ..z }
    } else {
        z
    };
    assert(zone_cards(z1) =~= zone_cards(z));
    if z1.deck.len() > 0 {
        let d = z1.deck;
        assert(d =~= d.drop_last().push(d.last()));
        assert(d.drop_last().to_multiset().insert(d.last()) =~= d.to_multiset());
        assert(zone_cards(zones_after_draw(z).0) =~= zone_cards(z1));
    }
    assert(zone_cards(ZonesView { hand: z.hand + z.archives, archives: Seq::empty(), ..z }) =~= zone_cards(z));
    assert(zone_cards(ZonesView { deck: z.deck + z.discard, discard: Seq::empty(), ..z }) =~= zone_cards(z));
}

/// Purging a card that is in exactly one zone other than the purged pile, once, moves it
/// to the purged pile.
pub proof fn law_purge_keeps_cards(z: ZonesView, id: CardId)
    requires
        zone_cards(z).count(id) == 1,
        z.purged.to_multiset().count(id) == 0,
    ensures
        zone_cards(zones_after_purge(z, id)) == zone_cards(z),
{
    let after = zones_after_purge(z, id);
    assert forall|x: CardId| #[trigger] zone_cards(after).count(x) == zone_cards(z).count(x) by {
        lemma_without_count(z.deck, id, x);
        lemma_without_count(z.hand, id, x);
        lemma_without_count(z.artifacts, id, x);
        lemma_without_count(z.discard, id, x);
        lemma_without_count(z.archives, id, x);
        if z.battleline.contains(id) {
            lemma_remove_first_ms(z.battleline, id);
        } else {
            assert(remove_first(z.battleline, id) == z.battleline) by {
                z.battleline.index_of_first_ensures(id);
            }
            assert(z.battleline.to_multiset().count(id) == 0);
        }
    }
    assert(zone_cards(after) =~= zone_cards(z));
}

/// A creature entering on the left flank becomes the left flank; on the right flank,
/// the right flank; the others keep their order.
pub proof fn law_flank_entry(s: Seq<CardId>, id: CardId)
    ensures
        left_flank_of(add_on_flank(s, id, Flank::Left)) == Some(id),
        add_on_flank(s, id, Flank::Left).skip(1) == s,
        right_flank_of(add_on_flank(s, id, Flank::Right)) == Some(id),
        add_on_flank(s, id, Flank::Right).drop_last() == s,
{
    assert(add_on_flank(s, id, Flank::Left).skip(1) =~= s);
    assert(add_on_flank(s, id, Flank::Right).drop_last() =~= s);
}

/// A lone creature is on both flanks and in the center; with an even number of
/// creatures there is no center.
pub proof fn law_lone_creature(s: Seq<CardId>)
    ensures
        s.len() == 1 ==> left_flank_of(s) == Some(s[0]) && right_flank_of(s) == Some(s[0])
            && center_of(s) == Some(s[0]),
        s.len() % 2 == 0 ==> center_of(s) is None,
{
}

/// Neighbors go both ways: in a line without repeats, the left neighbor of a creature has
/// it as its right neighbor, and the other way round.
pub proof fn law_neighbors_symmetric(s: Seq<CardId>, id: CardId)
    requires
        s.no_duplicates(),
    ensures
        neighbors_of(s, id).0 matches Some(l) ==> neighbors_of(s, l).1 == Some(id),
        neighbors_of(s, id).1 matches Some(r) ==> neighbors_of(s, r).0 == Some(id),
{
    s.index_of_first_ensures(id);
    if let Some(p) = s.index_of_first(id) {
        if p > 0 {
            let l = s[p - 1];
            s.index_of_first_ensures(l);
            assert(s.index_of_first(l) == Some(p - 1));
        }
        if p + 1 < s.len() {
            let r = s[p + 1];
            s.index_of_first_ensures(r);
            assert(s.index_of_first(r) == Some(p + 1));
        }
    }
}

/// When a creature leaves the line, the line closes up: the others keep their order.
pub proof fn law_leaving_closes_gap(s: Seq<CardId>, id: CardId)
    requires
        s.contains(id),
    ensures
        remove_first(s, id).len() == s.len() - 1,
        ({
            let p = s.index_of_first(id)->0;
            &&& remove_first(s, id) == s.take(p) + s.skip(p + 1)
        }),
{
    s.index_of_first_ensures(id);
    let p = s.index_of_first(id)->0;
    assert(s.remove(p) =~= s.take(p) + s.skip(p + 1));
}

} // verus!
