//! Building decks of card instances with fresh ids.

use vstd::prelude::*;
use std::collections::HashMap;

use crate::card::{Card, CardDef, CardId, is_fresh_card};

verus! {

broadcast use vstd::std_specs::hash::group_hash_axioms;

/// Hands out card ids in order, starting at 1 and wrapping around after `u32::MAX`.
pub struct IdAllocator {
    pub next: CardId,
}

/// The id handed out `k` ids after `start`.
pub open spec fn id_after(start: CardId, k: int) -> CardId {
    ((start + k) % 0x1_0000_0000) as CardId
}

impl IdAllocator {
    pub fn new() -> (a: Self)
        ensures
            a.next == 1,
    {
        IdAllocator { next: 1 }
    }

    /// The next id.
    pub fn next_id(&mut self) -> (id: CardId)
        ensures
            id == old(self).next,
            final(self).next == id_after(old(self).next, 1),
    {
        let id = self.next;
        self.next = self.next.wrapping_add(1);
        id
    }
}

/// Build a deck from a list of card definitions.
/// Returns (card registry, ordered deck ids — last element is top of deck).
/// The ids are consecutive from the allocator's next id; as long as they do not
/// wrap around, they are distinct and each names a fresh card of its definition.
pub fn build_deck(alloc: &mut IdAllocator, defs: Vec<CardDef>) -> (r: (HashMap<CardId, Card>, Vec<CardId>))
    ensures
        r.1@.len() == defs@.len(),
        forall|i: int| 0 <= i < defs@.len() ==> #[trigger] r.1@[i] == id_after(old(alloc).next, i),
        final(alloc).next == id_after(old(alloc).next, defs@.len() as int),
        forall|id: CardId| #[trigger] r.0@.contains_key(id) <==> r.1@.contains(id),
        old(alloc).next + defs@.len() <= 0x1_0000_0000 ==> forall|i: int|
            0 <= i < defs@.len() ==> is_fresh_card(#[trigger] r.0@[r.1@[i]], r.1@[i], defs@[i]),
{
    let ghost start = alloc.next;
    let ghost all = defs@;
    let mut defs = defs;
    let mut cards: HashMap<CardId, Card> = HashMap::new();
    let mut ids: Vec<CardId> = Vec::new();
    let total: usize = defs.len();
    let mut i: usize = 0;
    while i < total
        invariant
            i + defs@.len() == all.len(),
            total == all.len(),
            defs@ == all.skip(i as int),
            ids@.len() == i,
            forall|k: int| 0 <= k < i ==> #[trigger] ids@[k] == id_after(start, k),
            alloc.next == id_after(start, i as int),
            forall|id: CardId| #[trigger] cards@.contains_key(id) <==> ids@.contains(id),
            start + all.len() <= 0x1_0000_0000 ==> forall|k: int|
                0 <= k < i ==> is_fresh_card(#[trigger] cards@[ids@[k]], ids@[k], all[k]),
        decreases defs@.len(),
    {
        let def = defs.remove(0);
        let id = alloc.next_id();
        proof {
            assert(all.skip(i as int)[0] == all[i as int]);
            assert(all.skip(i + 1) =~= all.skip(i as int).remove(0));
            assert(id_after(id_after(start, i as int), 1) == id_after(start, i + 1));
        }
        let ghost prev = ids@;
        cards.insert(id, Card::new(id, def));
        ids.push(id);
        proof {
            assert forall|x: CardId| #[trigger] cards@.contains_key(x) <==> ids@.contains(x) by {
                if ids@.contains(x) && x != id {
                    let k = choose|k: int| 0 <= k < ids@.len() && ids@[k] == x;
                    assert(prev[k] == x);
                }
                if prev.contains(x) {
                    let k = choose|k: int| 0 <= k < prev.len() && prev[k] == x;
                    assert(ids@[k] == x);
                }
                if x == id {
                    assert(ids@[i as int] == id);
                }
            }
            if start + all.len() <= 0x1_0000_0000 {
                assert forall|k: int| 0 <= k < i + 1 implies is_fresh_card(
                    #[trigger] cards@[ids@[k]],
                    ids@[k],
                    all[k],
                ) by {
                    if k < i {
                        assert(ids@[k] == prev[k]);
                        assert(ids@[k] != id);
                    }
                }
            }
        }
        i = i + 1;
    }
    (cards, ids)
}

} // verus!
