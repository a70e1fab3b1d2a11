//! The list of decks a player has saved.

use vstd::prelude::*;

verus! {

#[derive(Debug, Clone)]
pub struct SavedDeck {
    pub id: String,
    pub name: String,
    pub houses: Vec<String>,
    pub cards: Vec<String>,
}

/// Whether a deck with this id is in the list.
pub open spec fn has_deck_id(decks: Seq<SavedDeck>, id: Seq<char>) -> bool {
    exists|i: int| 0 <= i < decks.len() && (#[trigger] decks[i]).id@ == id
}

/// The list with the deck added at the end, unless a deck with the same id is already there.
pub open spec fn with_deck(decks: Seq<SavedDeck>, deck: SavedDeck) -> Seq<SavedDeck> {
    if has_deck_id(decks, deck.id@) {
        decks
    } else {
        decks.push(deck)
    }
}

/// Whether a deck with this id is in the list.
fn contains_id(decks: &Vec<SavedDeck>, id: &String) -> (b: bool)
    ensures
        b == has_deck_id(decks@, id@),
{
    let mut i: usize = 0;
    while i < decks.len()
        invariant
            0 <= i <= decks@.len(),
            forall|j: int| 0 <= j < i ==> (#[trigger] decks@[j]).id@ != id@,
        decreases decks@.len() - i,
    {
        if decks[i].id == *id {
            assert((decks@[i as int]).id@ == id@);
            return true;
        }
        i = i + 1;
    }
    false
}

/// Adds the deck if not already present (by id). Returns the updated list.
pub fn add_deck(saved: Vec<SavedDeck>, deck: SavedDeck) -> (r: Vec<SavedDeck>)
    ensures
        r@ == with_deck(saved@, deck),
{
    let mut decks = saved;
    if !contains_id(&decks, &deck.id) {
        decks.push(deck);
    }
    decks
}

} // verus!
