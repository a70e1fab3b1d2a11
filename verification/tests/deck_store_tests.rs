use keyforge::deck_store::{add_deck, SavedDeck};

fn deck(id: &str, name: &str) -> SavedDeck {
    SavedDeck {
        id: id.to_string(),
        name: name.to_string(),
        houses: vec!["Brobnar".to_string(), "Dis".to_string(), "Shadows".to_string()],
        cards: vec!["Troll".to_string()],
    }
}

#[test]
fn adds_a_new_deck_at_the_end() {
    let decks = add_deck(vec![deck("a", "First")], deck("b", "Second"));
    assert_eq!(decks.len(), 2);
    assert_eq!(decks[1].id, "b");
}

#[test]
fn keeps_the_list_when_the_id_is_known() {
    let decks = add_deck(vec![deck("a", "First"), deck("b", "Second")], deck("a", "Renamed"));
    assert_eq!(decks.len(), 2);
    assert_eq!(decks[0].name, "First");
}

#[test]
fn adding_twice_is_adding_once() {
    let once = add_deck(vec![], deck("a", "First"));
    let twice = add_deck(once.clone(), deck("a", "First"));
    assert_eq!(once.len(), 1);
    assert_eq!(twice.len(), 1);
    assert_eq!(twice[0].id, "a");
}
