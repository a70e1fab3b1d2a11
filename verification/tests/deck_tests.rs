use keyforge::cards::TROLL;
use keyforge::deck::{IdAllocator, build_deck};

#[test]
fn test_build_deck() {
    let mut alloc = IdAllocator::new();
    let (cards, ids) = build_deck(&mut alloc, vec![TROLL(), TROLL()]);
    assert_eq!(ids.len(), 2);
    assert_ne!(ids[0], ids[1]); // unique ids
    assert!(cards.contains_key(&ids[0]));
    assert!(cards.contains_key(&ids[1]));
}

#[test]
fn test_build_deck_preserves_def() {
    let mut alloc = IdAllocator::new();
    let (cards, ids) = build_deck(&mut alloc, vec![TROLL()]);
    assert_eq!(cards[&ids[0]].def.name, "Troll");
}

// ---- further cases ----

#[test]
fn ids_continue_across_decks() {
    let mut alloc = IdAllocator::new();
    let (_, a) = build_deck(&mut alloc, vec![TROLL(), TROLL()]);
    let (_, b) = build_deck(&mut alloc, vec![TROLL()]);
    assert_eq!(a, vec![1, 2]);
    assert_eq!(b, vec![3]);
    assert_eq!(alloc.next, 4);
}

#[test]
fn ids_wrap_around_after_the_largest() {
    let mut alloc = IdAllocator { next: u32::MAX };
    assert_eq!(alloc.next_id(), u32::MAX);
    assert_eq!(alloc.next_id(), 0);
}

#[test]
fn built_cards_are_fresh() {
    let mut alloc = IdAllocator::new();
    let (cards, ids) = build_deck(&mut alloc, vec![TROLL()]);
    let c = &cards[&ids[0]];
    assert_eq!(c.id, ids[0]);
    assert!(!c.exhausted);
    assert_eq!(c.damage, 0);
    assert_eq!(c.def.power, Some(5));
}
