use keyforge::card::CardId;
use keyforge::zones::{Battleline, Flank, PlayerZones};

fn zones_with_deck(ids: Vec<CardId>) -> PlayerZones {
    PlayerZones::new(ids)
}

#[test]
fn test_draw() {
    let mut z = zones_with_deck(vec![1, 2, 3]);
    let drawn = z.draw();
    // deck is treated as a stack, last element is "top"
    assert_eq!(drawn, Some(3));
    assert_eq!(z.deck.len(), 2);
    assert!(z.hand.contains(&3));
}

#[test]
fn test_draw_empty_reshuffles() {
    let mut z = zones_with_deck(vec![]);
    z.discard.push(10);
    z.discard.push(11);
    let drawn = z.draw();
    assert!(drawn.is_some());
    assert!(z.discard.is_empty());
}

#[test]
fn test_play_creature_left_flank() {
    let mut z = zones_with_deck(vec![]);
    z.hand.push(1);
    z.play_creature(1, Flank::Left);
    assert!(!z.hand.contains(&1));
    assert_eq!(z.battleline.left_flank(), Some(1));
}

#[test]
fn test_play_creature_right_flank() {
    let mut z = zones_with_deck(vec![]);
    z.hand.push(1);
    z.hand.push(2);
    z.play_creature(1, Flank::Left);
    z.hand.push(2);
    z.play_creature(2, Flank::Right);
    assert_eq!(z.battleline.right_flank(), Some(2));
}

#[test]
fn test_deploy_creature() {
    let mut z = zones_with_deck(vec![]);
    z.hand.push(1);
    z.hand.push(2);
    z.hand.push(3);
    z.play_creature(1, Flank::Left);
    z.play_creature(3, Flank::Right);
    z.hand.push(2);
    z.deploy_creature(2, 1); // insert between 1 and 3
    assert_eq!(z.battleline.neighbors(2), (Some(1), Some(3)));
}

#[test]
fn test_play_artifact() {
    let mut z = zones_with_deck(vec![]);
    z.hand.push(5);
    z.play_artifact(5);
    assert!(!z.hand.contains(&5));
    assert!(z.artifacts.contains(&5));
}

#[test]
fn test_discard_from_hand() {
    let mut z = zones_with_deck(vec![]);
    z.hand.push(7);
    z.discard_from_hand(7);
    assert!(!z.hand.contains(&7));
    assert_eq!(z.discard.last(), Some(&7));
}

#[test]
fn test_destroy_creature() {
    let mut z = zones_with_deck(vec![]);
    z.hand.push(1);
    z.hand.push(2);
    z.hand.push(3);
    z.play_creature(1, Flank::Left);
    z.play_creature(2, Flank::Right);
    z.play_creature(3, Flank::Right);
    // battleline: [1, 2, 3]
    z.destroy(2);
    // gap collapses: [1, 3]
    assert_eq!(z.battleline.len(), 2);
    assert!(z.discard.contains(&2));
    assert_eq!(z.battleline.neighbors(1), (None, Some(3)));
}

#[test]
fn test_destroy_artifact() {
    let mut z = zones_with_deck(vec![]);
    z.hand.push(9);
    z.play_artifact(9);
    z.destroy(9);
    assert!(!z.artifacts.contains(&9));
    assert!(z.discard.contains(&9));
}

#[test]
fn test_archive_from_hand() {
    let mut z = zones_with_deck(vec![]);
    z.hand.push(4);
    z.archive_from_hand(4);
    assert!(!z.hand.contains(&4));
    assert!(z.archives.contains(&4));
}

#[test]
fn test_archive_from_play() {
    let mut z = zones_with_deck(vec![]);
    z.hand.push(6);
    z.play_creature(6, Flank::Left);
    z.archive_from_play(6);
    assert_eq!(z.battleline.len(), 0);
    assert!(z.archives.contains(&6));
}

#[test]
fn test_pick_up_archives() {
    let mut z = zones_with_deck(vec![]);
    z.archives.push(10);
    z.archives.push(11);
    z.pick_up_archives();
    assert!(z.archives.is_empty());
    assert!(z.hand.contains(&10));
    assert!(z.hand.contains(&11));
}

#[test]
fn test_purge() {
    let mut z = zones_with_deck(vec![]);
    z.discard.push(99);
    z.purge(99);
    assert!(!z.discard.contains(&99));
    assert!(z.purged.contains(&99));
}

#[test]
fn test_return_to_hand() {
    let mut z = zones_with_deck(vec![]);
    z.hand.push(20);
    z.play_creature(20, Flank::Left);
    z.return_to_hand(20);
    assert_eq!(z.battleline.len(), 0);
    assert!(z.hand.contains(&20));
}

#[test]
fn test_neighbors() {
    let mut b = Battleline::new();
    b.add(1, Flank::Right);
    b.add(2, Flank::Right);
    b.add(3, Flank::Right);
    assert_eq!(b.neighbors(2), (Some(1), Some(3)));
}

#[test]
fn test_neighbors_single() {
    let mut b = Battleline::new();
    b.add(1, Flank::Left);
    assert_eq!(b.neighbors(1), (None, None));
}

#[test]
fn test_flanks() {
    let mut b = Battleline::new();
    b.add(1, Flank::Right);
    b.add(2, Flank::Right);
    b.add(3, Flank::Right);
    assert_eq!(b.left_flank(), Some(1));
    assert_eq!(b.right_flank(), Some(3));
}

#[test]
fn test_single_creature_both_flanks() {
    let mut b = Battleline::new();
    b.add(1, Flank::Left);
    assert_eq!(b.left_flank(), Some(1));
    assert_eq!(b.right_flank(), Some(1));
}

#[test]
fn test_center() {
    let mut b = Battleline::new();
    b.add(1, Flank::Right);
    b.add(2, Flank::Right);
    b.add(3, Flank::Right);
    assert_eq!(b.center(), Some(2)); // odd count
    b.add(4, Flank::Right);
    assert_eq!(b.center(), None); // even count
}

#[test]
fn test_is_on_flank() {
    let mut b = Battleline::new();
    b.add(1, Flank::Right);
    b.add(2, Flank::Right);
    b.add(3, Flank::Right);
    assert!(b.is_on_flank(1));
    assert!(b.is_on_flank(3));
    assert!(!b.is_on_flank(2));
}

// ---- further cases ----

#[test]
fn draw_from_empty_deck_and_discard_gives_nothing() {
    let mut z = zones_with_deck(vec![]);
    assert_eq!(z.draw(), None);
    assert!(z.hand.is_empty());
}

#[test]
fn draw_refills_deck_from_discard_in_order() {
    let mut z = zones_with_deck(vec![]);
    z.discard.push(10);
    z.discard.push(11);
    // The discard pile becomes the deck as it is; its last card is on top.
    assert_eq!(z.draw(), Some(11));
    assert_eq!(z.deck, vec![10]);
}

#[test]
fn deploy_at_the_ends_takes_a_flank() {
    let mut b = Battleline::new();
    b.add(1, Flank::Right);
    b.deploy_at(0, 5);
    b.deploy_at(2, 6);
    assert_eq!(b.creature_ids(), vec![5, 1, 6]);
    assert_eq!(b.center(), Some(1));
}

#[test]
fn removing_a_missing_creature_changes_nothing() {
    let mut b = Battleline::new();
    b.add(1, Flank::Right);
    b.add(2, Flank::Right);
    b.remove(9);
    assert_eq!(b.creature_ids(), vec![1, 2]);
    assert!(!b.contains(9));
}

#[test]
fn moves_keep_every_card_once() {
    let mut z = zones_with_deck(vec![1, 2, 3, 4]);
    z.draw();
    z.draw();
    z.draw();
    z.play_creature(4, Flank::Left);
    z.play_artifact(3);
    z.discard_from_hand(2);
    z.destroy(4);
    z.purge(3);
    let mut all: Vec<CardId> = Vec::new();
    for v in [&z.deck, &z.hand, &z.artifacts, &z.discard, &z.archives, &z.purged] {
        all.extend(v.iter().copied());
    }
    all.extend(z.battleline.creature_ids());
    all.sort();
    assert_eq!(all, vec![1, 2, 3, 4]);
}

#[test]
fn shuffle_discard_into_deck_appends() {
    let mut z = zones_with_deck(vec![1]);
    z.discard.push(2);
    z.discard.push(3);
    z.shuffle_discard_into_deck();
    assert_eq!(z.deck, vec![1, 2, 3]);
    assert!(z.discard.is_empty());
}

#[test]
fn shuffle_into_deck_moves_creature_to_top() {
    let mut z = zones_with_deck(vec![1]);
    z.hand.push(7);
    z.play_creature(7, Flank::Left);
    z.shuffle_into_deck(7);
    assert_eq!(z.deck, vec![1, 7]);
    assert!(z.battleline.is_empty());
}
