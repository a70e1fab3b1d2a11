use keyforge::victory::{KeyColor, PlayerKeys};

#[test]
fn test_initial_keys_unforged() {
    let pk = PlayerKeys::new();
    assert_eq!(pk.forged_count(), 0);
    assert_eq!(pk.unforged_keys().len(), 3);
}

#[test]
fn test_forge_key() {
    let mut pk = PlayerKeys::new();
    pk.forge(KeyColor::Red);
    assert!(pk.is_forged(KeyColor::Red));
    assert_eq!(pk.forged_count(), 1);
}

#[test]
fn test_forge_three_wins() {
    let mut pk = PlayerKeys::new();
    pk.forge(KeyColor::Red);
    pk.forge(KeyColor::Blue);
    pk.forge(KeyColor::Yellow);
    assert!(pk.has_won());
}

#[test]
fn test_forge_two_not_won() {
    let mut pk = PlayerKeys::new();
    pk.forge(KeyColor::Red);
    pk.forge(KeyColor::Blue);
    assert!(!pk.has_won());
}

#[test]
fn test_unforge_key() {
    let mut pk = PlayerKeys::new();
    pk.forge(KeyColor::Blue);
    pk.unforge(KeyColor::Blue);
    assert!(!pk.is_forged(KeyColor::Blue));
    assert_eq!(pk.forged_count(), 0);
}

#[test]
fn test_unforge_revokes_win() {
    let mut pk = PlayerKeys::new();
    pk.forge(KeyColor::Red);
    pk.forge(KeyColor::Blue);
    pk.forge(KeyColor::Yellow);
    assert!(pk.has_won());
    pk.unforge(KeyColor::Yellow);
    assert!(!pk.has_won());
}

// ---- further cases ----

#[test]
fn forging_twice_is_forging_once() {
    let mut pk = PlayerKeys::new();
    pk.forge(KeyColor::Blue);
    pk.forge(KeyColor::Blue);
    assert_eq!(pk.forged_count(), 1);
    assert_eq!(pk.unforged_keys(), vec![KeyColor::Red, KeyColor::Yellow]);
}

#[test]
fn unforging_an_unforged_key_changes_nothing() {
    let mut pk = PlayerKeys::new();
    pk.unforge(KeyColor::Red);
    assert_eq!(pk.forged_count(), 0);
    assert!(!pk.is_forged(KeyColor::Red));
}

#[test]
fn unforge_undoes_forge() {
    let mut pk = PlayerKeys::new();
    pk.forge(KeyColor::Red);
    pk.forge(KeyColor::Yellow);
    pk.unforge(KeyColor::Yellow);
    assert!(pk.is_forged(KeyColor::Red));
    assert!(!pk.is_forged(KeyColor::Yellow));
    assert_eq!(pk.unforged_keys(), vec![KeyColor::Blue, KeyColor::Yellow]);
}
