use keyforge::vault::extract_uuid;

const UUID: &str = "0f1e2d3c-4b5a-6978-8796-a5b4c3d2e1f0";

#[test]
fn uuid_from_vault_url() {
    let url = format!("https://www.keyforgegame.com/deck-details/{}", UUID);
    assert_eq!(extract_uuid(&url), Some(UUID.to_string()));
}

#[test]
fn uuid_with_trailing_slash_and_spaces() {
    let url = format!("  \thttps://decksofkeyforge.com/decks/{}/ \n", UUID);
    assert_eq!(extract_uuid(&url), Some(UUID.to_string()));
}

#[test]
fn bare_uuid_is_accepted() {
    assert_eq!(extract_uuid(UUID), Some(UUID.to_string()));
}

#[test]
fn no_uuid_gives_none() {
    assert_eq!(extract_uuid("https://www.keyforgegame.com/decks"), None);
    assert_eq!(extract_uuid(""), None);
    assert_eq!(extract_uuid("   "), None);
}

#[test]
fn wrong_dash_count_is_rejected() {
    // 36 characters but only three dashes.
    let seg = "0f1e2d3c4b5a-6978-8796-a5b4c3d2e1f00";
    assert_eq!(seg.len(), 36);
    assert_eq!(extract_uuid(&format!("https://x/{}", seg)), None);
}

#[test]
fn first_matching_segment_wins() {
    let other = "ffffffff-ffff-ffff-ffff-ffffffffffff";
    let url = format!("https://x/{}/{}", UUID, other);
    assert_eq!(extract_uuid(&url), Some(UUID.to_string()));
}

#[test]
fn length_counts_bytes_not_characters() {
    // 35 characters, one of them two bytes long in UTF-8: 36 bytes in all.
    let seg = "é1e2d3c-4b5a-6978-8796-a5b4c3d2e1f0";
    assert_eq!(seg.chars().count(), 35);
    assert_eq!(seg.len(), 36);
    assert_eq!(extract_uuid(&format!("https://x/{}", seg)), Some(seg.to_string()));
}

#[test]
fn unicode_white_space_is_trimmed() {
    let url = format!("\u{3000}{}\u{a0}", UUID);
    assert_eq!(extract_uuid(&url), Some(UUID.to_string()));
}
