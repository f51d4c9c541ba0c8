use stellar_guesser::authors::generate_authors;
use stellar_guesser::cube::get_indices;
use stellar_guesser::enums::Inputs;
use stellar_guesser::input::{input_for, HeldKeys, KeyCombination};
use stellar_guesser::settings::{hash_map_to_string, string_to_partial_hash_map};

#[test]
fn cube_indices() {
    let indices = get_indices();
    assert_eq!(indices.len(), 36);
    assert_eq!(&indices[0..6], &[0u16, 1, 2, 2, 3, 0]);
    assert_eq!(&indices[30..36], &[20u16, 21, 22, 22, 23, 20]);
    assert!(indices.iter().all(|&i| i < 24));
}

#[test]
fn authors_lists() {
    assert_eq!(generate_authors("Alice"), "Alice");
    assert_eq!(generate_authors("Alice:Bob"), "Alice and Bob");
    assert_eq!(generate_authors("Alice:Bob:Carol"), "Alice, Bob, and Carol");
    assert_eq!(generate_authors("A:B:C:D"), "A, B, C, and D");
    assert_eq!(generate_authors(""), "");
}

#[test]
fn stored_switch_lists() {
    let entries = vec![
        ("stars_a".to_string(), true),
        ("stars_b".to_string(), false),
        ("stars_c".to_string(), false),
    ];
    let stored = hash_map_to_string(&entries);
    assert_eq!(stored, "stars_b|stars_c");
    let read = string_to_partial_hash_map(&stored);
    assert_eq!(read, vec![("stars_b".to_string(), false), ("stars_c".to_string(), false)]);
    assert_eq!(hash_map_to_string(&[("x".to_string(), true)]), "");
    assert!(string_to_partial_hash_map("").is_empty());
    assert_eq!(string_to_partial_hash_map("a||b"), vec![("a".to_string(), false), (String::new(), false), ("b".to_string(), false)]);
    // a name listed twice is one entry, as in a map
    assert_eq!(string_to_partial_hash_map("a|b|a"), vec![("a".to_string(), false), ("b".to_string(), false)]);
}

#[test]
fn held_keys_fire_once() {
    let mut held = HeldKeys::new();
    assert!(!held.is_held(KeyCombination::Space));
    assert!(held.press(KeyCombination::Space));
    assert!(!held.press(KeyCombination::Space));
    assert!(held.is_held(KeyCombination::Space));
    assert!(held.press(KeyCombination::AltShiftI));
    held.release(KeyCombination::Space);
    assert!(!held.is_held(KeyCombination::Space));
    assert!(held.is_held(KeyCombination::AltShiftI));
    assert!(held.press(KeyCombination::Space));
    assert!(held.update(KeyCombination::MouseMiddle, true));
    assert!(!held.update(KeyCombination::MouseMiddle, true));
    assert!(!held.update(KeyCombination::MouseMiddle, false));
    assert!(held.update(KeyCombination::MouseMiddle, true));
    assert!(matches!(input_for(KeyCombination::Space), Some(Inputs::Space)));
    assert!(input_for(KeyCombination::AltShiftG).is_none());
}
