use lala_bar::localization::{fl, Localizer};

fn english() -> Localizer {
    Localizer::new(vec![
        ("app-name".to_string(), "Lala Bar".to_string()),
        ("balance-left".to_string(), "Left: { $percent }%".to_string()),
    ])
}

#[test]
fn test_simple_translation() {
    let result = fl(&english(), "app-name");
    assert_eq!(result, "Lala Bar", "Should translate app-name correctly");
}

#[test]
fn test_missing_key() {
    let result = fl(&english(), "non-existent-key");
    assert_eq!(result, "non-existent-key", "Should return key if missing");
}

#[test]
fn first_entry_of_a_key_wins() {
    let l = Localizer::new(vec![
        ("k".to_string(), "one".to_string()),
        ("k".to_string(), "two".to_string()),
    ]);
    assert_eq!(l.tr("k"), "one");
    assert!(l.has("k"));
    assert!(!l.has("x"));
}

#[test]
fn empty_table_returns_keys() {
    let l = Localizer::new(vec![]);
    assert_eq!(fl(&l, ""), "");
    assert_eq!(fl(&l, "app-name"), "app-name");
}
