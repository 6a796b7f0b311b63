use lala_bar::launcher::{app_matches, is_listed, AppEntry, LaunchAction, LaunchKey, Launcher};

fn app(title: &str, description: &str) -> AppEntry {
    AppEntry { title: title.to_string(), description: description.to_string() }
}

fn apps() -> Vec<AppEntry> {
    vec![
        app("Firefox", "Web Browser"),
        app("Files", "Manage files"),
        app("Terminal", "Command line"),
    ]
}

#[test]
fn empty_search_lists_everything() {
    let l = Launcher::new(apps());
    assert_eq!(l.listed_apps(), vec![0, 1, 2]);
    assert_eq!(l.scrollpos(), 0);
    assert!(!l.should_delete());
}

#[test]
fn search_is_a_case_insensitive_regex() {
    let mut l = Launcher::new(apps());
    l.search_edit_changed("^fi".to_string());
    assert_eq!(l.listed_apps(), vec![0, 1]);
    l.search_edit_changed("browser".to_string());
    assert_eq!(l.listed_apps(), vec![0]);
    l.search_edit_changed("zzz".to_string());
    assert!(l.listed_apps().is_empty());
}

#[test]
fn invalid_pattern_lists_everything() {
    let mut l = Launcher::new(apps());
    l.search_edit_changed("(unclosed".to_string());
    assert_eq!(l.listed_apps(), vec![0, 1, 2]);
}

#[test]
fn matching_uses_the_lowercase_title() {
    assert!(app_matches("^firefox$", &app("Firefox", "")));
    assert!(!app_matches("^Firefox$", &app("Firefox", "")));
    assert!(app_matches("line", &app("Terminal", "Command Line")));
}

#[test]
fn listing_decision() {
    assert!(is_listed(None, None));
    assert!(is_listed(Some(true), Some(false)));
    assert!(is_listed(Some(false), Some(true)));
    assert!(!is_listed(Some(false), Some(false)));
    assert!(!is_listed(Some(false), None));
}

#[test]
fn arrows_move_within_the_list() {
    let mut l = Launcher::new(apps());
    assert_eq!(l.key_event(LaunchKey::ArrowUp), LaunchAction::Stay);
    assert_eq!(l.key_event(LaunchKey::ArrowDown), LaunchAction::Focus);
    assert_eq!(l.key_event(LaunchKey::ArrowDown), LaunchAction::Focus);
    assert_eq!(l.scrollpos(), 2);
    assert_eq!(l.key_event(LaunchKey::ArrowDown), LaunchAction::Stay);
    assert_eq!(l.key_event(LaunchKey::ArrowUp), LaunchAction::Focus);
    assert_eq!(l.scrollpos(), 1);
    assert_eq!(l.key_event(LaunchKey::Other), LaunchAction::Focus);
    l.search_edit_changed("zzz".to_string());
    assert_eq!(l.scrollpos(), 0);
    assert_eq!(l.key_event(LaunchKey::ArrowDown), LaunchAction::Stay);
}

#[test]
fn submit_picks_the_highlighted_listed_app() {
    let mut l = Launcher::new(apps());
    l.search_edit_changed("^fi".to_string());
    l.key_event(LaunchKey::ArrowDown);
    assert_eq!(l.search_submit(), Some(1));
    assert!(l.should_delete());
    let mut m = Launcher::new(apps());
    m.search_edit_changed("zzz".to_string());
    assert_eq!(m.search_submit(), None);
    assert!(!m.should_delete());
}

#[test]
fn escape_and_launch_finish_the_launcher() {
    let mut l = Launcher::new(apps());
    assert_eq!(l.key_event(LaunchKey::Escape), LaunchAction::Close);
    assert!(l.should_delete());
    let mut m = Launcher::new(apps());
    assert_eq!(m.launch(2), 2);
    assert!(m.should_delete());
}
