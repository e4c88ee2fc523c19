use session_keybinds::config::{validate_keybind_config, Config, Diagnostic};
use session_keybinds::keybinds::{KeyAction, KeybindManager};
use session_keybinds::keys::{key_from_bare, key_with_ctrl, BaseKey};
use session_keybinds::parse::ParseError;

fn raw(entries: &[(&str, &str)]) -> Vec<(String, String)> {
    entries.iter().map(|(k, v)| (k.to_string(), v.to_string())).collect()
}

#[test]
fn test_build_from_empty_config_keeps_defaults() {
    let (config, diags) = Config::from_zellij_config(&raw(&[]));
    assert!(diags.is_empty());
    assert_eq!(config.default_layout, None);
    assert_eq!(config.session_separator, ".");
    assert_eq!(
        config.keybinds.get_action(&key_from_bare(BaseKey::Up)),
        Some(KeyAction::MoveUp)
    );
    assert_eq!(
        config.keybinds.get_action(&key_from_bare(BaseKey::Enter)),
        Some(KeyAction::Select)
    );
}

#[test]
fn test_build_with_overrides_leaves_other_defaults() {
    let (config, diags) = Config::from_zellij_config(&raw(&[("move_up", "j"), ("select", "l")]));
    assert!(diags.is_empty());
    assert_eq!(
        config.keybinds.get_action(&key_from_bare(BaseKey::Char('j'))),
        Some(KeyAction::MoveUp)
    );
    assert_eq!(
        config.keybinds.get_action(&key_from_bare(BaseKey::Char('l'))),
        Some(KeyAction::Select)
    );
    // The replaced defaults are gone; everything else stays.
    assert_eq!(config.keybinds.get_action(&key_from_bare(BaseKey::Up)), None);
    assert_eq!(
        config.keybinds.get_action(&key_from_bare(BaseKey::Down)),
        Some(KeyAction::MoveDown)
    );
    assert_eq!(
        config.keybinds.get_action(&key_with_ctrl('c')),
        Some(KeyAction::Exit)
    );
}

#[test]
fn test_build_with_parse_failure_keeps_default_binding() {
    let (config, diags) = Config::from_zellij_config(&raw(&[("move_up", "")]));
    assert_eq!(diags.len(), 1);
    match &diags[0] {
        Diagnostic::InvalidKeybind(key, ParseError::NoKeysSpecified) => {
            assert_eq!(key, "move_up");
        },
        other => panic!("expected InvalidKeybind, got {:?}", other),
    }
    // MoveUp's defaults are untouched.
    assert_eq!(
        config.keybinds.get_action(&key_from_bare(BaseKey::Up)),
        Some(KeyAction::MoveUp)
    );
    assert_eq!(
        config.keybinds.get_action(&key_with_ctrl('p')),
        Some(KeyAction::MoveUp)
    );
}

#[test]
fn test_build_reports_conflict_but_overrides() {
    // Enter is bound to Select (and Confirm) by default; binding it to
    // MoveUp is reported, not rejected.
    let (config, diags) = Config::from_zellij_config(&raw(&[("move_up", "Enter")]));
    assert!(diags.iter().any(|d| matches!(
        d,
        Diagnostic::KeyConflict(shown, KeyAction::Select, KeyAction::MoveUp) if shown == "Enter"
    )));
    // The override is applied to MoveUp's key list...
    assert_eq!(
        config.keybinds.get_keys_for_action(KeyAction::MoveUp),
        vec![key_from_bare(BaseKey::Enter)]
    );
    // ...but lookup stays first-match, so the earlier Select binding of
    // Enter still wins at resolution time.
    assert_eq!(
        config.keybinds.get_action(&key_from_bare(BaseKey::Enter)),
        Some(KeyAction::Select)
    );
}

#[test]
fn test_build_reads_layout_and_separator() {
    let (config, diags) = Config::from_zellij_config(&raw(&[
        ("default_layout", "compact"),
        ("session_separator", "-"),
    ]));
    assert!(diags.is_empty());
    assert_eq!(config.default_layout, Some("compact".to_string()));
    assert_eq!(config.session_separator, "-");
}

#[test]
fn test_validate_reports_missing_essential_actions() {
    let mut keybinds = KeybindManager::new();
    assert!(validate_keybind_config(&keybinds).is_empty());
    keybinds.clear_action(KeyAction::Select);
    keybinds.clear_action(KeyAction::Exit);
    let diags = validate_keybind_config(&keybinds);
    assert_eq!(diags.len(), 2);
    assert!(matches!(&diags[0], Diagnostic::EssentialActionMissing(n) if n == "select"));
    assert!(matches!(&diags[1], Diagnostic::EssentialActionMissing(n) if n == "exit"));
}

#[test]
fn test_config_default() {
    let config = Config::default();
    assert_eq!(config.default_layout, None);
    assert_eq!(config.session_separator, ".");
    assert_eq!(
        config.keybinds.get_action(&key_with_ctrl('n')),
        Some(KeyAction::MoveDown)
    );
}

#[test]
fn test_unrecognized_entries_are_ignored() {
    let (config, diags) = Config::from_zellij_config(&raw(&[("no_such_entry", "ZZZZ")]));
    assert!(diags.is_empty());
    assert_eq!(
        config.keybinds.get_action(&key_from_bare(BaseKey::Up)),
        Some(KeyAction::MoveUp)
    );
}
