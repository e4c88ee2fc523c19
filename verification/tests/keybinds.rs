use session_keybinds::keys::{key_from_bare, key_with_ctrl, BaseKey, KeyRecord, Modifiers};
use session_keybinds::keybinds::{KeyAction, KeybindManager};
use session_keybinds::parse::{parse_key_string, parse_key_strings, ParseError};
use session_keybinds::display::format_key_for_display;

#[test]
fn test_default_keybinds() {
    let manager = KeybindManager::new();

    // Test navigation
    assert_eq!(
        manager.get_action(&key_from_bare(BaseKey::Up)),
        Some(KeyAction::MoveUp)
    );
    assert_eq!(
        manager.get_action(&key_with_ctrl('p')),
        Some(KeyAction::MoveUp)
    );
    assert_eq!(
        manager.get_action(&key_from_bare(BaseKey::Down)),
        Some(KeyAction::MoveDown)
    );
    assert_eq!(
        manager.get_action(&key_with_ctrl('n')),
        Some(KeyAction::MoveDown)
    );

    // Test actions
    assert_eq!(
        manager.get_action(&key_from_bare(BaseKey::Enter)),
        Some(KeyAction::Select)
    );
    assert_eq!(
        manager.get_action(&key_from_bare(BaseKey::Delete)),
        Some(KeyAction::DeleteSession)
    );
}

#[test]
fn test_character_input() {
    let manager = KeybindManager::new();

    let key = KeyRecord {
        base: BaseKey::Char('a'),
        mods: Modifiers { ctrl: false, alt: false, shift: false, super_key: false },
    };

    assert_eq!(
        manager.get_action(&key),
        Some(KeyAction::CharacterInput('a'))
    );
}

#[test]
fn test_key_formatting() {
    assert_eq!(
        format_key_for_display(&key_from_bare(BaseKey::Up)),
        "↑"
    );
    assert_eq!(
        format_key_for_display(&key_with_ctrl('p')),
        "Ctrl+P"
    );
    assert_eq!(
        format_key_for_display(&key_from_bare(BaseKey::Enter)),
        "Enter"
    );
}

#[test]
fn test_key_parsing() {
    // Test simple keys
    assert_eq!(
        parse_key_string("Enter").unwrap(),
        key_from_bare(BaseKey::Enter)
    );
    assert_eq!(
        parse_key_string("Esc").unwrap(),
        key_from_bare(BaseKey::Esc)
    );
    assert_eq!(
        parse_key_string("Up").unwrap(),
        key_from_bare(BaseKey::Up)
    );

    // Test character keys
    assert_eq!(
        parse_key_string("a").unwrap(),
        key_from_bare(BaseKey::Char('a'))
    );
    assert_eq!(
        parse_key_string("A").unwrap(),
        key_from_bare(BaseKey::Char('a')) // Should be lowercase
    );

    // Test keys with modifiers
    assert_eq!(
        parse_key_string("Ctrl+p").unwrap(),
        key_with_ctrl('p')
    );
    assert_eq!(
        parse_key_string("ctrl+P").unwrap(), // Case insensitive
        key_with_ctrl('p')
    );

    // Test multiple modifiers
    let key = parse_key_string("Ctrl+Alt+a").unwrap();
    assert_eq!(key.base, BaseKey::Char('a'));
    assert!(key.mods.ctrl);
    assert!(key.mods.alt);

    // Test invalid keys
    assert!(parse_key_string("").is_err());
    assert!(parse_key_string("InvalidKey").is_err());
    assert!(parse_key_string("Ctrl+InvalidKey").is_err());
}

#[test]
fn test_multiple_key_parsing() {
    let keys = parse_key_strings("Up Ctrl+p").unwrap();
    assert_eq!(keys.len(), 2);
    assert_eq!(keys[0], key_from_bare(BaseKey::Up));
    assert_eq!(keys[1], key_with_ctrl('p'));

    // Test empty string
    assert!(parse_key_strings("").is_err());
    assert!(parse_key_strings("   ").is_err());
}

#[test]
fn test_parse_error_variants() {
    assert!(matches!(parse_key_string(""), Err(ParseError::EmptySpec)));
    assert!(matches!(parse_key_string("   "), Err(ParseError::EmptySpec)));
    match parse_key_string("Hyper+a") {
        Err(ParseError::UnknownModifier(m)) => assert_eq!(m, "Hyper"),
        other => panic!("expected UnknownModifier, got {:?}", other),
    }
    match parse_key_string("ZZZZ") {
        Err(ParseError::UnknownKey(k)) => assert_eq!(k, "ZZZZ"),
        other => panic!("expected UnknownKey, got {:?}", other),
    }
    match parse_key_string("é") {
        Err(ParseError::UnsupportedChar(c)) => assert_eq!(c, 'é'),
        other => panic!("expected UnsupportedChar, got {:?}", other),
    }
    assert!(matches!(
        parse_key_strings("   "),
        Err(ParseError::NoKeysSpecified)
    ));
    assert!(matches!(
        parse_key_string("Ctrl+ZZZZ"),
        Err(ParseError::UnknownKey(_))
    ));
}

#[test]
fn test_named_key_display_round_trip() {
    // The display form of a vocabulary-named key re-parses to the same key.
    for base in [
        BaseKey::Enter,
        BaseKey::Esc,
        BaseKey::Backspace,
        BaseKey::Delete,
        BaseKey::Tab,
        BaseKey::Home,
        BaseKey::End,
        BaseKey::PageUp,
        BaseKey::PageDown,
        BaseKey::Insert,
    ] {
        let key = key_from_bare(base);
        let shown = format_key_for_display(&key);
        assert_eq!(parse_key_string(&shown).unwrap(), key);

        let ctrl_alt = KeyRecord {
            base,
            mods: Modifiers { ctrl: true, alt: true, shift: false, super_key: false },
        };
        let shown = format_key_for_display(&ctrl_alt);
        assert_eq!(parse_key_string(&shown).unwrap(), ctrl_alt);
    }
}

#[test]
fn test_parse_named_vocabulary() {
    assert_eq!(parse_key_string("space").unwrap(), key_from_bare(BaseKey::Char(' ')));
    assert_eq!(parse_key_string("del").unwrap(), key_from_bare(BaseKey::Delete));
    assert_eq!(parse_key_string("escape").unwrap(), key_from_bare(BaseKey::Esc));
    assert_eq!(parse_key_string("PageUp").unwrap(), key_from_bare(BaseKey::PageUp));
    assert_eq!(parse_key_string("f1").unwrap(), key_from_bare(BaseKey::F(1)));
    assert_eq!(parse_key_string("F12").unwrap(), key_from_bare(BaseKey::F(12)));
    assert_eq!(parse_key_string("  Enter  ").unwrap(), key_from_bare(BaseKey::Enter));
}

#[test]
fn test_unbound_modified_key_resolves_to_nothing() {
    let manager = KeybindManager::new();
    assert_eq!(manager.get_action(&key_with_ctrl('x')), None);
    // Newline never falls back to character input.
    assert_eq!(manager.get_action(&key_from_bare(BaseKey::Char('\n'))), None);
}

#[test]
fn test_set_keys_empty_unbinds() {
    let mut manager = KeybindManager::new();
    manager.set_action_keys(KeyAction::MoveUp, Vec::new());
    assert!(manager.get_keys_for_action(KeyAction::MoveUp).is_empty());
    // Up was bound only to MoveUp: it now resolves to nothing.
    assert_eq!(manager.get_action(&key_from_bare(BaseKey::Up)), None);
    // Ctrl+p was bound only to MoveUp: no fallback for a modified key.
    assert_eq!(manager.get_action(&key_with_ctrl('p')), None);
    assert_eq!(manager.format_keys_for_action(KeyAction::MoveUp), "None");
}

#[test]
fn test_set_keys_replaces_and_first_match_wins() {
    let mut manager = KeybindManager::new();
    manager.set_action_keys(
        KeyAction::MoveUp,
        vec![key_from_bare(BaseKey::Char('j')), key_with_ctrl('j')],
    );
    let keys = manager.get_keys_for_action(KeyAction::MoveUp);
    assert_eq!(keys.len(), 2);
    assert_eq!(keys[0], key_from_bare(BaseKey::Char('j')));
    assert_eq!(keys[1], key_with_ctrl('j'));
    assert_eq!(
        manager.get_action(&key_from_bare(BaseKey::Char('j'))),
        Some(KeyAction::MoveUp)
    );
    // Enter is bound to Select before Confirm: first match wins.
    assert_eq!(
        manager.get_action(&key_from_bare(BaseKey::Enter)),
        Some(KeyAction::Select)
    );
}

#[test]
fn test_format_keys_for_action_joins() {
    let manager = KeybindManager::new();
    assert_eq!(manager.format_keys_for_action(KeyAction::MoveUp), "↑/Ctrl+P");
    assert_eq!(manager.format_keys_for_action(KeyAction::Select), "Enter");
    assert_eq!(
        manager.format_keys_for_action(KeyAction::CharacterInput('q')),
        "None"
    );
}

#[test]
fn test_format_function_and_named_keys() {
    assert_eq!(format_key_for_display(&key_from_bare(BaseKey::F(3))), "F(3)");
    assert_eq!(format_key_for_display(&key_from_bare(BaseKey::F(12))), "F(12)");
    assert_eq!(format_key_for_display(&key_from_bare(BaseKey::Left)), "←");
    assert_eq!(format_key_for_display(&key_from_bare(BaseKey::Right)), "→");
    assert_eq!(format_key_for_display(&key_from_bare(BaseKey::Down)), "↓");
    assert_eq!(format_key_for_display(&key_from_bare(BaseKey::PageDown)), "PageDown");
    let all_mods = KeyRecord {
        base: BaseKey::Char('x'),
        mods: Modifiers { ctrl: true, alt: true, shift: true, super_key: true },
    };
    assert_eq!(format_key_for_display(&all_mods), "Ctrl+Alt+Shift+Super+X");
}

#[test]
fn test_sequence_parsing_handles_mixed_whitespace() {
    let keys = parse_key_strings("\tUp\n  Ctrl+p \u{a0} down ").unwrap();
    assert_eq!(keys.len(), 3);
    assert_eq!(keys[0], key_from_bare(BaseKey::Up));
    assert_eq!(keys[1], key_with_ctrl('p'));
    assert_eq!(keys[2], key_from_bare(BaseKey::Down));
}

#[test]
fn test_sequence_parsing_fails_on_first_bad_token() {
    match parse_key_strings("Up ZZZZ Down") {
        Err(ParseError::UnknownKey(k)) => assert_eq!(k, "ZZZZ"),
        other => panic!("expected UnknownKey, got {:?}", other),
    }
}
