use session_keybinds::session::{SessionAction, SessionManager};

fn manager_with(names: &[&str]) -> SessionManager {
    let mut m = SessionManager::new();
    m.update_sessions(names.iter().map(|n| n.to_string()).collect());
    m
}

#[test]
fn test_resolve_free_base_name() {
    let m = manager_with(&[]);
    assert_eq!(m.generate_incremented_name("work", "."), "work");
}

#[test]
fn test_resolve_taken_base_name() {
    let m = manager_with(&["work"]);
    assert_eq!(m.generate_incremented_name("work", "."), "work.2");
}

#[test]
fn test_resolve_taken_increment() {
    let m = manager_with(&["work", "work.2"]);
    assert_eq!(m.generate_incremented_name("work", "."), "work.3");
}

#[test]
fn test_resolve_skips_to_first_free() {
    let m = manager_with(&["work", "work.2", "work.3", "work.5"]);
    assert_eq!(m.generate_incremented_name("work", "."), "work.4");
}

#[test]
fn test_resolve_with_empty_separator() {
    let m = manager_with(&["work"]);
    assert_eq!(m.generate_incremented_name("work", ""), "work2");
}

#[test]
fn test_resolve_exhaustion_falls_back_to_random_suffix() {
    let mut names: Vec<String> = vec!["work".to_string()];
    for n in 2..=1000u32 {
        names.push(format!("work.{}", n));
    }
    let mut m = SessionManager::new();
    m.update_sessions(names);
    let resolved = m.generate_incremented_name("work", ".");
    assert_eq!(resolved.chars().count(), "work.".chars().count() + 8);
    assert!(resolved.starts_with("work."));
    assert_ne!(resolved, "work.");
}

#[test]
fn test_find_existing_exact_match() {
    let m = manager_with(&["other", "work"]);
    assert_eq!(
        m.find_existing_session_for_directory("work", "."),
        Some("work".to_string())
    );
}

#[test]
fn test_find_existing_incremented_match() {
    let m = manager_with(&["work.7"]);
    assert_eq!(
        m.find_existing_session_for_directory("work", "."),
        Some("work.7".to_string())
    );
}

#[test]
fn test_find_existing_rejects_non_numeric_suffix() {
    let m = manager_with(&["work.abc"]);
    assert_eq!(m.find_existing_session_for_directory("work", "."), None);
}

#[test]
fn test_find_existing_rejects_partial_numeric_suffix() {
    let m = manager_with(&["work.7x", "work.", "work.-3", "workX7"]);
    assert_eq!(m.find_existing_session_for_directory("work", "."), None);
}

#[test]
fn test_find_existing_first_incremented_in_order() {
    let m = manager_with(&["work.9", "work.2"]);
    assert_eq!(
        m.find_existing_session_for_directory("work", "."),
        Some("work.9".to_string())
    );
}

#[test]
fn test_find_existing_accepts_huge_numeric_suffix() {
    // An all-digit suffix qualifies whatever its magnitude.
    let m = manager_with(&["work.99999999999999999999"]);
    assert_eq!(
        m.find_existing_session_for_directory("work", "."),
        Some("work.99999999999999999999".to_string())
    );
}

#[test]
fn test_deletion_confirmation_flow() {
    let mut m = manager_with(&["work"]);
    assert_eq!(m.pending_deletion(), None);
    m.start_deletion("work".to_string());
    assert_eq!(m.pending_deletion(), Some(&"work".to_string()));
    match m.confirm_deletion() {
        Some(SessionAction::Kill(name)) => assert_eq!(name, "work"),
        other => panic!("expected a kill command, got {:?}", other),
    }
    assert_eq!(m.pending_deletion(), None);
    // Confirming with nothing pending yields no command.
    assert!(m.confirm_deletion().is_none());
}

#[test]
fn test_deletion_cancel() {
    let mut m = manager_with(&[]);
    m.start_deletion("scratch".to_string());
    m.cancel_deletion();
    assert_eq!(m.pending_deletion(), None);
    assert!(m.confirm_deletion().is_none());
}

#[test]
fn test_update_sessions_replaces() {
    let mut m = manager_with(&["a", "b"]);
    assert_eq!(m.sessions().len(), 2);
    m.update_sessions(vec!["c".to_string()]);
    assert_eq!(m.sessions(), &vec!["c".to_string()]);
}
