use torn::{
    Diagnostic, DiagnosticReporter, DiagnosticSeverity, Key, KeyChord, KeyCode, KeyEvent,
    Modifiers, NamedKey, PointerButtons, WidgetId,
};

#[test]
fn generation_prevents_slot_reuse_from_comparing_equal() {
    assert_ne!(WidgetId::new(3, 0), WidgetId::new(3, 1));
}

#[test]
fn widget_id_exposes_its_components() {
    let id = WidgetId::new(7, 2);
    assert_eq!(id.index(), 7);
    assert_eq!(id.generation(), 2);
}

#[test]
fn modifier_and_button_sets_support_composition() {
    let modifiers = Modifiers::control() | Modifiers::shift();
    let buttons = PointerButtons::primary() | PointerButtons::secondary();

    assert!(modifiers.contains(Modifiers::control()));
    assert!(!modifiers.contains(Modifiers::alt()));
    assert!(buttons.contains(PointerButtons::primary()));
    assert!(!buttons.contains(PointerButtons::auxiliary()));
}

#[test]
fn button_sets_expose_bits_and_set_operations() {
    let buttons = PointerButtons::primary() | PointerButtons::auxiliary();
    assert_eq!(buttons.bits(), 3);
    assert!(!buttons.is_empty());
    assert!(PointerButtons::none().is_empty());
    assert_eq!((buttons & PointerButtons::auxiliary()).bits(), 2);
    assert_eq!((!PointerButtons::none()).bits(), u16::MAX);
    assert!(buttons.contains(PointerButtons::none()));
}

#[test]
fn vec_reporter_collects_owned_diagnostics() {
    let mut diagnostics = Vec::new();
    diagnostics.report(&Diagnostic::error("test".to_string(), "broken".to_string()));

    assert_eq!(diagnostics.len(), 1);
    assert_eq!(diagnostics[0].severity(), DiagnosticSeverity::Error);
    assert_eq!(diagnostics[0].component(), "test");
    assert_eq!(diagnostics[0].message(), "broken");
}

#[test]
fn diagnostics_describe_themselves() {
    let warning = Diagnostic::warning("torn-ui".to_string(), "slow frame".to_string());
    assert_eq!(warning.severity(), DiagnosticSeverity::Warning);
    assert_eq!(warning.describe(), "warning [torn-ui]: slow frame");
    let error = Diagnostic::new(
        DiagnosticSeverity::Error,
        "torn-software".to_string(),
        "bad list".to_string(),
    );
    assert_eq!(error.describe(), "error [torn-software]: bad list");
    assert!(DiagnosticSeverity::Warning < DiagnosticSeverity::Error);
}

fn key_event(key: Key, modifiers: Modifiers) -> KeyEvent {
    KeyEvent { key, code: KeyCode::Unidentified, repeat: false, modifiers }
}

#[test]
fn key_chords_match_exact_modifiers() {
    let chord = KeyChord::new(Key::Character("s".to_string()), Modifiers::control());
    assert!(chord.matches(&key_event(Key::Character("s".to_string()), Modifiers::control())));
    assert!(!chord.matches(&key_event(
        Key::Character("s".to_string()),
        Modifiers::control() | Modifiers::shift()
    )));
    assert!(!chord.matches(&key_event(Key::Character("x".to_string()), Modifiers::control())));
    assert!(!chord.matches(&key_event(Key::Named(NamedKey::Tab), Modifiers::control())));
    let tab = KeyChord::new(Key::Named(NamedKey::Tab), Modifiers::none());
    assert!(tab.matches(&key_event(Key::Named(NamedKey::Tab), Modifiers::none())));
}
