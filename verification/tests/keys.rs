use cosmic_toys::keys::{
    capture_key, format_combo, is_modifier_key, named_key_str, CaptureAction, KeyModifiers, NamedKey,
    PressedKey,
};
use cosmic_toys::shortcut::parse_combo;

fn mods(logo: bool, control: bool, alt: bool, shift: bool) -> KeyModifiers {
    KeyModifiers { logo, control, alt, shift }
}

#[test]
fn formats_modifiers_in_fixed_order() {
    let key = PressedKey::Character("c".to_string());
    assert_eq!(format_combo(mods(true, true, true, true), &key), "Super+Ctrl+Alt+Shift+C");
    assert_eq!(format_combo(mods(false, false, false, true), &key), "Shift+C");
    assert_eq!(format_combo(mods(false, false, false, false), &key), "C");
}

#[test]
fn character_keys_are_upper_cased() {
    let none = mods(false, false, false, false);
    assert_eq!(format_combo(none, &PressedKey::Character("ß".to_string())), "SS");
    assert_eq!(format_combo(none, &PressedKey::Character("é".to_string())), "É");
    assert_eq!(format_combo(none, &PressedKey::Character("1".to_string())), "1");
}

#[test]
fn space_is_named_space() {
    let key = PressedKey::Character(" ".to_string());
    assert_eq!(format_combo(mods(true, false, false, false), &key), "Super+space");
}

#[test]
fn named_keys_use_cosmic_names() {
    assert_eq!(named_key_str(NamedKey::ArrowDown), Some("Down"));
    assert_eq!(named_key_str(NamedKey::Enter), Some("Return"));
    assert_eq!(named_key_str(NamedKey::PrintScreen), Some("Print"));
    assert_eq!(named_key_str(NamedKey::F12), Some("F12"));
    assert_eq!(named_key_str(NamedKey::Other), None);
    assert_eq!(named_key_str(NamedKey::Shift), None);
    let key = PressedKey::Named(NamedKey::PageUp);
    assert_eq!(format_combo(mods(false, true, false, false), &key), "Ctrl+PageUp");
}

#[test]
fn unmappable_keys_format_empty() {
    let m = mods(true, false, false, false);
    assert_eq!(format_combo(m, &PressedKey::Unidentified), "");
    assert_eq!(format_combo(m, &PressedKey::Named(NamedKey::Other)), "");
}

#[test]
fn modifier_keys_are_recognised() {
    assert!(is_modifier_key(&PressedKey::Named(NamedKey::Shift)));
    assert!(is_modifier_key(&PressedKey::Named(NamedKey::CapsLock)));
    assert!(is_modifier_key(&PressedKey::Named(NamedKey::Symbol)));
    assert!(!is_modifier_key(&PressedKey::Named(NamedKey::Escape)));
    assert!(!is_modifier_key(&PressedKey::Character("a".to_string())));
    assert!(!is_modifier_key(&PressedKey::Unidentified));
}

#[test]
fn capture_decisions() {
    let none = mods(false, false, false, false);
    let sup = mods(true, false, false, false);
    assert!(matches!(capture_key(&PressedKey::Named(NamedKey::Alt), sup), CaptureAction::Wait));
    assert!(matches!(capture_key(&PressedKey::Named(NamedKey::Escape), none), CaptureAction::Cancel));
    match capture_key(&PressedKey::Named(NamedKey::Escape), sup) {
        CaptureAction::Bind(c) => assert_eq!(c, "Super+Escape"),
        other => panic!("unexpected {other:?}"),
    }
    assert!(matches!(capture_key(&PressedKey::Unidentified, sup), CaptureAction::Unsupported));
    match capture_key(&PressedKey::Character("x".to_string()), mods(true, false, false, true)) {
        CaptureAction::Bind(c) => assert_eq!(c, "Super+Shift+X"),
        other => panic!("unexpected {other:?}"),
    }
}

#[test]
fn captured_combo_parses_back() {
    let m = mods(true, true, false, true);
    let combo = format_combo(m, &PressedKey::Character("c".to_string()));
    let (ms, k) = parse_combo(&combo).unwrap();
    assert_eq!(ms, vec!["Super", "Ctrl", "Shift"]);
    assert_eq!(k, "c");
    let combo = format_combo(mods(false, false, true, false), &PressedKey::Named(NamedKey::F5));
    let (ms, k) = parse_combo(&combo).unwrap();
    assert_eq!(ms, vec!["Alt"]);
    assert_eq!(k, "F5");
}

#[test]
fn modifiers_empty() {
    assert!(mods(false, false, false, false).is_empty());
    assert!(!mods(false, false, true, false).is_empty());
}
