use cosmic_toys::shortcut::{
    current_binding, entry_captures, inject_before_close, parse_combo, shortcut_entry, strip_entries,
    set_binding, clear,
};

#[test]
fn parses_super_shift_letter() {
    let (m, k) = parse_combo("Super+Shift+C").unwrap();
    assert_eq!(m, vec!["Super".to_string(), "Shift".to_string()]);
    assert_eq!(k, "c");
}

#[test]
fn rejects_unknown_modifier() {
    assert!(parse_combo("Hyper+C").is_err());
}

#[test]
fn deduplicates_modifiers() {
    let (m, _) = parse_combo("Ctrl+Ctrl+X").unwrap();
    assert_eq!(m, vec!["Ctrl".to_string()]);
}

#[test]
fn matches_compact_format() {
    let text = "{\n    (modifiers: [Super, Shift], key: \"c\"): Spawn(\"/bin/cosmic-toysd --pick\"),\n}";
    let cap = entry_captures(text).unwrap();
    assert_eq!(cap[2].as_deref(), Some("c"));
}

#[test]
fn parse_combo_reports_empty_input() {
    assert_eq!(parse_combo(""), Err("Empty shortcut".to_string()));
    assert_eq!(parse_combo(" + + "), Err("Empty shortcut".to_string()));
}

#[test]
fn parse_combo_names_the_unknown_modifier_in_lower_case() {
    assert_eq!(parse_combo("Super+Hyper+C"), Err("Unknown modifier: hyper".to_string()));
}

#[test]
fn parse_combo_canonicalises_aliases_and_trims() {
    let (m, k) = parse_combo(" win + control + ALT + shift + F1 ").unwrap();
    assert_eq!(m, vec!["Super", "Ctrl", "Alt", "Shift"]);
    assert_eq!(k, "F1");
    let (m, k) = parse_combo("Meta+Logo+Super+Down").unwrap();
    assert_eq!(m, vec!["Super"]);
    assert_eq!(k, "Down");
}

#[test]
fn parse_combo_key_only() {
    let (m, k) = parse_combo("Q").unwrap();
    assert!(m.is_empty());
    assert_eq!(k, "q");
    // A key of more than one byte keeps its case.
    let (_, k) = parse_combo("Super+É").unwrap();
    assert_eq!(k, "É");
}

#[test]
fn multi_line_entry_is_matched_and_read_back() {
    let text = "{\n    (\n        modifiers: [\n            Super,\n            Shift,\n        ],\n        key: \"c\",\n    ): Spawn(\"cosmic-toysd --pick\"),\n}";
    let cap = entry_captures(text).unwrap();
    assert_eq!(cap[2].as_deref(), Some("c"));
    assert_eq!(current_binding(text), Some("Super+Shift+C".to_string()));
}

#[test]
fn other_entries_are_not_ours() {
    let text = "{\n    (modifiers: [Super], key: \"t\"): Spawn(\"cosmic-term\"),\n}";
    assert!(entry_captures(text).is_none());
    assert_eq!(current_binding(text), None);
    assert_eq!(strip_entries(text), text);
    assert_eq!(clear(text), None);
}

#[test]
fn strip_entries_removes_only_our_entry() {
    let text = "{\n    (modifiers: [Super], key: \"t\"): Spawn(\"cosmic-term\"),\n    (modifiers: [Super, Shift], key: \"c\"): Spawn(\"cosmic-toysd --pick\"),\n}";
    let stripped = strip_entries(text);
    assert_eq!(
        stripped,
        "{\n    (modifiers: [Super], key: \"t\"): Spawn(\"cosmic-term\"),\n    \n}"
    );
    assert_eq!(clear(text), Some(stripped));
}

#[test]
fn inject_before_close_adds_comma_and_newline() {
    let out = inject_before_close("{\n    a  \n}", "X\n").unwrap();
    assert_eq!(out, "{\n    a,\nX\n}");
    let out = inject_before_close("{\n}", "X\n").unwrap();
    assert_eq!(out, "{\nX\n}");
    let out = inject_before_close("{ a, }", "X\n").unwrap();
    assert_eq!(out, "{ a,\nX\n}");
    assert_eq!(inject_before_close("no brace", "X"), None);
}

#[test]
fn shortcut_entry_layout() {
    let e = shortcut_entry(&vec!["Super".to_string(), "Shift".to_string()], &"c".to_string());
    assert_eq!(
        e,
        "    (\n        modifiers: [\n            Super,\n            Shift,\n        ],\n        key: \"c\",\n    ): Spawn(\"cosmic-toysd --pick\"),\n"
    );
}

#[test]
fn with_binding_replaces_our_entry() {
    let original = "{\n    (modifiers: [Super], key: \"t\"): Spawn(\"cosmic-term\"),\n    (modifiers: [Ctrl], key: \"p\"): Spawn(\"cosmic-toysd --pick\"),\n}";
    let updated = set_binding(original, "Super+Shift+C").unwrap();
    assert_eq!(current_binding(&updated), Some("Super+Shift+C".to_string()));
    assert!(updated.contains("Spawn(\"cosmic-term\")"));
    assert!(updated.ends_with('}'));
    assert_eq!(updated.matches("cosmic-toysd").count(), 1);
}

#[test]
fn with_binding_errors() {
    assert_eq!(
        set_binding("{\n}", "Hyper+C"),
        Err("Unknown modifier: hyper".to_string())
    );
    assert_eq!(
        set_binding("nothing here", "Super+C"),
        Err("Shortcuts file is malformed: no closing `}` found".to_string())
    );
}

#[test]
fn canonical_form_reparses_to_the_same_result() {
    for input in ["win+shift+ super + c", "Ctrl+Alt+F1", " q ", "Meta+Control+Down"] {
        let (m, k) = parse_combo(input).unwrap();
        let mut parts = m.clone();
        parts.push(k.clone());
        assert_eq!(parse_combo(&parts.join("+")), Ok((m, k)));
    }
}
