use cosmic_toys::history::{parse_ron_strings, push, serialize, LIMIT};

#[test]
fn parses_typical_cosmic_config_format() {
    let input = "[\n    \"#FFEFCD\",\n    \"#160008\",\n]";
    let parsed = parse_ron_strings(input);
    assert_eq!(parsed, vec!["#FFEFCD", "#160008"]);
}

#[test]
fn parse_skips_empty_strings_and_keeps_unterminated_tail() {
    assert_eq!(parse_ron_strings("[\"\", \"#010203\"]"), vec!["#010203"]);
    assert_eq!(parse_ron_strings("[\"#AA"), vec!["#AA"]);
    assert!(parse_ron_strings("no strings at all").is_empty());
    assert!(parse_ron_strings("").is_empty());
}

#[test]
fn serialize_layout() {
    let list = vec!["#FFEFCD".to_string(), "#160008".to_string()];
    assert_eq!(serialize(&list), "[\n    \"#FFEFCD\",\n    \"#160008\",\n]");
    assert_eq!(serialize(&Vec::new()), "[\n]");
}

#[test]
fn serialize_then_parse_round_trips() {
    let list = vec!["#000000".to_string(), "#FFFFFF".to_string(), "#123ABC".to_string()];
    assert_eq!(parse_ron_strings(&serialize(&list)), list);
}

#[test]
fn push_puts_newest_first() {
    let mut list = vec!["#111111".to_string()];
    push(&mut list, "#222222");
    assert_eq!(list, vec!["#222222", "#111111"]);
    // Duplicates are kept: the history records every pick.
    push(&mut list, "#111111");
    assert_eq!(list, vec!["#111111", "#222222", "#111111"]);
}

#[test]
fn push_caps_the_list() {
    let mut list: Vec<String> = (0..LIMIT).map(|i| format!("#{i:06X}")).collect();
    push(&mut list, "#ABCDEF");
    assert_eq!(list.len(), LIMIT);
    assert_eq!(list[0], "#ABCDEF");
    assert_eq!(list[1], "#000000");
    assert_eq!(list[LIMIT - 1], format!("#{:06X}", LIMIT - 2));
}

#[test]
fn load_after_push_sees_the_pick() {
    let text = serialize(&vec!["#010101".to_string()]);
    let mut list = parse_ron_strings(&text);
    push(&mut list, "#020202");
    let reloaded = parse_ron_strings(&serialize(&list));
    assert_eq!(reloaded, vec!["#020202", "#010101"]);
}
