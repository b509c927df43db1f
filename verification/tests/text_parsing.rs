use shopbot::textparse::{capitalize_first, clean_item_lines, items_from_text,
    normalize_for_match, parse_item_line, parse_items, parse_items_with_fallback,
    parse_voice_items, split_lines};

#[test]
fn test_parse_item_line() {
    // Normal line
    assert_eq!(parse_item_line("Milk"), Some("Milk".to_string()));
    // Leading emoji
    assert_eq!(parse_item_line("☑️ Apples"), Some("Apples".to_string()));
    assert_eq!(parse_item_line("⬜Bread"), Some("Bread".to_string()));
    // Extra spaces
    assert_eq!(parse_item_line("  Carrots  "), Some("Carrots".to_string()));
    // Archived marker
    assert_eq!(parse_item_line("--- Archived List ---"), None);
    // Empty line when only an emoji and spaces
    assert_eq!(parse_item_line("☑️   "), None);
    // Bullet prefix
    assert_eq!(parse_item_line("• Milk"), Some("Milk".to_string()));
}

#[test]
fn parse_item_line_ignores_archived_header() {
    assert!(parse_item_line("--- Archived List ---").is_none());
}

#[test]
fn parse_item_line_trims_and_returns_text() {
    assert_eq!(parse_item_line("✅ Milk  "), Some("Milk".to_string()));
}

#[test]
fn parse_item_line_drops_removal_header() {
    assert_eq!(parse_item_line("🗑 Removed via voice request:"), None);
}

#[test]
fn test_parse_items() {
    let items = parse_items("milk, eggs and bread");
    assert_eq!(items, vec!["milk", "eggs", "bread"]);

    let single = parse_items("just apples");
    assert_eq!(single, vec!["just apples"]);

    let numbers = parse_items("one milk, 2 eggs");
    assert_eq!(numbers, vec!["one milk", "2 eggs"]);
}

#[test]
fn parse_items_drops_empty_segments() {
    assert_eq!(parse_items(""), Vec::<String>::new());
    assert_eq!(parse_items(",,  ,"), Vec::<String>::new());
    assert_eq!(parse_items("a\nb\n"), vec!["a", "b"]);
}

#[test]
fn parse_voice_items_matches_parse_items() {
    assert_eq!(parse_voice_items("tea and sugar"), vec!["tea", "sugar"]);
}

#[test]
fn parse_items_with_fallback_uses_gpt_success() {
    let result = parse_items_with_fallback("ignored", Ok(vec!["Item".to_string()]), "test");
    assert_eq!(result, vec!["Item".to_string()]);
}

#[test]
fn parse_items_with_fallback_uses_local_parser_on_error() {
    let result = parse_items_with_fallback("a, b and c", Err(anyhow::Error::msg("nope")), "test");
    assert_eq!(
        result,
        vec!["a".to_string(), "b".to_string(), "c".to_string()]
    );
}

#[test]
fn capitalize_accented() {
    assert_eq!(capitalize_first("éclair"), "Éclair");
}

#[test]
fn capitalize_with_emoji() {
    assert_eq!(capitalize_first("🍏 apple"), "🍏 apple");
}

#[test]
fn capitalize_empty_is_empty() {
    assert_eq!(capitalize_first(""), "");
}

#[test]
fn test_normalize_for_match() {
    assert_eq!(normalize_for_match("1 hammer"), "hammer");
    assert_eq!(normalize_for_match("   42  nails"), "nails");
    assert_eq!(normalize_for_match("Hammer"), "hammer");
}

#[test]
fn clean_item_lines_filters_and_cleans() {
    let raw = vec![
        "✅ Milk".to_string(),
        "   ".to_string(),
        "--- Archived List ---".to_string(),
        "Eggs".to_string(),
    ];
    assert_eq!(clean_item_lines(&raw), vec!["Milk".to_string(), "Eggs".to_string()]);
}

#[test]
fn split_lines_matches_std_lines() {
    assert_eq!(split_lines(""), Vec::<String>::new());
    assert_eq!(split_lines("a\nb"), vec!["a", "b"]);
    assert_eq!(split_lines("a\nb\n"), vec!["a", "b"]);
    assert_eq!(split_lines("a\r\nb"), vec!["a", "b"]);
    assert_eq!(split_lines("a\n\nb"), vec!["a", "", "b"]);
}

#[test]
fn items_from_text_cleans_each_line() {
    let items = items_from_text("Milk\n✅ Eggs\n\n--- Archived List ---\nBread");
    assert_eq!(items, vec!["Milk", "Eggs", "Bread"]);
}
