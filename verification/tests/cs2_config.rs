use voidframe::cs2_config::{parse_video_settings, rewrite_video_settings, VideoSettings};

fn sample_video_config() -> &'static str {
    "\"VideoConfig\"\n{\n\t\"setting.defaultres\"\t\t\"1920\"\n\t\"setting.fullscreen\"\t\t\"1\"\n}\n"
}

fn settings(pairs: &[(&str, &str)]) -> VideoSettings {
    let mut s = VideoSettings::new();
    for (k, v) in pairs {
        s.insert(k, v);
    }
    s
}

#[test]
fn parse_video_settings_reads_every_quoted_kv_line_into_a_map() {
    let map = parse_video_settings(sample_video_config());
    assert_eq!(map.len(), 2);
    assert_eq!(map.get("setting.defaultres").as_deref(), Some("1920"));
    assert_eq!(map.get("setting.fullscreen").as_deref(), Some("1"));
}

#[test]
fn parse_video_settings_ignores_non_kv_lines_like_the_block_header_and_braces() {
    let map = parse_video_settings(sample_video_config());
    assert!(!map.contains_key("VideoConfig"));
}

#[test]
fn parse_video_settings_of_empty_text_is_an_empty_map() {
    assert!(parse_video_settings("").is_empty());
}

#[test]
fn rewrite_video_settings_changes_only_the_given_keys() {
    let original = sample_video_config();
    let changes = settings(&[("setting.fullscreen", "0")]);
    let rewritten = rewrite_video_settings(original, &changes);
    assert!(rewritten.contains("\"setting.defaultres\"\t\t\"1920\""));
    assert!(rewritten.contains("\"setting.fullscreen\"\t\t\"0\""));
    assert!(!rewritten.contains("\"setting.fullscreen\"\t\t\"1\""));
}

#[test]
fn rewrite_video_settings_preserves_block_structure_when_changing_an_existing_key() {
    let original = sample_video_config();
    let changes = settings(&[("setting.fullscreen", "0")]);
    let rewritten = rewrite_video_settings(original, &changes);
    assert_eq!(
        rewritten,
        "\"VideoConfig\"\n{\n\t\"setting.defaultres\"\t\t\"1920\"\n\t\"setting.fullscreen\"\t\t\"0\"\n}\n"
    );
}

#[test]
fn rewrite_video_settings_inserts_a_new_key_inside_the_block_not_after_the_closing_brace() {
    let original = sample_video_config();
    let changes = settings(&[("setting.new_key", "42")]);
    let rewritten = rewrite_video_settings(original, &changes);
    let new_key_pos = rewritten.find("\"setting.new_key\"").expect(&rewritten);
    let last_existing_pos = rewritten.find("\"setting.fullscreen\"").unwrap();
    let close_brace_pos = rewritten.rfind('}').unwrap();
    assert!(last_existing_pos < new_key_pos && new_key_pos < close_brace_pos, "{rewritten}");
}

#[test]
fn rewrite_video_settings_preserves_line_order_for_untouched_lines() {
    let original = "a 1\nb 2\nc 3\n";
    let changes = VideoSettings::new();
    assert_eq!(rewrite_video_settings(original, &changes), original);
}

#[test]
fn rewrite_video_settings_preserves_crlf_line_endings_on_untouched_lines() {
    let original = "\"setting.defaultres\"\t\t\"1920\"\r\n\"setting.fullscreen\"\t\t\"1\"\r\n";
    let changes = settings(&[("setting.fullscreen", "0")]);
    let rewritten = rewrite_video_settings(original, &changes);
    assert_eq!(rewritten, "\"setting.defaultres\"\t\t\"1920\"\r\n\"setting.fullscreen\"\t\t\"0\"\r\n");
}

#[test]
fn rewrite_video_settings_does_not_add_a_trailing_newline_that_was_not_there() {
    let original = "\"setting.defaultres\"\t\t\"1920\"\n\"setting.fullscreen\"\t\t\"1\"";
    let changes = settings(&[("setting.defaultres", "1280")]);
    let rewritten = rewrite_video_settings(original, &changes);
    assert_eq!(rewritten, "\"setting.defaultres\"\t\t\"1280\"\n\"setting.fullscreen\"\t\t\"1\"");
}

#[test]
fn rewrite_video_settings_rewrites_every_occurrence_of_a_duplicate_key() {
    let original = "\"setting.fullscreen\"\t\t\"1\"\n\"setting.fullscreen\"\t\t\"1\"\n";
    let changes = settings(&[("setting.fullscreen", "0")]);
    let rewritten = rewrite_video_settings(original, &changes);
    assert_eq!(rewritten, "\"setting.fullscreen\"\t\t\"0\"\n\"setting.fullscreen\"\t\t\"0\"\n");
}

#[test]
fn new_keys_are_appended_in_key_order_when_the_file_has_no_setting_line() {
    let changes = settings(&[("b", "2"), ("a", "1")]);
    assert_eq!(rewrite_video_settings("x\n", &changes), "x\n\t\"a\"\t\t\"1\"\n\t\"b\"\t\t\"2\"\n");
}

#[test]
fn a_later_line_wins_when_a_key_repeats() {
    let map = parse_video_settings("\"k\" \"1\"\n\"k\" \"2\"\n");
    assert_eq!(map.len(), 1);
    assert_eq!(map.get("k").as_deref(), Some("2"));
}

#[test]
fn trailing_garbage_after_the_value_is_not_a_setting_line() {
    assert!(parse_video_settings("\"k\" \"1\" x\n").is_empty());
    assert_eq!(parse_video_settings("  \"k\"\t\"\"  \r\n").get("k").as_deref(), Some(""));
}

#[test]
fn reading_back_a_rewrite_gives_the_new_values() {
    let changes = settings(&[("setting.fullscreen", "0"), ("setting.new", "7")]);
    let rewritten = rewrite_video_settings(sample_video_config(), &changes);
    let back = parse_video_settings(&rewritten);
    assert_eq!(back.get("setting.fullscreen").as_deref(), Some("0"));
    assert_eq!(back.get("setting.new").as_deref(), Some("7"));
    assert_eq!(back.get("setting.defaultres").as_deref(), Some("1920"));
}

#[test]
fn settings_insert_replaces_and_keeps_keys_in_order() {
    let mut s = settings(&[("b", "2"), ("a", "1")]);
    s.insert("a", "3");
    assert_eq!(s.len(), 2);
    assert_eq!(s.entry(0), ("a".to_string(), "3".to_string()));
    assert_eq!(s.entry(1), ("b".to_string(), "2".to_string()));
}

#[test]
fn a_new_key_after_an_unterminated_last_line_goes_on_a_line_of_its_own() {
    let original = "\"setting.defaultres\"\t\t\"1920\"";
    let mut changes = VideoSettings::new();
    changes.insert("setting.new_key", "42");
    let rewritten = rewrite_video_settings(original, &changes);
    assert_eq!(rewritten, "\"setting.defaultres\"\t\t\"1920\"\n\t\"setting.new_key\"\t\t\"42\"\n");
    let back = parse_video_settings(&rewritten);
    assert_eq!(back.get("setting.defaultres"), Some("1920".to_owned()));
    assert_eq!(back.get("setting.new_key"), Some("42".to_owned()));
    let crlf = rewrite_video_settings("\"a\"\t\t\"1\"\r", &changes);
    assert_eq!(crlf, "\"a\"\t\t\"1\"\r\r\n\t\"setting.new_key\"\t\t\"42\"\n");
}

#[test]
fn reading_back_a_rewrite_of_text_without_a_final_line_break() {
    let text = "\"a\"\t\t\"1\"\r\n\"b\"\t\t\"2\"";
    let changes = settings(&[("c", "3"), ("a", "9")]);
    let back = parse_video_settings(&rewrite_video_settings(text, &changes));
    assert_eq!(back.get("a").as_deref(), Some("9"));
    assert_eq!(back.get("b").as_deref(), Some("2"));
    assert_eq!(back.get("c").as_deref(), Some("3"));
    assert_eq!(back.get("d"), None);
    assert_eq!(back.len(), 3);
}
