use mediaplan::filename::{
    apply_template, compose_filename, default_name, insert_sequence_suffix, pad3, truncate_chars,
};
use mediaplan::model::{ItemDescription, PlanError, Role, SchemaField};

fn item(id: Option<&str>, title: Option<&str>, fulltitle: Option<&str>) -> ItemDescription {
    ItemDescription {
        id: id.map(|s| s.to_string()),
        title: title.map(|s| s.to_string()),
        fulltitle: fulltitle.map(|s| s.to_string()),
        formats: None,
        url: Some("https://example.test/x".to_string()),
        ext: Some("mp4".to_string()),
        protocol: None,
        container: None,
        http_headers: None,
    }
}

#[test]
fn template_substitution() {
    let it = item(Some("abc123"), Some("Foo Bar"), None);
    let tpl = "%t-%i.%e".to_string();
    let ext = "mp4".to_string();
    let r = compose_filename(&it, &ext, Some(&tpl), Role::Both);
    assert_eq!(r, Ok("Foo Bar-abc123.mp4".to_string()));
}

#[test]
fn default_pattern_reverses_order_and_sanitizes() {
    let it = item(Some("abc123"), Some("Foo Bar"), None);
    let ext = "mp4".to_string();
    let r = compose_filename(&it, &ext, None, Role::Both);
    assert_eq!(r, Ok("abc123-Foo_Bar.mp4".to_string()));
}

#[test]
fn fulltitle_preferred_over_title() {
    let it = item(Some("abc123"), Some("short"), Some("the full title"));
    let ext = "mp4".to_string();
    let tpl = "%t".to_string();
    let r = compose_filename(&it, &ext, Some(&tpl), Role::Both);
    assert_eq!(r, Ok("the full title".to_string()));
}

#[test]
fn unrecognized_percent_passes_through() {
    let out = apply_template("%x%%t-100%", "T", "I", "E");
    assert_eq!(out, "%x%T-100%");
}

#[test]
fn default_name_replaces_spaces_and_slashes() {
    let out = default_name("id", "a b/c", "mkv");
    assert_eq!(out, "id-a_b_c.mkv");
}

#[test]
fn title_of_200_chars_truncates_to_128() {
    let long: String = "x".repeat(200);
    let it = item(Some("id"), Some(&long), None);
    let ext = "mp4".to_string();
    let tpl = "%t".to_string();
    let r = compose_filename(&it, &ext, Some(&tpl), Role::Both).unwrap();
    assert_eq!(r.chars().count(), 128);
    assert_eq!(r, "x".repeat(128));
}

#[test]
fn truncate_chars_caps_and_keeps_short_texts() {
    assert_eq!(truncate_chars("abcdef", 3), "abc");
    assert_eq!(truncate_chars("ab", 3), "ab");
    assert_eq!(truncate_chars("", 3), "");
}

#[test]
fn truncate_counts_characters_not_bytes() {
    let s = "caf\u{e9}caf\u{e9}";
    assert_eq!(truncate_chars(s, 5), "caf\u{e9}c");
}

#[test]
fn role_suffixes() {
    let it = item(Some("id"), Some("t"), None);
    let ext = "mp4".to_string();
    let a = compose_filename(&it, &ext, None, Role::AudioOnly);
    assert_eq!(a, Ok("id-t.mp4-aud".to_string()));
    let v = compose_filename(&it, &ext, None, Role::VideoOnly);
    assert_eq!(v, Ok("id-t.mp4-vid".to_string()));
}

#[test]
fn escaped_title_is_decoded() {
    // The unescape call must really decode: a literal backslash-n becomes
    // a newline character in the composed name.
    let it = item(Some("id"), Some("a\\nb"), None);
    let ext = "mp4".to_string();
    let tpl = "%t".to_string();
    let r = compose_filename(&it, &ext, Some(&tpl), Role::Both).unwrap();
    assert_eq!(r, "a\nb");
    assert_ne!(r, "a\\nb");
}

#[test]
fn malformed_escape_fails() {
    let it = item(Some("id"), Some("bad\\qescape"), None);
    let ext = "mp4".to_string();
    let r = compose_filename(&it, &ext, None, Role::Both);
    assert_eq!(r, Err(PlanError::UnescapeFailed));
}

#[test]
fn missing_id_is_schema_error() {
    let it = item(None, Some("t"), None);
    let ext = "mp4".to_string();
    let r = compose_filename(&it, &ext, None, Role::Both);
    assert_eq!(r, Err(PlanError::Schema(SchemaField::Id)));
}

#[test]
fn missing_title_is_schema_error() {
    let it = item(Some("id"), None, None);
    let ext = "mp4".to_string();
    let r = compose_filename(&it, &ext, None, Role::Both);
    assert_eq!(r, Err(PlanError::Schema(SchemaField::Title)));
}

#[test]
fn pad3_zero_pads_to_three_digits() {
    assert_eq!(pad3(1), "001");
    assert_eq!(pad3(42), "042");
    assert_eq!(pad3(999), "999");
    assert_eq!(pad3(1000), "1000");
}

#[test]
fn sequence_suffix_goes_before_final_dot() {
    assert_eq!(
        insert_sequence_suffix("show.%e", 3),
        Some("show-003.%e".to_string())
    );
    assert_eq!(
        insert_sequence_suffix("a.b.c", 12),
        Some("a.b-012.c".to_string())
    );
    assert_eq!(insert_sequence_suffix("nodot", 1), None);
}
