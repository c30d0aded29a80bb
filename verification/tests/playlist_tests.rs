use mediaplan::model::{ItemDescription, PlanError, SchemaField};
use mediaplan::playlist::resolve_playlist;

fn entry(url: Option<&str>, id: &str) -> ItemDescription {
    ItemDescription {
        id: Some(id.to_string()),
        title: Some(format!("title of {}", id)),
        fulltitle: None,
        formats: None,
        url: url.map(|s| s.to_string()),
        ext: Some("mp4".to_string()),
        protocol: None,
        container: None,
        http_headers: None,
    }
}

#[test]
fn dedup_sorts_by_url_and_keeps_one_per_url() {
    let entries = vec![
        entry(Some("b"), "e1"),
        entry(Some("a"), "e2"),
        entry(Some("b"), "e3"),
        entry(Some("c"), "e4"),
    ];
    let (out, pre) = resolve_playlist(entries).unwrap();
    assert_eq!(pre, 4);
    let urls: Vec<String> = out.iter().map(|e| e.url.clone().unwrap()).collect();
    assert_eq!(urls, vec!["a".to_string(), "b".to_string(), "c".to_string()]);
    // The advisory warning fires exactly when the counts differ.
    assert_ne!(pre, out.len());
}

#[test]
fn unique_urls_stay_and_counts_agree() {
    let entries = vec![entry(Some("y"), "e1"), entry(Some("x"), "e2")];
    let (out, pre) = resolve_playlist(entries).unwrap();
    assert_eq!(pre, 2);
    assert_eq!(out.len(), 2);
    assert_eq!(out[0].url.as_deref(), Some("x"));
    assert_eq!(out[1].url.as_deref(), Some("y"));
}

#[test]
fn single_entry_playlist() {
    let entries = vec![entry(Some("only"), "e1")];
    let (out, pre) = resolve_playlist(entries).unwrap();
    assert_eq!(pre, 1);
    assert_eq!(out.len(), 1);
    assert_eq!(out[0].id.as_deref(), Some("e1"));
}

#[test]
fn empty_playlist_resolves_empty() {
    let (out, pre) = resolve_playlist(Vec::new()).unwrap();
    assert_eq!(pre, 0);
    assert!(out.is_empty());
}

#[test]
fn entry_without_url_is_schema_error() {
    let entries = vec![entry(Some("a"), "e1"), entry(None, "e2")];
    let r = resolve_playlist(entries);
    assert_eq!(r.map(|p| p.1), Err(PlanError::Schema(SchemaField::EntryUrl)));
}
