use mediaplan::model::{FormatDescription, ItemDescription, PlanError, Role};
use mediaplan::selector::{select_format, Selection};

fn fmt(id: &str, protocol: &str, audio_ext: Option<&str>, video_ext: Option<&str>) -> FormatDescription {
    FormatDescription {
        format_id: id.to_string(),
        protocol: protocol.to_string(),
        container: String::new(),
        ext: "mp4".to_string(),
        url: format!("https://example.test/{}", id),
        audio_ext: audio_ext.map(|s| s.to_string()),
        video_ext: video_ext.map(|s| s.to_string()),
        http_headers: None,
    }
}

fn item_with(formats: Vec<FormatDescription>) -> ItemDescription {
    ItemDescription {
        id: Some("abc123".to_string()),
        title: Some("A title".to_string()),
        fulltitle: None,
        formats: Some(formats),
        url: None,
        ext: None,
        protocol: None,
        container: None,
        http_headers: None,
    }
}

#[test]
fn prefers_last_m3u8_over_http() {
    let item = item_with(vec![
        fmt("f1", "https", None, None),
        fmt("f2", "m3u8_native", None, None),
        fmt("f3", "m3u8", None, None),
        fmt("f4", "http", None, None),
    ]);
    let r = select_format(&item, Role::Both, None);
    assert_eq!(r, Ok(Selection::FromList(2)));
}

#[test]
fn falls_back_to_last_http_or_empty() {
    let item = item_with(vec![
        fmt("f1", "http", None, None),
        fmt("f2", "ftp", None, None),
        fmt("f3", "", None, None),
    ]);
    let r = select_format(&item, Role::Both, None);
    assert_eq!(r, Ok(Selection::FromList(2)));
}

#[test]
fn splits_when_audio_only_and_video_only_exist() {
    let item = item_with(vec![
        fmt("a", "https", Some("m4a"), None),
        fmt("v", "https", None, Some("mp4")),
    ]);
    let r = select_format(&item, Role::Both, None);
    assert_eq!(r, Ok(Selection::Split));
    // The single-role passes pick from the matching class.
    let ra = select_format(&item, Role::AudioOnly, None);
    assert_eq!(ra, Ok(Selection::FromList(0)));
    let rv = select_format(&item, Role::VideoOnly, None);
    assert_eq!(rv, Ok(Selection::FromList(1)));
}

#[test]
fn audio_ext_none_string_is_not_audio() {
    let item = item_with(vec![
        fmt("a", "https", Some("none"), None),
        fmt("v", "https", None, Some("mp4")),
    ]);
    // No audio-only format, so no split: last http-like wins.
    let r = select_format(&item, Role::Both, None);
    assert_eq!(r, Ok(Selection::FromList(1)));
}

#[test]
fn override_picks_match_regardless_of_protocol() {
    let forced = "f1".to_string();
    let item = item_with(vec![
        fmt("f1", "ftp", Some("m4a"), None),
        fmt("f2", "m3u8", None, Some("mp4")),
    ]);
    // The override also disables the audio/video split.
    let r = select_format(&item, Role::Both, Some(&forced));
    assert_eq!(r, Ok(Selection::FromList(0)));
}

#[test]
fn override_picks_last_of_equal_ids() {
    let forced = "dup".to_string();
    let item = item_with(vec![
        fmt("dup", "http", None, None),
        fmt("other", "http", None, None),
        fmt("dup", "m3u8", None, None),
    ]);
    let r = select_format(&item, Role::Both, Some(&forced));
    assert_eq!(r, Ok(Selection::FromList(2)));
}

#[test]
fn override_without_match_is_selection_error() {
    let forced = "missing".to_string();
    let item = item_with(vec![fmt("f1", "http", None, None)]);
    let r = select_format(&item, Role::Both, Some(&forced));
    assert_eq!(r, Err(PlanError::NoMatchingFormat));
}

#[test]
fn no_candidate_is_selection_error() {
    let item = item_with(vec![fmt("f1", "ftp", None, None)]);
    let r = select_format(&item, Role::Both, None);
    assert_eq!(r, Err(PlanError::NoMatchingFormat));
}

#[test]
fn empty_format_list_is_selection_error() {
    let item = item_with(Vec::new());
    let r = select_format(&item, Role::Both, None);
    assert_eq!(r, Err(PlanError::NoMatchingFormat));
}

#[test]
fn item_without_formats_is_its_own_format() {
    let mut item = item_with(vec![]);
    item.formats = None;
    let r = select_format(&item, Role::Both, None);
    assert_eq!(r, Ok(Selection::ItemItself));
}
