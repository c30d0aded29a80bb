use mediaplan::dispatch::Downloader;
use mediaplan::model::{
    FormatDescription, HttpHeader, ItemDescription, PlanError, Role, SchemaField,
};
use mediaplan::plan::plan_item;

fn fmt(id: &str, protocol: &str, audio_ext: Option<&str>, video_ext: Option<&str>) -> FormatDescription {
    FormatDescription {
        format_id: id.to_string(),
        protocol: protocol.to_string(),
        container: String::new(),
        ext: "mp4".to_string(),
        url: format!("https://example.test/{}", id),
        audio_ext: audio_ext.map(|s| s.to_string()),
        video_ext: video_ext.map(|s| s.to_string()),
        http_headers: None,
    }
}

fn base_item() -> ItemDescription {
    ItemDescription {
        id: Some("abc123".to_string()),
        title: Some("Foo Bar".to_string()),
        fulltitle: None,
        formats: None,
        url: Some("https://example.test/direct".to_string()),
        ext: Some("mp4".to_string()),
        protocol: None,
        container: None,
        http_headers: None,
    }
}

#[test]
fn generic_item_dispatches_without_error() {
    // No formats array: the item itself is the implicit format.
    let item = base_item();
    let plans = plan_item(&item, Role::Both, None, None).unwrap();
    assert_eq!(plans.len(), 1);
    assert_eq!(plans[0].tool, Downloader::Segmented);
    assert_eq!(
        plans[0].args,
        vec![
            "-nTrm".to_string(),
            "-a2".to_string(),
            "https://example.test/direct".to_string(),
            "-o".to_string(),
            "abc123-Foo_Bar.mp4".to_string(),
        ]
    );
}

#[test]
fn split_yields_audio_then_video_with_suffixes() {
    let mut item = base_item();
    item.formats = Some(vec![
        fmt("a", "https", Some("m4a"), None),
        fmt("v", "https", None, Some("mp4")),
    ]);
    let plans = plan_item(&item, Role::Both, None, None).unwrap();
    assert_eq!(plans.len(), 2);
    let audio_name = plans[0].args.last().unwrap();
    let video_name = plans[1].args.last().unwrap();
    assert_eq!(audio_name, "abc123-Foo_Bar.mp4-aud");
    assert_eq!(video_name, "abc123-Foo_Bar.mp4-vid");
    // The audio pass downloads the audio-only format, the video pass the
    // video-only one.
    assert!(plans[0].args.contains(&"https://example.test/a".to_string()));
    assert!(plans[1].args.contains(&"https://example.test/v".to_string()));
}

#[test]
fn override_disables_split_and_wins() {
    let forced = "a".to_string();
    let mut item = base_item();
    item.formats = Some(vec![
        fmt("a", "https", Some("m4a"), None),
        fmt("v", "https", None, Some("mp4")),
    ]);
    let plans = plan_item(&item, Role::Both, Some(&forced), None).unwrap();
    assert_eq!(plans.len(), 1);
    assert!(plans[0].args.contains(&"https://example.test/a".to_string()));
}

#[test]
fn m3u8_format_goes_to_grabber_with_headers() {
    let mut item = base_item();
    let mut f = fmt("hls", "m3u8", None, None);
    f.http_headers = Some(vec![HttpHeader {
        name: "Authorization".to_string(),
        value: "\"Bearer xyz\"".to_string(),
    }]);
    item.formats = Some(vec![f]);
    let plans = plan_item(&item, Role::Both, None, None).unwrap();
    assert_eq!(plans.len(), 1);
    assert_eq!(plans[0].tool, Downloader::AdaptiveGrabber);
    assert_eq!(plans[0].args[0], "-H");
    assert_eq!(plans[0].args[1], "Authorization: Bearer xyz");
}

#[test]
fn template_is_used_for_the_name() {
    let tpl = "%t-%i.%e".to_string();
    let item = base_item();
    let plans = plan_item(&item, Role::Both, None, Some(&tpl)).unwrap();
    assert_eq!(plans[0].args.last().unwrap(), "Foo Bar-abc123.mp4");
}

#[test]
fn missing_url_on_generic_item_is_schema_error() {
    let mut item = base_item();
    item.url = None;
    let r = plan_item(&item, Role::Both, None, None);
    assert_eq!(r.map(|_| ()), Err(PlanError::Schema(SchemaField::Url)));
}

#[test]
fn missing_ext_on_generic_item_is_schema_error() {
    let mut item = base_item();
    item.ext = None;
    let r = plan_item(&item, Role::Both, None, None);
    assert_eq!(r.map(|_| ()), Err(PlanError::Schema(SchemaField::Ext)));
}

#[test]
fn missing_id_wins_over_selection_failure() {
    let mut item = base_item();
    item.id = None;
    item.formats = Some(vec![fmt("f", "ftp", None, None)]);
    let r = plan_item(&item, Role::Both, None, None);
    assert_eq!(r.map(|_| ()), Err(PlanError::Schema(SchemaField::Id)));
}

#[test]
fn selection_failure_propagates() {
    let mut item = base_item();
    item.formats = Some(vec![fmt("f", "ftp", None, None)]);
    let r = plan_item(&item, Role::Both, None, None);
    assert_eq!(r.map(|_| ()), Err(PlanError::NoMatchingFormat));
}

#[test]
fn error_messages_name_the_stage() {
    assert_eq!(PlanError::NoMatchingFormat.message(), "no format matches the requested filters");
    assert_eq!(
        PlanError::Schema(SchemaField::EntryUrl).message(),
        "a playlist entry lacks a string url"
    );
}
