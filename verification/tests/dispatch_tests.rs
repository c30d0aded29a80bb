use mediaplan::dispatch::{build_invocation, route, strip_quotes, Downloader};
use mediaplan::model::HttpHeader;

fn hdr(name: &str, value: &str) -> HttpHeader {
    HttpHeader {
        name: name.to_string(),
        value: value.to_string(),
    }
}

#[test]
fn command_names() {
    assert_eq!(Downloader::AdaptiveGrabber.command_name(), "salgrab");
    assert_eq!(Downloader::StreamClient.command_name(), "streamlink");
    assert_eq!(Downloader::Segmented.command_name(), "saldl");
}

#[test]
fn routing_order() {
    let m3u8 = "m3u8_native".to_string();
    let https = "https".to_string();
    let dash = "mp4_dash".to_string();
    let plain = "mp4".to_string();
    // m3u8 protocol wins even over a dash container.
    assert_eq!(route(Some(&m3u8), Some(&dash)), Downloader::AdaptiveGrabber);
    assert_eq!(route(Some(&https), Some(&dash)), Downloader::StreamClient);
    assert_eq!(route(Some(&https), Some(&plain)), Downloader::Segmented);
    assert_eq!(route(None, None), Downloader::Segmented);
}

#[test]
fn quote_stripping() {
    assert_eq!(strip_quotes("\"Bearer xyz\""), "Bearer xyz");
    assert_eq!(strip_quotes("'single'"), "single");
    assert_eq!(strip_quotes("plain"), "plain");
    // Only a value with a leading quote loses its trailing one.
    assert_eq!(strip_quotes("trailing\""), "trailing\"");
    assert_eq!(strip_quotes("\"lead"), "lead");
    assert_eq!(strip_quotes(""), "");
}

#[test]
fn grabber_invocation_args() {
    let url = "https://example.test/v.m3u8".to_string();
    let proto = "m3u8".to_string();
    let headers = vec![hdr("Authorization", "\"Bearer xyz\"")];
    let inv = build_invocation(
        Some(&proto),
        None,
        Some(&headers),
        &url,
        "out.mp4".to_string(),
    );
    assert_eq!(inv.tool, Downloader::AdaptiveGrabber);
    assert_eq!(
        inv.args,
        vec![
            "-H".to_string(),
            "Authorization: Bearer xyz".to_string(),
            "--sub-seg-max-count=1".to_string(),
            "-p".to_string(),
            url.clone(),
            "-o".to_string(),
            "out.mp4".to_string(),
        ]
    );
}

#[test]
fn stream_client_invocation_args() {
    let url = "https://example.test/v.mpd".to_string();
    let proto = "https".to_string();
    let container = "mp4_dash".to_string();
    let headers = vec![hdr("Cookie", "'abc'")];
    let inv = build_invocation(
        Some(&proto),
        Some(&container),
        Some(&headers),
        &url,
        "out.mp4".to_string(),
    );
    assert_eq!(inv.tool, Downloader::StreamClient);
    assert_eq!(
        inv.args,
        vec![
            "--stream-segment-threads=2".to_string(),
            "--ringbuffer-size=100M".to_string(),
            "--http-header".to_string(),
            "Cookie=abc".to_string(),
            url.clone(),
            "best".to_string(),
            "-o".to_string(),
            "out.mp4".to_string(),
        ]
    );
}

#[test]
fn segmented_invocation_args_headers_last() {
    let url = "https://example.test/v.mp4".to_string();
    let proto = "https".to_string();
    let headers = vec![hdr("Referer", "\"https://example.test\"")];
    let inv = build_invocation(
        Some(&proto),
        None,
        Some(&headers),
        &url,
        "out.mp4".to_string(),
    );
    assert_eq!(inv.tool, Downloader::Segmented);
    assert_eq!(
        inv.args,
        vec![
            "-nTrm".to_string(),
            "-a2".to_string(),
            url.clone(),
            "-o".to_string(),
            "out.mp4".to_string(),
            "-H".to_string(),
            "Referer: https://example.test".to_string(),
        ]
    );
}

#[test]
fn absent_headers_contribute_no_flags() {
    let url = "u".to_string();
    let inv = build_invocation(None, None, None, &url, "f".to_string());
    assert_eq!(inv.tool, Downloader::Segmented);
    assert_eq!(
        inv.args,
        vec![
            "-nTrm".to_string(),
            "-a2".to_string(),
            "u".to_string(),
            "-o".to_string(),
            "f".to_string(),
        ]
    );
}
