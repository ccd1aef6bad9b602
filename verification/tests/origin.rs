use tauri_runtime_cef::origin::{
    initiator_origin, parse_url, tuple_origin, tuple_origin_from, FrameInfo, ParsedUrl,
};

#[test]
fn tuple_origin_covers_special_and_custom_schemes() {
    let special = parse_url("https://example.com:8443/x?y").unwrap();
    assert_eq!(tuple_origin(&special).as_deref(), Some("https://example.com:8443"));
    // A standard-registered custom scheme: the URL spec calls this opaque, but
    // Chromium gives it a tuple origin, so we must too.
    let custom = parse_url("duck://site.alice.duck/index.html").unwrap();
    assert_eq!(tuple_origin(&custom).as_deref(), Some("duck://site.alice.duck"));
    // Genuinely origin-less: nothing to compare against, so no origin.
    let opaque = parse_url("data:text/html,hi").unwrap();
    assert_eq!(tuple_origin(&opaque), None);
}

#[test]
fn urls_are_taken_apart() {
    let url = parse_url("HTTPS://Example.COM:443/a b").unwrap();
    assert_eq!(url.href, "https://example.com/a%20b");
    assert_eq!(url.scheme, "https");
    assert_eq!(url.host.as_deref(), Some("example.com"));
    assert_eq!(url.port, None);
    assert_eq!(tuple_origin(&url).as_deref(), Some("https://example.com"));
    assert!(parse_url("no url").is_none());
    assert!(parse_url("").is_none());
}

fn origin_of(
    scheme: &str,
    host: Option<&str>,
    port: Option<u16>,
    standard: Option<&str>,
) -> Option<String> {
    let url = ParsedUrl {
        href: String::new(),
        scheme: scheme.to_string(),
        host: host.map(str::to_string),
        port,
    };
    tuple_origin_from(&url, &standard.map(str::to_string))
}

#[test]
fn opaque_origins_are_composed() {
    let duck = |host: Option<&str>, port: Option<u16>| origin_of("duck", host, port, Some("null"));
    assert_eq!(duck(Some("pond"), None).as_deref(), Some("duck://pond"));
    assert_eq!(duck(Some("pond"), Some(0)).as_deref(), Some("duck://pond:0"));
    assert_eq!(duck(Some("pond"), Some(80)).as_deref(), Some("duck://pond:80"));
    assert_eq!(duck(Some("pond"), Some(65535)).as_deref(), Some("duck://pond:65535"));
    assert_eq!(duck(None, Some(80)), None);
    assert_eq!(origin_of("duck", Some("pond"), None, None).as_deref(), Some("duck://pond"));
}

#[test]
fn an_origin_that_there_is_stays() {
    assert_eq!(
        origin_of("duck", Some("pond"), Some(80), Some("https://elsewhere")).as_deref(),
        Some("https://elsewhere")
    );
}

#[test]
fn files_have_an_origin() {
    let file = parse_url("file:///tmp/x.html").unwrap();
    assert_eq!(tuple_origin(&file).as_deref(), Some("file://"));
    assert_eq!(origin_of("file", None, None, Some("null")).as_deref(), Some("file://"));
    assert_eq!(origin_of("files", None, None, Some("null")), None);
}

#[test]
fn the_origin_of_a_blob_is_that_of_its_maker() {
    let blob = parse_url("blob:https://example.com/id").unwrap();
    assert_eq!(tuple_origin(&blob).as_deref(), Some("https://example.com"));
}

#[test]
fn only_the_main_frame_initiates() {
    let frame = |is_main: i32, url: &str| FrameInfo { is_main, url: url.to_string() };
    assert_eq!(
        initiator_origin(Some(&frame(1, "duck://pond:81/page"))).as_deref(),
        Some("duck://pond:81")
    );
    assert_eq!(initiator_origin(Some(&frame(0, "duck://pond/page"))), None);
    assert_eq!(initiator_origin(Some(&frame(2, "duck://pond/page"))), None);
    assert_eq!(initiator_origin(Some(&frame(1, "not a url"))), None);
    assert_eq!(initiator_origin(Some(&frame(1, "about:blank"))), None);
    assert_eq!(initiator_origin(None), None);
}
