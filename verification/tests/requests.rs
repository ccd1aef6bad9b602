use http::header::{HeaderMap, HeaderValue};
use tauri_runtime_cef::origin::{parse_url, FrameInfo};
use tauri_runtime_cef::registry::{
    create_resource_handler, register_streaming_scheme_handler, streaming_handler_for,
    SchemeRegistry, StreamingRegistry,
};
use tauri_runtime_cef::reload::{
    check_and_reload_if_blank, start_watch, WatchAction, WatchEvent, WatchState,
};
use tauri_runtime_cef::request::{
    get_request_headers, prepare_request, process_request, read_request_body, repair_origin,
    request_method, PostElement, RequestInfo,
};
use tauri_runtime_cef::streaming::InitiatorOrigin;

fn field(name: &str, values: &[&str]) -> (String, Vec<String>) {
    (name.to_string(), values.iter().map(|value| value.to_string()).collect())
}

fn values(headers: &HeaderMap<HeaderValue>, name: &str) -> Vec<String> {
    headers.get_all(name).iter().map(|value| value.to_str().unwrap().to_string()).collect()
}

#[test]
fn bodies_are_put_together() {
    let elements = vec![
        Some(PostElement::Bytes { buffer: b"abcd".to_vec(), copied: 2 }),
        None,
        Some(PostElement::Other),
        Some(PostElement::File(None)),
        Some(PostElement::File(Some(b"file".to_vec()))),
        Some(PostElement::Bytes { buffer: Vec::new(), copied: 0 }),
        Some(PostElement::Bytes { buffer: b"!".to_vec(), copied: 1 }),
    ];
    assert_eq!(read_request_body(&elements), b"abfile!");
    assert_eq!(read_request_body(&Vec::new()), b"");
}

#[test]
fn headers_keep_every_value() {
    let headers = get_request_headers(&vec![
        field("Accept", &["text/html", "*/*"]),
        field("X-Empty", &[]),
        field("accept", &["image/png"]),
        field("X-Name", &["caf\u{e9}\ttab"]),
    ]);
    assert_eq!(values(&headers, "accept"), ["text/html", "*/*", "image/png"]);
    assert_eq!(headers.get("x-name").unwrap().as_bytes(), "caf\u{e9}\ttab".as_bytes());
    assert!(headers.get("x-empty").is_none());
    assert_eq!(headers.len(), 4);
}

#[test]
fn a_null_origin_is_repaired() {
    let initiator = Some("duck://pond".to_string());
    let mut headers = get_request_headers(&vec![field("Origin", &["null"]), field("a", &["b"])]);
    repair_origin(&mut headers, &initiator);
    assert_eq!(values(&headers, "origin"), ["duck://pond"]);
    assert_eq!(values(&headers, "a"), ["b"]);
}

#[test]
fn any_other_origin_is_left_alone() {
    let initiator = Some("duck://pond".to_string());
    let mut absent = get_request_headers(&vec![field("a", &["b"])]);
    repair_origin(&mut absent, &initiator);
    assert!(absent.get("origin").is_none());

    for origin in ["https://real", "Null", "nul", "nullx"] {
        let mut present = get_request_headers(&vec![field("Origin", &[origin])]);
        repair_origin(&mut present, &initiator);
        assert_eq!(values(&present, "origin"), [origin]);
    }

    let mut unknown = get_request_headers(&vec![field("Origin", &["null"])]);
    repair_origin(&mut unknown, &None);
    assert_eq!(values(&unknown, "origin"), ["null"]);
    repair_origin(&mut unknown, &Some("line\nbreak".to_string()));
    assert_eq!(values(&unknown, "origin"), ["null"]);
}

#[test]
fn methods_are_tokens_or_get() {
    assert_eq!(request_method("POST").as_str(), "POST");
    assert_eq!(request_method("get").as_str(), "get");
    assert_eq!(request_method("").as_str(), "GET");
    assert_eq!(request_method("A B").as_str(), "GET");
    assert_eq!(request_method("caf\u{e9}").as_str(), "GET");
    let long = "x".repeat(40);
    assert_eq!(request_method(&long).as_str(), long);
    for b in 0..128u8 {
        let text = String::from_utf8(vec![b; 2]).unwrap();
        let token = b.is_ascii_alphanumeric() || b"!#$%&'*+-.^_`|~".contains(&b);
        assert_eq!(request_method(&text).as_str() == text, token, "{b}");
    }
}

#[test]
fn a_request_goes_to_the_streaming_handler_of_its_scheme() {
    let mut registry = StreamingRegistry::new();
    register_streaming_scheme_handler(&mut registry, "duck", 7);
    let request = RequestInfo {
        method: "PUT".to_string(),
        fields: vec![field("Origin", &["null"])],
        elements: vec![Some(PostElement::Bytes { buffer: b"data".to_vec(), copied: 4 })],
    };
    let initiator = Some("duck://pond".to_string());
    let url = "duck://pond/a b";
    let (ready, handler) = process_request(&registry, "main", url, &request, &initiator).unwrap();
    assert_eq!(handler, Some(&7));
    assert_eq!(ready.webview_label, "main");
    assert_eq!(ready.url, "duck://pond/a%20b");
    assert_eq!(ready.method, http::Method::PUT);
    assert_eq!(values(&ready.headers, "origin"), ["duck://pond"]);
    assert_eq!(ready.body, b"data");
    assert_eq!(ready.initiator, Some(InitiatorOrigin(initiator.clone())));

    let other = parse_url("goose://pond/").unwrap();
    let (ready, handler) = prepare_request(&registry, "main", &other, &request, &None);
    assert_eq!(handler, None);
    assert_eq!(ready.initiator, None);
    assert_eq!(values(&ready.headers, "origin"), ["null"]);

    let (ready, _) = process_request(&registry, "main", url, &request, &None).unwrap();
    assert_eq!(ready.initiator, Some(InitiatorOrigin(None)));

    assert!(process_request(&registry, "main", "no url", &request, &None).is_none());
}

#[test]
fn the_last_registration_counts() {
    let mut registry = StreamingRegistry::new();
    assert_eq!(streaming_handler_for(&registry, "duck"), None);
    register_streaming_scheme_handler(&mut registry, "duck", 1);
    register_streaming_scheme_handler(&mut registry, "goose", 2);
    register_streaming_scheme_handler(&mut registry, "duck", 3);
    assert_eq!(streaming_handler_for(&registry, "duck"), Some(&3));
    assert_eq!(streaming_handler_for(&registry, "goose"), Some(&2));
    assert_eq!(streaming_handler_for(&registry, "swan"), None);
}

#[test]
fn a_scheme_is_served_per_browser() {
    let mut registry = SchemeRegistry::new();
    registry.register(1, "tauri", "one");
    registry.register(2, "tauri", "two");
    registry.register(1, "asset", "files");
    registry.register(1, "tauri", "one again");
    assert_eq!(registry.find(1, "tauri"), Some(&"one again"));
    assert_eq!(registry.find(2, "tauri"), Some(&"two"));
    assert_eq!(registry.find(1, "asset"), Some(&"files"));
    assert_eq!(registry.find(2, "asset"), None);
    assert_eq!(registry.find(3, "tauri"), None);

    let frame = FrameInfo { is_main: 1, url: "tauri://localhost/index.html".to_string() };
    let created = create_resource_handler(&registry, Some(2), "tauri", Some(&frame));
    assert_eq!(created, Some((&"two", Some("tauri://localhost".to_string()))));
    assert_eq!(
        create_resource_handler(&registry, Some(1), "asset", None),
        Some((&"files", None))
    );
    assert_eq!(create_resource_handler(&registry, Some(3), "tauri", Some(&frame)), None);
    assert_eq!(create_resource_handler(&registry, None, "tauri", Some(&frame)), None);
}

#[test]
fn blank_pages_are_loaded_anew_for_a_while() {
    assert_eq!(start_watch(None), (WatchState::Over, WatchAction::Stop));
    assert_eq!(start_watch(Some("about:blank")), (WatchState::Over, WatchAction::Stop));
    assert_eq!(
        start_watch(Some("tauri://localhost")),
        (WatchState::Sleeping, WatchAction::Sleep(1000))
    );
    assert_eq!(
        check_and_reload_if_blank(WatchState::Sleeping, WatchEvent::Slept(0)),
        (WatchState::Looking, WatchAction::Look)
    );
    assert_eq!(
        check_and_reload_if_blank(WatchState::Sleeping, WatchEvent::Slept(4_999_999_999)),
        (WatchState::Looking, WatchAction::Look)
    );
    assert_eq!(
        check_and_reload_if_blank(WatchState::Sleeping, WatchEvent::Slept(5_000_000_000)),
        (WatchState::Over, WatchAction::Stop)
    );
    for blank in ["", "about:blank"] {
        assert_eq!(
            check_and_reload_if_blank(WatchState::Looking, WatchEvent::Looked(Some(blank))),
            (WatchState::Loading, WatchAction::Load)
        );
    }
    assert_eq!(
        check_and_reload_if_blank(WatchState::Looking, WatchEvent::Looked(Some("tauri://x"))),
        (WatchState::Over, WatchAction::Stop)
    );
    assert_eq!(
        check_and_reload_if_blank(WatchState::Looking, WatchEvent::Looked(None)),
        (WatchState::Sleeping, WatchAction::Sleep(100))
    );
    assert_eq!(
        check_and_reload_if_blank(WatchState::Loading, WatchEvent::Loaded),
        (WatchState::Sleeping, WatchAction::Sleep(100))
    );
    assert_eq!(
        check_and_reload_if_blank(WatchState::Over, WatchEvent::Loaded),
        (WatchState::Over, WatchAction::Stop)
    );
}

#[test]
fn thousands_of_names_fit() {
    let fields: Vec<(String, Vec<String>)> =
        (0..6553).map(|i| field(&format!("x-{i}"), &["v"])).collect();
    let mut headers = get_request_headers(&fields);
    assert_eq!(headers.len(), 6553);
    assert_eq!(values(&headers, "x-6552"), ["v"]);
    repair_origin(&mut headers, &Some("duck://pond".to_string()));
    assert!(headers.get("origin").is_none());
}
