use tauri_runtime_cef::navigation::{cancel_code, on_before_browse, on_before_popup};
use tauri_runtime_cef::origin::parse_url;
use tauri_runtime_cef::permission::{
    media_access_mask, on_request_media_access_permission, on_show_permission_prompt,
    prompt_result, AnswerEvent, PendingAnswer, PromptResult, MEDIA_PERMISSION_NONE,
};
use tauri_runtime_cef::policy::{
    decision_permits, is_app_local_origin, is_app_local_url, permission_allowed, popup_allowed,
    set_permission_policy, set_popup_policy, PermissionDecision, PermissionRequest,
    PermissionRequestKind, PopupRequest,
};

type Policy = fn(&PermissionRequest<'_>) -> PermissionDecision;
type Popups = fn(&PopupRequest<'_>) -> bool;

fn schemes() -> Vec<String> {
    vec!["tauri".to_string(), "ipc".to_string()]
}

fn request(origin: &str) -> PermissionRequest<'_> {
    PermissionRequest {
        webview_label: "main",
        requesting_origin: origin,
        permissions: 3,
        kind: PermissionRequestKind::MediaAccess,
    }
}

#[test]
fn app_local_origins() {
    let schemes = schemes();
    for origin in [
        "tauri://localhost",
        "ipc://anything/at/all",
        "http://localhost",
        "https://localhost:1420",
        "http://127.0.0.1:8080",
        "http://127.0.0.2:3000",
        "https://127.255.255.255",
        "http://127.1",
        "http://[::1]:3000",
        "http://tauri.localhost",
        "https://a.b.localhost/x",
        "HTTP://LOCALHOST",
    ] {
        assert!(is_app_local_origin(origin, &schemes), "{origin}");
    }
    for origin in [
        "https://example.com",
        "http://localhost.example.com",
        "http://notlocalhost",
        "http://128.0.0.1",
        "http://126.255.255.255",
        "http://127.evil.com",
        "http://127.0.0.1.evil.com",
        "http://127.0.0.evil",
        "asset://localhost",
        "ws://localhost",
        "file:///etc/passwd",
        "data:text/html,hi",
        "null",
        "",
        "not a url",
    ] {
        assert!(!is_app_local_origin(origin, &schemes), "{origin}");
    }
    assert!(!is_app_local_origin("tauri://localhost", &[]));
    assert!(is_app_local_url(&parse_url("ipc://x").unwrap(), &schemes));
    assert!(!is_app_local_url(&parse_url("https://x").unwrap(), &schemes));
    let on_host = |host: &str| {
        let mut url = parse_url("http://x").unwrap();
        url.host = Some(host.to_string());
        is_app_local_url(&url, &schemes)
    };
    for host in ["127.0.0.2", "127.255.0.9", "::1", "[::1]", "localhost", "a.localhost"] {
        assert!(on_host(host), "{host}");
    }
    for host in ["127.0.0", "127.0.0.256", "127.0.0.", "127.0.0.0.1", "127.0.0.x", "1270.0.0.1"] {
        assert!(!on_host(host), "{host}");
    }
}

#[test]
fn requests_are_denied_to_remote_content_by_default() {
    let schemes = schemes();
    let none: Option<&Policy> = None;
    assert!(permission_allowed(none, &request("tauri://localhost"), &schemes));
    assert!(!permission_allowed(none, &request("https://example.com"), &schemes));
    assert!(!permission_allowed(none, &request(""), &schemes));
    let default: Policy = |_| PermissionDecision::Default;
    assert!(permission_allowed(Some(&default), &request("http://localhost"), &schemes));
    assert!(!permission_allowed(Some(&default), &request("https://example.com"), &schemes));
}

#[test]
fn an_explicit_decision_stands() {
    let schemes = schemes();
    let allow: Policy = |_| PermissionDecision::Allow;
    let deny: Policy = |_| PermissionDecision::Deny;
    assert!(permission_allowed(Some(&allow), &request("https://example.com"), &schemes));
    assert!(!permission_allowed(Some(&deny), &request("tauri://localhost"), &schemes));
    assert!(decision_permits(PermissionDecision::Allow, "", &schemes));
    assert!(!decision_permits(PermissionDecision::Deny, "tauri://x", &schemes));
    assert!(decision_permits(PermissionDecision::Default, "tauri://x", &schemes));
    assert!(!decision_permits(PermissionDecision::Default, "duck://x", &schemes));
}

#[test]
fn a_policy_sees_the_request() {
    let by_label: Policy = |request| {
        if request.webview_label == "embedded" && request.permissions == 3 {
            PermissionDecision::Deny
        } else {
            PermissionDecision::Allow
        }
    };
    let mut embedded = request("https://example.com");
    assert!(permission_allowed(Some(&by_label), &embedded, &[]));
    embedded.webview_label = "embedded";
    assert!(!permission_allowed(Some(&by_label), &embedded, &[]));
}

#[test]
fn the_first_policy_counts() {
    let mut installed: Option<u8> = None;
    set_permission_policy(&mut installed, 1);
    set_permission_policy(&mut installed, 2);
    assert_eq!(installed, Some(1));
    let mut popups: Option<u8> = None;
    set_popup_policy(&mut popups, 3);
    set_popup_policy(&mut popups, 4);
    assert_eq!(popups, Some(3));
}

#[test]
fn popups_follow_the_policy_and_else_the_handler() {
    let by_url: Popups = |request| request.webview_label == "main" && request.url == "https://ok";
    let none: Option<&Popups> = None;
    let ok = PopupRequest { webview_label: "main", url: "https://ok" };
    assert_eq!(popup_allowed(Some(&by_url), &ok), Some(true));
    assert_eq!(popup_allowed(none, &ok), None);

    assert_eq!(on_before_popup(Some(&by_url), "main", Some("https://ok"), true), 0);
    assert_eq!(on_before_popup(Some(&by_url), "main", Some("https://no"), false), 1);
    assert_eq!(on_before_popup(Some(&by_url), "other", Some("https://ok"), false), 1);
    assert_eq!(on_before_popup(none, "main", Some("https://ok"), true), 1);
    assert_eq!(on_before_popup(none, "main", Some("https://ok"), false), 0);
    // No target is an empty URL.
    let empty: Popups = |request| request.url.is_empty();
    assert_eq!(on_before_popup(Some(&empty), "main", None, true), 0);
    assert_eq!(on_before_popup(Some(&empty), "main", Some("x"), true), 1);
}

#[test]
fn navigations_of_the_main_frame_ask_the_handler() {
    let initial = "data:text/html,initial";
    let refuse = |_: &str| false;
    let only_ok = |url: &str| url == "https://ok/";
    let none: Option<&fn(&str) -> bool> = None;
    assert_eq!(on_before_browse(Some(&refuse), Some(1), Some("https://x/"), initial), 1);
    assert_eq!(on_before_browse(Some(&only_ok), Some(1), Some("https://ok/"), initial), 0);
    assert_eq!(on_before_browse(Some(&only_ok), Some(1), Some("https://no/"), initial), 1);
    // Nobody else is asked about.
    assert_eq!(on_before_browse(Some(&refuse), None, Some("https://x/"), initial), 0);
    assert_eq!(on_before_browse(Some(&refuse), Some(0), Some("https://x/"), initial), 0);
    assert_eq!(on_before_browse(Some(&refuse), Some(1), None, initial), 0);
    assert_eq!(on_before_browse(Some(&refuse), Some(1), Some(initial), initial), 0);
    assert_eq!(on_before_browse(Some(&refuse), Some(1), Some("no url"), initial), 0);
    assert_eq!(on_before_browse(none, Some(1), Some("https://x/"), initial), 0);
    assert_eq!((cancel_code(true), cancel_code(false)), (0, 1));
}

#[test]
fn media_access_is_all_or_nothing() {
    let none: Option<&Policy> = None;
    let schemes = schemes();
    let ask = |has_callback: bool, origin: Option<&str>| {
        on_request_media_access_permission(has_callback, none, &schemes, "main", origin, 5)
    };
    assert_eq!(ask(true, Some("tauri://localhost")), Some(5));
    assert_eq!(ask(true, Some("https://example.com")), Some(0));
    assert_eq!(ask(true, None), Some(0));
    assert_eq!(ask(false, Some("tauri://localhost")), None);
    assert_eq!(media_access_mask(true, 9), 9);
    assert_eq!(media_access_mask(false, 9), MEDIA_PERMISSION_NONE);
}

#[test]
fn prompts_are_accepted_or_denied() {
    let kinds: Policy = |request| match request.kind {
        PermissionRequestKind::Prompt => PermissionDecision::Default,
        PermissionRequestKind::MediaAccess => PermissionDecision::Deny,
    };
    let schemes = schemes();
    let ask = |has_callback: bool, origin: Option<&str>| {
        on_show_permission_prompt(has_callback, Some(&kinds), &schemes, "main", origin, 5)
    };
    assert_eq!(ask(true, Some("tauri://localhost")), Some(PromptResult::Accept));
    assert_eq!(ask(true, Some("https://example.com")), Some(PromptResult::Deny));
    assert_eq!(ask(true, None), Some(PromptResult::Deny));
    assert_eq!(ask(false, Some("tauri://localhost")), None);
    assert_eq!(
        on_request_media_access_permission(
            true,
            Some(&kinds),
            &schemes,
            "main",
            Some("tauri://localhost"),
            5
        ),
        Some(0)
    );
    assert_eq!(prompt_result(true), PromptResult::Accept);
    assert_eq!(prompt_result(false), PromptResult::Deny);
}

#[test]
fn a_request_is_answered_exactly_once() {
    let mut granted = PendingAnswer::new();
    assert_eq!(granted.reply(AnswerEvent::Decided(true)), Some(true));
    assert_eq!(granted.reply(AnswerEvent::Decided(false)), None);
    assert_eq!(granted.reply(AnswerEvent::Abandoned), None);
    let mut denied = PendingAnswer::new();
    assert_eq!(denied.reply(AnswerEvent::Decided(false)), Some(false));
    let mut dropped = PendingAnswer::new();
    assert_eq!(dropped.reply(AnswerEvent::Abandoned), Some(false));
    assert_eq!(dropped.reply(AnswerEvent::Decided(true)), None);
}
