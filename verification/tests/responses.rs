use http::header::{HeaderMap, HeaderName, HeaderValue};
use tauri_runtime_cef::buffered::{allow_scripts, buffered_response, is_html, set_csp};
use tauri_runtime_cef::csp::{add_script_hashes, csp_inject_initialization_scripts_hashes};
use tauri_runtime_cef::html::{inject_scripts_into_html_body, InitScript};
use tauri_runtime_cef::reading::{buffered_reply, response_headers};
use tauri_runtime_cef::response::write_response_headers;

fn headers(fields: &[(&str, &[u8])]) -> HeaderMap<HeaderValue> {
    let mut map = HeaderMap::new();
    for (name, value) in fields {
        map.append(
            HeaderName::from_bytes(name.as_bytes()).unwrap(),
            HeaderValue::from_bytes(value).unwrap(),
        );
    }
    map
}

fn scripts() -> Vec<InitScript> {
    vec![
        InitScript { script: "one < 1".to_string(), hash: "'sha256-one'".to_string() },
        InitScript { script: "two".to_string(), hash: "'sha256-two'".to_string() },
    ]
}

fn sorted(csp: &str) -> Vec<&str> {
    let mut directives: Vec<&str> = csp.split("; ").collect();
    directives.sort();
    directives
}

#[test]
fn heads_are_told() {
    let head = write_response_headers(
        404,
        &headers(&[
            ("Set-Cookie", b"a=1"),
            ("Content-Type", b" text/html ; charset=utf-8; x=y"),
            ("Set-Cookie", b"b=2"),
            ("X-Binary", b"\xff"),
        ]),
    );
    assert_eq!(head.status, 404);
    assert_eq!(head.cache_control, "no-store");
    assert_eq!(head.mime_type, "text/html");
    assert_eq!(head.length, -1);
    assert_eq!(head.redirect_url, "");
    let cookies: Vec<&str> = head
        .headers
        .iter()
        .filter(|(name, _)| name == "set-cookie")
        .map(|(_, value)| value.as_str())
        .collect();
    assert_eq!(cookies, ["a=1", "b=2"]);
    assert_eq!(head.headers.len(), 3);
}

#[test]
fn a_redirecting_status_redirects_nobody() {
    let head = write_response_headers(302, &headers(&[("Location", b"https://elsewhere")]));
    assert_eq!(head.status, 302);
    assert_eq!(head.redirect_url, "");
}

#[test]
fn mime_types_are_taken_from_the_last_content_type() {
    let mime = |fields: &[(&str, &[u8])]| write_response_headers(200, &headers(fields)).mime_type;
    assert_eq!(mime(&[]), "text/plain");
    assert_eq!(mime(&[("content-type", b"application/json")]), "application/json");
    assert_eq!(mime(&[("content-type", b"\ta/b\t")]), "a/b");
    assert_eq!(mime(&[("content-type", b";x")]), "");
    assert_eq!(mime(&[("content-type", b"\xff")]), "text/plain");
    assert_eq!(mime(&[("content-type", b"a/b"), ("content-type", b"c/d")]), "c/d");
    assert_eq!(mime(&[("content-type", b"a/b"), ("content-type", b"\xff")]), "a/b");
}

#[test]
fn html_is_recognised() {
    let html = |fields: &[(&str, &[u8])]| is_html(&headers(fields));
    assert!(html(&[("content-type", b"text/html")]));
    assert!(html(&[("content-type", b"TEXT/Html; charset=utf-8")]));
    assert!(html(&[("content-type", b"text/html5")]));
    assert!(!html(&[("content-type", b"text/htm")]));
    assert!(!html(&[("content-type", b" text/html")]));
    assert!(!html(&[("content-type", b"text/html; \xff")]));
    assert!(!html(&[("content-type", b"a/b"), ("content-type", b"text/html")]));
    assert!(!html(&[]));
}

#[test]
fn scripts_go_to_the_start_of_the_head() {
    let page = inject_scripts_into_html_body(
        b"<!DOCTYPE html><html><head><title>t</title></head><body>b</body></html>",
        &scripts(),
    )
    .unwrap();
    assert_eq!(
        String::from_utf8(page).unwrap(),
        "<!DOCTYPE html><html><head><script>one < 1</script><script>two</script>\
         <title>t</title></head><body>b</body></html>"
    );
}

#[test]
fn a_page_without_a_head_gets_one() {
    let page = inject_scripts_into_html_body(b"hi", &scripts()).unwrap();
    assert_eq!(
        String::from_utf8(page).unwrap(),
        "<html><head><script>one < 1</script><script>two</script></head><body>hi</body></html>"
    );
    let bare = inject_scripts_into_html_body(b"", &[]).unwrap();
    assert_eq!(String::from_utf8(bare).unwrap(), "<html><head></head><body></body></html>");
}

#[test]
fn what_is_not_utf8_gets_no_scripts() {
    assert!(inject_scripts_into_html_body(b"\xff<html>", &scripts()).is_none());
}

#[test]
fn hashes_are_added_to_the_policy() {
    let csp = csp_inject_initialization_scripts_hashes(
        "default-src 'self'; script-src 'self' https://x".to_string(),
        &scripts(),
    );
    assert_eq!(
        sorted(&csp),
        ["default-src 'self'", "script-src 'self' https://x 'sha256-one' 'sha256-two'"]
    );
}

#[test]
fn a_policy_without_script_src_gets_one() {
    let csp =
        csp_inject_initialization_scripts_hashes("img-src *".to_string(), &scripts());
    assert_eq!(sorted(&csp), ["img-src *", "script-src 'self' 'sha256-one' 'sha256-two'"]);
}

#[test]
fn of_two_equal_directives_the_later_counts() {
    let csp = csp_inject_initialization_scripts_hashes(
        "script-src a; script-src b".to_string(),
        &scripts(),
    );
    assert_eq!(csp, "script-src b 'sha256-one' 'sha256-two'");
}

#[test]
fn without_scripts_a_policy_stays() {
    let odd = " x ;; script-src  a".to_string();
    assert_eq!(csp_inject_initialization_scripts_hashes(odd.clone(), &[]), odd);
}

#[test]
fn an_extended_policy_can_be_extended_again() {
    let once = csp_inject_initialization_scripts_hashes("img-src *".to_string(), &scripts());
    let twice = csp_inject_initialization_scripts_hashes(once, &scripts());
    assert_eq!(
        sorted(&twice),
        [
            "img-src *",
            "script-src 'self' 'sha256-one' 'sha256-two' 'sha256-one' 'sha256-two'"
        ]
    );
}

#[test]
fn directives_that_are_parsed_already_are_extended_too() {
    let list = vec![
        ("script-src".to_string(), vec!["a".to_string()]),
        ("img-src".to_string(), vec!["*".to_string()]),
    ];
    let mut extended = add_script_hashes(list, &scripts());
    extended.sort();
    assert_eq!(extended[0].0, "img-src");
    assert_eq!(extended[0].1, ["*"]);
    assert_eq!(extended[1].0, "script-src");
    assert_eq!(extended[1].1, ["a", "'sha256-one'", "'sha256-two'"]);
}

#[test]
fn buffered_pages_get_scripts_and_a_policy_for_them() {
    let response = buffered_response(
        200,
        headers(&[
            ("content-type", b"text/html"),
            ("content-security-policy", b"script-src x"),
            ("content-security-policy", b"img-src y"),
        ]),
        b"<html><head></head><body></body></html>".to_vec(),
        &scripts(),
    );
    assert_eq!(response.status, 200);
    assert_eq!(response.position, 0);
    assert_eq!(
        String::from_utf8(response.body).unwrap(),
        "<html><head><script>one < 1</script><script>two</script></head><body></body></html>"
    );
    let policies: Vec<&str> = response
        .headers
        .get_all("content-security-policy")
        .iter()
        .map(|value| value.to_str().unwrap())
        .collect();
    assert_eq!(policies, ["script-src x 'sha256-one' 'sha256-two'", "img-src y"]);
}

#[test]
fn other_buffered_bodies_stay() {
    let plain = buffered_response(200, headers(&[]), b"<html>".to_vec(), &scripts());
    assert_eq!(plain.body, b"<html>");
    assert!(plain.headers.is_empty());
    let broken = buffered_response(
        200,
        headers(&[("content-type", b"text/html")]),
        b"\xff".to_vec(),
        &scripts(),
    );
    assert_eq!(broken.body, b"\xff");
}

#[test]
fn policies_that_cannot_be_header_values_are_not_set() {
    let mut map = headers(&[("content-security-policy", b"img-src y")]);
    set_csp(&mut map, "line\nbreak");
    assert_eq!(map["content-security-policy"], "img-src y");
    set_csp(&mut map, "img-src z");
    assert_eq!(map["content-security-policy"], "img-src z");
    let mut none = headers(&[("a", b"b")]);
    set_csp(&mut none, "img-src z");
    assert!(none.get("content-security-policy").is_none());
    allow_scripts(&mut none, &scripts());
    assert!(none.get("content-security-policy").is_none());
}

#[test]
fn a_policy_that_is_no_text_counts_as_empty() {
    let mut map = headers(&[("content-security-policy", b"\xff")]);
    allow_scripts(&mut map, &[]);
    assert_eq!(map["content-security-policy"], "");
}

#[test]
fn buffered_bodies_are_read_bit_by_bit() {
    let mut response = buffered_response(200, headers(&[]), b"hello".to_vec(), &[]);
    let mut out = [0u8; 3];
    assert_eq!(response.read(&mut out), 3);
    assert_eq!(&out, b"hel");
    assert_eq!(response.read(&mut out), 2);
    assert_eq!(&out, b"lol");
    assert_eq!(response.read(&mut out), 0);
    assert_eq!(response.position, 5);
}

#[test]
fn buffered_reads_are_answered() {
    let reply = |count: usize, wanted: bool| {
        let reply = buffered_reply(count, wanted);
        (reply.code, reply.count)
    };
    assert_eq!(reply(3, true), (1, Some(3)));
    assert_eq!(reply(0, true), (0, Some(0)));
    assert_eq!(reply(3, false), (0, None));
    assert_eq!(reply(2147483647, true), (1, Some(2147483647)));
    assert_eq!(reply(2147483648, true), (0, None));
}

#[test]
fn a_streaming_head_goes_before_a_buffered_one() {
    let map = headers(&[("content-type", b"a/b")]);
    let buffered = buffered_response(500, headers(&[]), Vec::new(), &[]);
    let told = response_headers(Some(Some((201, &map))), Some(&buffered)).unwrap();
    assert_eq!((told.status, told.mime_type.as_str()), (201, "a/b"));
    assert!(response_headers(Some(None), Some(&buffered)).is_none());
    let told = response_headers(None, Some(&buffered)).unwrap();
    assert_eq!((told.status, told.mime_type.as_str()), (500, "text/plain"));
    assert!(response_headers(None, None).is_none());
}
