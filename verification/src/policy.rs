//! App-settable policies for Chromium permission requests and popups.
//!
//! Chromium permission requests that reach CEF, media access (`getUserMedia` and
//! `getDisplayMedia`) and permission prompts (notifications, geolocation,
//! clipboard and so on), are answered by a deny-biased policy, so that remote web
//! content that an app embeds never inherits the privileges of the app's own UI.
//!
//! Where no policy is set, or the policy returns [`PermissionDecision::Default`]:
//! - app-local origins (the app's own custom schemes, and `http(s)` on
//!   `localhost`, loopback addresses and `*.localhost` hosts) are allowed;
//! - every other origin is denied.

use crate::origin::{parse_url, parsed_url, ParsedUrl, UrlParts};
use crate::text::{
    a_text_is_split_at_its_separators, chars_of, first_part, same_text, split_chars, split_on,
};
use vstd::prelude::*;

verus! {

/// What a [`PermissionRequest`] asks for.
#[derive(Debug, Clone, Copy, PartialEq, Eq)]
pub enum PermissionRequestKind {
    /// `getUserMedia` or `getDisplayMedia`: `permissions` is a mask of CEF's
    /// `cef_media_access_permission_types_t` bits.
    MediaAccess,
    /// A Chromium permission prompt (notifications, geolocation, clipboard and so
    /// on): `permissions` is a mask of `cef_permission_request_types_t` bits.
    Prompt,
}

/// A permission request routed through the policy set by
/// [`set_permission_policy`].
#[derive(Debug)]
pub struct PermissionRequest<'a> {
    /// Label of the webview that the request originated from.
    pub webview_label: &'a str,
    /// The origin that requests the permission (such as `https://example.com`).
    /// May be empty when CEF does not report one.
    pub requesting_origin: &'a str,
    /// Raw CEF permission mask; interpret according to `kind`.
    pub permissions: u32,
    pub kind: PermissionRequestKind,
}

/// A policy's decision on a [`PermissionRequest`].
#[derive(Debug, Clone, Copy, PartialEq, Eq)]
pub enum PermissionDecision {
    Allow,
    Deny,
    /// Fall through to the default (app-local origins only).
    Default,
}

/// Installs the permission policy. Later calls are ignored.
pub fn set_permission_policy<P>(installed: &mut Option<P>, policy: P)
    ensures
        *final(installed) == match *old(installed) {
            Some(first) => Some(first),
            None => Some(policy),
        },
{
    if installed.is_none() {
        *installed = Some(policy);
    }
}

/// Whether a decision allows a request from `origin`, a URL or the lack of one.
pub open spec fn permits(
    decision: PermissionDecision,
    origin: Option<UrlParts>,
    custom_schemes: Seq<String>,
) -> bool {
    match decision {
        PermissionDecision::Allow => true,
        PermissionDecision::Deny => false,
        PermissionDecision::Default => app_local(origin, custom_schemes),
    }
}

/// Whether a URL belongs to the app itself rather than to remote web content. A
/// text that is no URL does not.
pub open spec fn app_local(url: Option<UrlParts>, custom_schemes: Seq<String>) -> bool {
    match url {
        None => false,
        Some(url) => {
            ||| exists|i: int|
                0 <= i < custom_schemes.len() && #[trigger] custom_schemes[i]@ == url.scheme
            ||| {
                &&& url.scheme == "http"@ || url.scheme == "https"@
                &&& url.host matches Some(host) && local_host(host)
            }
        },
    }
}

/// The number that decimal digits stand for.
pub open spec fn number(digits: Seq<char>) -> nat
    decreases digits.len(),
{
    if digits.len() == 0 {
        0
    } else {
        number(digits.drop_last()) * 10 + digit_value(digits.last())
    }
}

/// The number that a decimal digit stands for.
pub open spec fn digit_value(c: char) -> nat {
    (c as int - '0' as int) as nat
}

/// Whether a text is one of the four parts of a dotted IPv4 address.
pub open spec fn is_octet(text: Seq<char>) -> bool {
    &&& 0 < text.len() <= 3
    &&& forall|i: int| 0 <= i < text.len() ==> '0' <= #[trigger] text[i] <= '9'
    &&& number(text) <= 255
}

/// Whether a host is an IPv4 loopback address: a dotted quad that begins with 127.
pub open spec fn loopback_v4(host: Seq<char>) -> bool {
    let parts = split_on(host, '.');
    &&& parts.len() == 4
    &&& parts[0] == "127"@
    &&& is_octet(parts[1])
    &&& is_octet(parts[2])
    &&& is_octet(parts[3])
}

/// Whether a host is this machine: `localhost`, a loopback address, or a name
/// under `.localhost`.
pub open spec fn local_host(host: Seq<char>) -> bool {
    ||| host == "localhost"@
    ||| loopback_v4(host)
    ||| host == "[::1]"@
    ||| host == "::1"@
    ||| ".localhost"@.is_suffix_of(host)
}

/// What the policy decides on a request; the default where none is installed.
pub open spec fn decides<F: Fn(&PermissionRequest<'_>) -> PermissionDecision>(
    policy: Option<&F>,
    request: &PermissionRequest<'_>,
    decision: PermissionDecision,
) -> bool {
    match policy {
        Some(policy) => call_ensures(*policy, (request,), decision),
        None => decision is Default,
    }
}

/// Whether a permission request is granted: as the policy decides, and where it
/// does not decide, to app-local origins only.
pub fn permission_allowed<F: Fn(&PermissionRequest<'_>) -> PermissionDecision>(
    policy: Option<&F>,
    request: &PermissionRequest<'_>,
    custom_schemes: &[String],
) -> (allowed: bool)
    requires
        policy matches Some(policy) ==> call_requires(*policy, (request,)),
    ensures
        exists|decision: PermissionDecision| #[trigger]
            decides(policy, request, decision) && allowed == permits(
                decision,
                parsed_url(request.requesting_origin@),
                custom_schemes@,
            ),
{
    let decision = match policy {
        Some(policy) => policy(request),
        None => PermissionDecision::Default,
    };
    assert(decides(policy, request, decision));
    decision_permits(decision, request.requesting_origin, custom_schemes)
}

/// Whether a decision grants a request from `origin`.
pub fn decision_permits(
    decision: PermissionDecision,
    origin: &str,
    custom_schemes: &[String],
) -> (permitted: bool)
    ensures
        permitted == permits(decision, parsed_url(origin@), custom_schemes@),
{
    match decision {
        PermissionDecision::Allow => true,
        PermissionDecision::Deny => false,
        PermissionDecision::Default => is_app_local_origin(origin, custom_schemes),
    }
}

/// Whether `origin` belongs to the app itself rather than to remote web content:
/// one of the app's registered custom schemes, or http(s) on a localhost,
/// loopback or `*.localhost` host (dev servers, `.localhost` protocol domains).
pub fn is_app_local_origin(origin: &str, custom_schemes: &[String]) -> (local: bool)
    ensures
        local == app_local(parsed_url(origin@), custom_schemes@),
{
    match parse_url(origin) {
        None => false,
        Some(url) => is_app_local_url(&url, custom_schemes),
    }
}

/// Whether a URL belongs to the app itself; see [`is_app_local_origin`].
pub fn is_app_local_url(url: &ParsedUrl, custom_schemes: &[String]) -> (local: bool)
    ensures
        local == app_local(Some(url@), custom_schemes@),
{
    let mut i: usize = 0;
    while i < custom_schemes.len()
        invariant
            i <= custom_schemes@.len(),
            forall|j: int| 0 <= j < i ==> #[trigger] custom_schemes@[j]@ != url.scheme@,
        decreases custom_schemes@.len() - i,
    {
        if same_text(custom_schemes[i].as_str(), url.scheme.as_str()) {
            return true;
        }
        i += 1;
    }
    if same_text(url.scheme.as_str(), "http") || same_text(url.scheme.as_str(), "https") {
        match &url.host {
            Some(host) => is_local_host(host.as_str()),
            None => false,
        }
    } else {
        false
    }
}

/// Whether a host is this machine.
fn is_local_host(host: &str) -> (local: bool)
    ensures
        local == local_host(host@),
{
    same_text(host, "localhost") || is_loopback_v4(host) || same_text(host, "[::1]")
        || same_text(host, "::1") || has_suffix(host, ".localhost")
}

/// Whether a host is an IPv4 loopback address.
fn is_loopback_v4(host: &str) -> (loopback: bool)
    ensures
        loopback == loopback_v4(host@),
{
    let parts = split_chars(host, '.');
    if parts.len() != 4 {
        return false;
    }
    let first = &parts[0];
    proof {
        reveal_strlit("127");
        assert(first@.len() == 3 && first@[0] == '1' && first@[1] == '2' && first@[2] == '7'
            ==> first@ =~= "127"@);
    }
    first.len() == 3 && first[0] == '1' && first[1] == '2' && first[2] == '7' && octet(&parts[1])
        && octet(&parts[2]) && octet(&parts[3])
}

/// Whether a text is one of the four parts of a dotted IPv4 address.
fn octet(text: &Vec<char>) -> (is: bool)
    ensures
        is == is_octet(text@),
{
    if text.len() == 0 || text.len() > 3 {
        return false;
    }
    let mut value: u32 = 0;
    let mut i: usize = 0;
    assert(text@.take(0) =~= Seq::empty());
    while i < text.len()
        invariant
            i <= text@.len() <= 3,
            forall|j: int| 0 <= j < i ==> '0' <= #[trigger] text@[j] <= '9',
            value == number(text@.take(i as int)),
            i == 0 ==> value == 0,
            i == 1 ==> value <= 9,
            i == 2 ==> value <= 99,
            i == 3 ==> value <= 999,
        decreases text@.len() - i,
    {
        let c = text[i];
        if c < '0' || '9' < c {
            return false;
        }
        assert(text@.take(i + 1).drop_last() =~= text@.take(i as int));
        value = value * 10 + (c as u32 - '0' as u32);
        i += 1;
    }
    assert(text@.take(i as int) =~= text@);
    value <= 255
}

/// Whether `text` ends with `suffix`.
fn has_suffix(text: &str, suffix: &str) -> (found: bool)
    ensures
        found == suffix@.is_suffix_of(text@),
{
    let whole = chars_of(text);
    let end = chars_of(suffix);
    if whole.len() < end.len() {
        return false;
    }
    let start: usize = whole.len() - end.len();
    let mut i: usize = 0;
    while i < end.len()
        invariant
            i <= end.len(),
            start + end.len() == whole.len(),
            whole@ == text@,
            end@ == suffix@,
            forall|j: int| 0 <= j < i ==> end@[j] == whole@[start + j],
        decreases end.len() - i,
    {
        if end[i] != whole[start + i] {
            assert(text@.subrange(start as int, text@.len() as int)[i as int] != suffix@[i as int]);
            return false;
        }
        i += 1;
    }
    assert(suffix@ =~= text@.subrange(start as int, text@.len() as int));
    true
}

/// A `window.open` or popup request routed through the policy set by
/// [`set_popup_policy`].
#[derive(Debug)]
pub struct PopupRequest<'a> {
    /// Label of the webview that initiated the popup.
    pub webview_label: &'a str,
    /// The URL that the popup wants to open. Empty if CEF reports none.
    pub url: &'a str,
}

/// Installs the popup policy (`true`: allow the popup as a native CEF window).
/// Later calls are ignored.
pub fn set_popup_policy<P>(installed: &mut Option<P>, policy: P)
    ensures
        *final(installed) == match *old(installed) {
            Some(first) => Some(first),
            None => Some(policy),
        },
{
    if installed.is_none() {
        *installed = Some(policy);
    }
}

/// What the popup policy says of a request; `None` where none is installed.
pub fn popup_allowed<F: Fn(&PopupRequest<'_>) -> bool>(
    policy: Option<&F>,
    request: &PopupRequest<'_>,
) -> (decision: Option<bool>)
    requires
        policy matches Some(policy) ==> call_requires(*policy, (request,)),
    ensures
        match policy {
            Some(policy) => decision matches Some(allow) && call_ensures(
                *policy,
                (request,),
                allow,
            ),
            None => decision is None,
        },
{
    match policy {
        Some(policy) => Some(policy(request)),
        None => None,
    }
}

/// Remote content is denied by default: an origin of a scheme that is not the
/// app's own, unless it is http(s) on this machine; and what is no URL at all.
pub proof fn remote_content_is_denied_by_default(url: UrlParts, custom_schemes: Seq<String>)
    requires
        forall|i: int| 0 <= i < custom_schemes.len() ==> #[trigger] custom_schemes[i]@ != url.scheme,
        url.scheme != "http"@ && url.scheme != "https"@ || url.host is None || !local_host(
            url.host->0,
        ),
    ensures
        !permits(PermissionDecision::Default, Some(url), custom_schemes),
        !permits(PermissionDecision::Default, None, custom_schemes),
{
}

/// The app's own pages are allowed by default: those of its custom schemes, and
/// http(s) on this machine.
pub proof fn app_content_is_allowed_by_default(url: UrlParts, custom_schemes: Seq<String>)
    requires
        (exists|i: int| 0 <= i < custom_schemes.len() && #[trigger] custom_schemes[i]@
            == url.scheme) || ((url.scheme == "http"@ || url.scheme == "https"@) && (
        url.host matches Some(host) && local_host(host))),
    ensures
        permits(PermissionDecision::Default, Some(url), custom_schemes),
{
}

/// An explicit decision stands, whatever the origin.
pub proof fn an_explicit_decision_stands(origin: Option<UrlParts>, custom_schemes: Seq<String>)
    ensures
        permits(PermissionDecision::Allow, origin, custom_schemes),
        !permits(PermissionDecision::Deny, origin, custom_schemes),
{
}

/// The hosts that are this machine: `localhost` and all names under it, the loopback
/// address of IPv6, and all 127.a.b.c of IPv4.
pub proof fn these_hosts_are_this_machine(
    name: Seq<char>,
    a: Seq<char>,
    b: Seq<char>,
    c: Seq<char>,
)
    ensures
        local_host("localhost"@),
        local_host("[::1]"@),
        local_host("::1"@),
        local_host(name + ".localhost"@),
        (forall|i: int| 0 <= i < a.len() ==> '0' <= #[trigger] a[i] <= '9') && (forall|i: int|
            0 <= i < b.len() ==> '0' <= #[trigger] b[i] <= '9') && (forall|i: int|
            0 <= i < c.len() ==> '0' <= #[trigger] c[i] <= '9') && 0 < a.len() <= 3 && 0 < b.len()
            <= 3 && 0 < c.len() <= 3 && number(a) <= 255 && number(b) <= 255 && number(c) <= 255
            ==> local_host("127"@.push('.') + (a.push('.') + (b.push('.') + c))),
{
    reveal_strlit("127");
    let suffixed = name + ".localhost"@;
    assert(suffixed.subrange(suffixed.len() - ".localhost"@.len(), suffixed.len() as int)
        =~= ".localhost"@);
    if is_octet(a) && is_octet(b) && is_octet(c) {
        let host = "127"@.push('.') + (a.push('.') + (b.push('.') + c));
        a_text_is_split_at_its_separators("127"@, a.push('.') + (b.push('.') + c), '.');
        a_text_is_split_at_its_separators(a, b.push('.') + c, '.');
        a_text_is_split_at_its_separators(b, c, '.');
        a_text_is_split_at_its_separators(c, c, '.');
        assert(split_on(host, '.') =~= seq!["127"@, a, b, c]);
    }
}

/// No other host is this machine: one that is has one of these forms, the last of them
/// with the numbers that are returned.
pub proof fn no_other_host_is_this_machine(host: Seq<char>) -> (parts: (
    Seq<char>,
    Seq<char>,
    Seq<char>,
))
    requires
        local_host(host),
        host != "localhost"@,
        host != "[::1]"@,
        host != "::1"@,
        host.len() < 10 || host.skip(host.len() - 10) != ".localhost"@,
    ensures
        ({
            let (a, b, c) = parts;
            &&& host == "127"@.push('.') + (a.push('.') + (b.push('.') + c))
            &&& 0 < a.len() <= 3 && 0 < b.len() <= 3 && 0 < c.len() <= 3
            &&& number(a) <= 255 && number(b) <= 255 && number(c) <= 255
            &&& forall|i: int| 0 <= i < a.len() ==> '0' <= #[trigger] a[i] <= '9'
            &&& forall|i: int| 0 <= i < b.len() ==> '0' <= #[trigger] b[i] <= '9'
            &&& forall|i: int| 0 <= i < c.len() ==> '0' <= #[trigger] c[i] <= '9'
        }),
{
    reveal_strlit(".localhost");
    if ".localhost"@.is_suffix_of(host) {
        assert(host.skip(host.len() - 10) =~= ".localhost"@);
    }
    let parts = split_on(host, '.');
    let behind_first = first_part(host, '.');
    let behind_second = first_part(behind_first, '.');
    let behind_third = first_part(behind_second, '.');
    first_part(behind_third, '.');
    (parts[1], parts[2], parts[3])
}

/// The number that digits stand for: each further digit multiplies what stands before it
/// by ten.
pub proof fn digits_make_a_number(digits: Seq<char>, d: char)
    requires
        '0' <= d <= '9',
    ensures
        number(Seq::empty()) == 0,
        number(digits.push(d)) == 10 * number(digits) + (d as int - 48),
{
    assert(digits.push(d).drop_last() =~= digits);
}

/// Where a policy is installed it decides, and where none is nothing is decided.
pub proof fn the_installed_policy_decides<F: Fn(&PermissionRequest<'_>) -> PermissionDecision>(
    policy: &F,
    request: &PermissionRequest<'_>,
    decision: PermissionDecision,
)
    ensures
        decides(Some(policy), request, decision) <==> call_ensures(*policy, (request,), decision),
        decides::<F>(None, request, decision) <==> decision is Default,
{
}

} // verus!
