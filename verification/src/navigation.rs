//! Navigations and popups: which of them go ahead.

use crate::origin::{parse_url, parsed_url};
use crate::policy::{popup_allowed, PopupRequest};
use crate::text::same_text;
use vstd::prelude::*;

verus! {

/// Whether a navigation is one that the app may have a say in: that of the main
/// frame, to somewhere else than the page that every webview loads at first.
pub open spec fn concerns_app(
    frame_is_main: Option<i32>,
    url: Option<Seq<char>>,
    initial_load_url: Seq<char>,
) -> bool {
    &&& frame_is_main matches Some(is_main) && is_main != 0
    &&& url matches Some(url) && url != initial_load_url
}

/// The characters of an optional text.
pub open spec fn optional_text(text: Option<&str>) -> Option<Seq<char>> {
    match text {
        Some(text) => Some(text@),
        None => None,
    }
}

/// What CEF is answered for a decision: 0 lets it happen, 1 cancels it.
pub fn cancel_code(allowed: bool) -> (code: i32)
    ensures
        code == if allowed {
            0i32
        } else {
            1i32
        },
{
    if allowed {
        0
    } else {
        1
    }
}

/// Decides on a navigation: 0 lets it happen, 1 cancels it. Only the navigation
/// handler cancels one, and it is asked only about the main frame, and only about
/// URLs.
///
/// `frame_is_main` is `None` where there is no frame, and `url` where there is no
/// request.
pub fn on_before_browse<F: Fn(&str) -> bool>(
    handler: Option<&F>,
    frame_is_main: Option<i32>,
    url: Option<&str>,
    initial_load_url: &str,
) -> (code: i32)
    requires
        handler is Some && url is Some ==> call_requires(*handler->0, (url->0,)),
    ensures
        ({
            let asked = {
                &&& concerns_app(frame_is_main, optional_text(url), initial_load_url@)
                &&& parsed_url(url->0@) is Some
                &&& handler is Some
            };
            &&& !asked ==> code == 0
            &&& asked ==> exists|allowed: bool| #[trigger]
                call_ensures(*handler->0, (url->0,), allowed) && code == if allowed {
                    0i32
                } else {
                    1i32
                }
        }),
{
    match (frame_is_main, url, handler) {
        (Some(is_main), Some(url), Some(handler)) => {
            if is_main == 0 || same_text(url, initial_load_url) || parse_url(url).is_none() {
                return 0;
            }
            let allowed = handler(url);
            cancel_code(allowed)
        },
        _ => 0,
    }
}

/// The request that a popup is.
pub open spec fn popup_request<'a>(
    webview_label: &'a str,
    target_url: Option<&'a str>,
) -> PopupRequest<'a> {
    PopupRequest {
        webview_label,
        url: match target_url {
            Some(url) => url,
            None => "",
        },
    }
}

/// Decides on a popup: 0 allows it, 1 cancels it. The popup policy decides where
/// one is installed. Where none is, a webview that has a new-window handler
/// cancels its popups, because the handler itself cannot be asked, and any other
/// allows them.
pub fn on_before_popup<F: Fn(&PopupRequest<'_>) -> bool>(
    policy: Option<&F>,
    webview_label: &str,
    target_url: Option<&str>,
    has_new_window_handler: bool,
) -> (code: i32)
    requires
        policy is Some ==> call_requires(
            *policy->0,
            (&popup_request(webview_label, target_url),),
        ),
    ensures
        match policy {
            Some(policy) => exists|allowed: bool| #[trigger]
                call_ensures(*policy, (&popup_request(webview_label, target_url),), allowed)
                    && code == if allowed {
                    0i32
                } else {
                    1i32
                },
            None => code == if has_new_window_handler {
                1i32
            } else {
                0i32
            },
        },
{
    let url = match target_url {
        Some(url) => url,
        None => "",
    };
    let request = PopupRequest { webview_label, url };
    assert(request == popup_request(webview_label, target_url));
    match popup_allowed(policy, &request) {
        Some(allowed) => cancel_code(allowed),
        None => cancel_code(!has_new_window_handler),
    }
}

/// Which navigations the app may have a say in: all of the main frame, but for those to
/// the page that every webview loads at first.
pub proof fn the_app_is_asked_about_its_main_frame(
    is_main: i32,
    url: &str,
    initial_load_url: Seq<char>,
)
    ensures
        concerns_app(Some(is_main), optional_text(Some(url)), initial_load_url) <==> is_main != 0
            && url@ != initial_load_url,
        !concerns_app(None, optional_text(Some(url)), initial_load_url),
        !concerns_app(Some(is_main), optional_text(None), initial_load_url),
{
}

/// The popup policy is shown the popup as it is, with an empty URL where CEF reports
/// none.
pub proof fn the_policy_is_shown_the_popup<'a>(webview_label: &'a str, target_url: &'a str)
    ensures
        popup_request(webview_label, Some(target_url)).webview_label == webview_label,
        popup_request(webview_label, Some(target_url)).url == target_url,
        popup_request(webview_label, None).webview_label == webview_label,
        popup_request(webview_label, None).url@ == Seq::<char>::empty(),
{
    reveal_strlit("");
    assert(""@ =~= Seq::<char>::empty());
}

} // verus!
