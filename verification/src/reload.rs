//! The watch over a webview's first page.
//!
//! When Chromium's network service crashes while a webview starts, the webview can
//! end up on a blank page. So the page is looked at for a while, and the initial
//! URL is loaded again as long as the page is blank.

use crate::text::same_text;
use vstd::prelude::*;

verus! {

/// How long the watch waits before it first looks, in milliseconds.
pub const FIRST_LOOK_MILLIS: u64 = 1000;

/// How long the watch waits between two looks, in milliseconds.
pub const CHECK_INTERVAL_MILLIS: u64 = 100;

/// How long the watch goes on after the first wait, in nanoseconds.
pub const WATCH_NANOS: u128 = 5_000_000_000;

/// Where a watch stands: what it waits for.
#[derive(Debug, PartialEq, Eq)]
pub enum WatchState {
    Sleeping,
    Looking,
    Loading,
    Over,
}

/// What is to be done next.
#[derive(Debug, PartialEq, Eq)]
pub enum WatchAction {
    /// Sleep for so many milliseconds.
    Sleep(u64),
    /// Look at the main frame's URL.
    Look,
    /// Load the initial URL into the main frame.
    Load,
    /// Nothing more.
    Stop,
}

/// What has been done.
pub enum WatchEvent<'a> {
    /// The sleep is over; so many nanoseconds have gone by since the first one was.
    Slept(u128),
    /// The main frame has this URL; `None` where there is no main frame.
    Looked(Option<&'a str>),
    /// The URL is being loaded.
    Loaded,
}

/// Whether a URL is that of a blank page.
pub open spec fn is_blank_page(url: Seq<char>) -> bool {
    url.len() == 0 || url == "about:blank"@
}

/// How a watch begins. There is none over a webview that has no initial URL or is
/// meant to be blank.
pub open spec fn first_step(initial_url: Option<Seq<char>>) -> (WatchState, WatchAction) {
    match initial_url {
        Some(url) => if url == "about:blank"@ {
            (WatchState::Over, WatchAction::Stop)
        } else {
            (WatchState::Sleeping, WatchAction::Sleep(FIRST_LOOK_MILLIS))
        },
        None => (WatchState::Over, WatchAction::Stop),
    }
}

/// How a watch goes on. While there is time it looks at the page: a blank page is
/// loaded anew, and looked at again in case it turns out blank once more; at any
/// other page the watch is over; without a page it waits for one.
pub open spec fn next_step(state: WatchState, event: WatchEvent<'_>) -> (WatchState, WatchAction) {
    match (state, event) {
        (WatchState::Sleeping, WatchEvent::Slept(elapsed)) => if elapsed < WATCH_NANOS {
            (WatchState::Looking, WatchAction::Look)
        } else {
            (WatchState::Over, WatchAction::Stop)
        },
        (WatchState::Looking, WatchEvent::Looked(Some(url))) => if is_blank_page(url@) {
            (WatchState::Loading, WatchAction::Load)
        } else {
            (WatchState::Over, WatchAction::Stop)
        },
        (WatchState::Looking, WatchEvent::Looked(None)) => (
            WatchState::Sleeping,
            WatchAction::Sleep(CHECK_INTERVAL_MILLIS),
        ),
        (WatchState::Loading, WatchEvent::Loaded) => (
            WatchState::Sleeping,
            WatchAction::Sleep(CHECK_INTERVAL_MILLIS),
        ),
        _ => (WatchState::Over, WatchAction::Stop),
    }
}

/// Whether a URL is that of a blank page.
fn page_is_blank(url: &str) -> (blank: bool)
    ensures
        blank == is_blank_page(url@),
{
    proof {
        reveal_strlit("");
        assert(url@.len() == 0 ==> url@ =~= ""@);
    }
    same_text(url, "") || same_text(url, "about:blank")
}

/// Begins a watch over a webview that is to load `initial_url`.
pub fn start_watch(initial_url: Option<&str>) -> (step: (WatchState, WatchAction))
    ensures
        step == first_step(
            match initial_url {
                Some(url) => Some(url@),
                None => None,
            },
        ),
{
    match initial_url {
        Some(url) => if same_text(url, "about:blank") {
            (WatchState::Over, WatchAction::Stop)
        } else {
            (WatchState::Sleeping, WatchAction::Sleep(FIRST_LOOK_MILLIS))
        },
        None => (WatchState::Over, WatchAction::Stop),
    }
}

/// Goes on with a watch after what has been done.
pub fn check_and_reload_if_blank(state: WatchState, event: WatchEvent<'_>) -> (step: (
    WatchState,
    WatchAction,
))
    ensures
        step == next_step(state, event),
{
    match (state, event) {
        (WatchState::Sleeping, WatchEvent::Slept(elapsed)) => if elapsed < WATCH_NANOS {
            (WatchState::Looking, WatchAction::Look)
        } else {
            (WatchState::Over, WatchAction::Stop)
        },
        (WatchState::Looking, WatchEvent::Looked(Some(url))) => if page_is_blank(url) {
            (WatchState::Loading, WatchAction::Load)
        } else {
            (WatchState::Over, WatchAction::Stop)
        },
        (WatchState::Looking, WatchEvent::Looked(None)) => (
            WatchState::Sleeping,
            WatchAction::Sleep(CHECK_INTERVAL_MILLIS),
        ),
        (WatchState::Loading, WatchEvent::Loaded) => (
            WatchState::Sleeping,
            WatchAction::Sleep(CHECK_INTERVAL_MILLIS),
        ),
        _ => (WatchState::Over, WatchAction::Stop),
    }
}

/// Where a watch stands after a row of events.
pub open spec fn state_after(state: WatchState, events: Seq<WatchEvent<'_>>) -> WatchState
    decreases events.len(),
{
    if events.len() == 0 {
        state
    } else {
        next_step(state_after(state, events.drop_last()), events.last()).0
    }
}

/// A page is loaded anew only where it was just seen blank, and that in time: the
/// last two events before a load are a sleep that ended before the watch was to
/// end and a look at a blank page.
pub proof fn only_blank_pages_are_loaded_anew(initial_url: Seq<char>, events: Seq<WatchEvent<'_>>)
    requires
        state_after(first_step(Some(initial_url)).0, events) is Loading,
    ensures
        initial_url != "about:blank"@,
        events.len() >= 2,
        events.last() matches WatchEvent::Looked(Some(url)) && is_blank_page(url@),
        events[events.len() - 2] matches WatchEvent::Slept(elapsed) && elapsed < WATCH_NANOS,
{
    let start = first_step(Some(initial_url)).0;
    assert(events.len() > 0);
    let before = events.drop_last();
    assert(state_after(start, before) is Looking);
    assert(before.len() > 0);
    assert(before.last() == events[events.len() - 2]);
    if initial_url == "about:blank"@ {
        a_watch_that_is_over_stays_over(start, before);
    }
}

/// A watch that is over stays over.
pub proof fn a_watch_that_is_over_stays_over(state: WatchState, events: Seq<WatchEvent<'_>>)
    requires
        state is Over,
    ensures
        state_after(state, events) is Over,
    decreases events.len(),
{
    if events.len() > 0 {
        a_watch_that_is_over_stays_over(state, events.drop_last());
    }
}

/// How a watch begins and goes on: after a second it looks, for five seconds and every
/// tenth of one; it loads the page anew where that is blank, is over at any other page,
/// and waits where there is none yet. Over a webview without an initial URL, or with a
/// blank one, there is no watch, and a watch that is over asks for nothing more.
pub proof fn a_watch_looks_until_the_page_is_there(
    url: Seq<char>,
    page: &str,
    elapsed: u128,
    event: WatchEvent<'_>,
)
    ensures
        url != "about:blank"@ ==> first_step(Some(url)) == (
            WatchState::Sleeping,
            WatchAction::Sleep(1000),
        ),
        first_step(Some("about:blank"@)) == (WatchState::Over, WatchAction::Stop),
        first_step(None) == (WatchState::Over, WatchAction::Stop),
        elapsed < 5_000_000_000 ==> next_step(WatchState::Sleeping, WatchEvent::Slept(elapsed))
            == (WatchState::Looking, WatchAction::Look),
        elapsed >= 5_000_000_000 ==> next_step(WatchState::Sleeping, WatchEvent::Slept(elapsed))
            == (WatchState::Over, WatchAction::Stop),
        page@.len() == 0 || page@ == "about:blank"@ ==> next_step(
            WatchState::Looking,
            WatchEvent::Looked(Some(page)),
        ) == (WatchState::Loading, WatchAction::Load),
        page@.len() > 0 && page@ != "about:blank"@ ==> next_step(
            WatchState::Looking,
            WatchEvent::Looked(Some(page)),
        ) == (WatchState::Over, WatchAction::Stop),
        next_step(WatchState::Looking, WatchEvent::Looked(None)) == (
            WatchState::Sleeping,
            WatchAction::Sleep(100),
        ),
        next_step(WatchState::Loading, WatchEvent::Loaded) == (
            WatchState::Sleeping,
            WatchAction::Sleep(100),
        ),
        next_step(WatchState::Over, event) == (WatchState::Over, WatchAction::Stop),
{
}

} // verus!
