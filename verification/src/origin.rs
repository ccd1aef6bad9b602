//! Origins: where a request or a frame comes from.

use crate::policy::number;
use crate::text::{decimal, decimal_text, digit, same_text};
use vstd::prelude::*;
use vstd::string::*;

verus! {

/// What is read of a URL: the URL written out, its scheme, and its host and port if
/// it has them.
pub struct ParsedUrl {
    pub href: String,
    pub scheme: String,
    pub host: Option<String>,
    pub port: Option<u16>,
}

/// A [`ParsedUrl`] as a value of its characters.
pub struct UrlParts {
    pub href: Seq<char>,
    pub scheme: Seq<char>,
    pub host: Option<Seq<char>>,
    pub port: Option<u16>,
}

impl View for ParsedUrl {
    type V = UrlParts;

    open spec fn view(&self) -> UrlParts {
        UrlParts {
            href: self.href@,
            scheme: self.scheme@,
            host: match self.host {
                Some(host) => Some(host@),
                None => None,
            },
            port: self.port,
        }
    }
}

/// What the `url` crate makes of a text: the parts of the URL that it is, or
/// nothing where it is no URL.
pub uninterp spec fn parsed_url(text: Seq<char>) -> Option<UrlParts>;

/// The origin of the URL that a text is, as the URL standard serializes it: `"null"`
/// where that is opaque. Nothing where the text is no URL.
pub uninterp spec fn standard_origin(text: Seq<char>) -> Option<Seq<char>>;

/// `url::Url::parse`, and of the URL that it gives `as_str`, `scheme`, `host_str`
/// and `port`: the parts depend on the text alone.
#[verifier::external_body]
fn url_parts(text: &str) -> (parts: Option<ParsedUrl>)
    ensures
        (match parts {
            Some(url) => Some(url@),
            None => None,
        }) == parsed_url(text@),
{
    match url::Url::parse(text) {
        Ok(url) => Some(ParsedUrl {
            href: url.as_str().to_string(),
            scheme: url.scheme().to_string(),
            host: url.host_str().map(str::to_string),
            port: url.port(),
        }),
        Err(_) => None,
    }
}

/// `url::Url::origin` and `url::Origin::ascii_serialization`, of the URL that
/// `url::Url::parse` gives: the origin depends on the text alone.
#[verifier::external_body]
fn origin_text(text: &str) -> (origin: Option<String>)
    ensures
        (match origin {
            Some(origin) => Some(origin@),
            None => None,
        }) == standard_origin(text@),
{
    url::Url::parse(text).ok().map(|url| url.origin().ascii_serialization())
}

/// Reads a URL. `None` where the text is no URL.
pub fn parse_url(text: &str) -> (url: Option<ParsedUrl>)
    ensures
        url is Some <==> parsed_url(text@) is Some,
        url matches Some(url) ==> parsed_url(text@) == Some(url@),
{
    url_parts(text)
}

/// The origin that Chromium gives a URL whose origin by the URL standard is
/// `standard`.
///
/// By the URL standard only special schemes (http, https, ws, wss, ftp, file) can have
/// a tuple origin, and every other scheme has an opaque one. A custom scheme that is
/// registered as a standard scheme does have one inside Chromium, and that is the
/// origin that the renderer enforces: `scheme://host`, with `:port` behind it where
/// the URL names one. The origin of a file is `file://`, though the standard leaves it
/// to each browser and gives none.
pub open spec fn chromium_origin(url: UrlParts, standard: Option<Seq<char>>) -> Option<Seq<char>> {
    match standard {
        Some(origin) => if origin != "null"@ {
            Some(origin)
        } else {
            composed_origin(url)
        },
        None => composed_origin(url),
    }
}

/// The origin that is put together of the parts of a URL.
pub open spec fn composed_origin(url: UrlParts) -> Option<Seq<char>> {
    match (url.host, url.port) {
        (Some(host), Some(port)) => Some(
            url.scheme + "://"@ + host + ":"@ + decimal(port as nat),
        ),
        (Some(host), None) => Some(url.scheme + "://"@ + host),
        (None, _) => if url.scheme == "file"@ {
            Some("file://"@)
        } else {
            None
        },
    }
}

/// The tuple origin of `url`, as Chromium serializes it.
pub fn tuple_origin(url: &ParsedUrl) -> (origin: Option<String>)
    ensures
        optional_chars(origin) == chromium_origin(url@, standard_origin(url@.href)),
{
    let standard = origin_text(url.href.as_str());
    tuple_origin_from(url, &standard)
}

/// The tuple origin of `url`, whose origin by the URL standard is `standard`.
pub fn tuple_origin_from(url: &ParsedUrl, standard: &Option<String>) -> (origin: Option<String>)
    ensures
        optional_chars(origin) == chromium_origin(url@, optional_chars(*standard)),
{
    if let Some(origin) = standard {
        if !same_text(origin.as_str(), "null") {
            return Some(origin.clone());
        }
    }
    match &url.host {
        None => if same_text(url.scheme.as_str(), "file") {
            Some("file://".to_owned())
        } else {
            None
        },
        Some(host) => {
            let tuple = url.scheme.clone().concat("://").concat(host.as_str());
            match url.port {
                Some(port) => Some(tuple.concat(":").concat(decimal_text(port).as_str())),
                None => Some(tuple),
            }
        },
    }
}

/// The characters of an optional string.
pub open spec fn optional_chars(text: Option<String>) -> Option<Seq<char>> {
    match text {
        Some(text) => Some(text@),
        None => None,
    }
}

/// A frame as the browser process knows it.
pub struct FrameInfo {
    /// Nonzero for the main frame.
    pub is_main: i32,
    pub url: String,
}

/// The origin of the main frame that initiates a request. Restricted to the main
/// frame: it is never an opaque-origin (sandboxed) document in a Tauri webview,
/// so that it may stand in for an `Origin: null`; subframes are left alone.
pub fn initiator_origin(frame: Option<&FrameInfo>) -> (origin: Option<String>)
    ensures
        optional_chars(origin) == initiator(frame),
{
    match frame {
        None => None,
        Some(frame) => {
            if frame.is_main != 1 {
                return None;
            }
            match parse_url(frame.url.as_str()) {
                None => None,
                Some(url) => tuple_origin(&url),
            }
        },
    }
}

/// The origin of the main frame, where there is one to be had.
pub open spec fn initiator(frame: Option<&FrameInfo>) -> Option<Seq<char>> {
    match frame {
        Some(frame) => match parsed_url(frame.url@) {
            Some(url) => if frame.is_main == 1 {
                chromium_origin(url, standard_origin(url.href))
            } else {
                None
            },
            None => None,
        },
        None => None,
    }
}

/// An origin is never the word that stands for having none.
pub proof fn an_origin_is_never_null(url: UrlParts, standard: Option<Seq<char>>)
    ensures
        chromium_origin(url, standard) != Some("null"@),
{
    reveal_strlit("null");
    reveal_strlit("://");
    reveal_strlit(":");
    reveal_strlit("file://");
    assert("null"@ =~= seq!['n', 'u', 'l', 'l']);
    assert("file://"@[0] == 'f');
    if standard is None || standard == Some("null"@) {
        if url.host is Some {
            let origin = chromium_origin(url, standard)->0;
            let at = url.scheme.len() as int;
            assert(origin[at] == ':');
            assert(at < origin.len());
        }
    }
}

/// Files have an origin, whatever the standard says of them.
pub proof fn files_have_an_origin(url: UrlParts, standard: Option<Seq<char>>)
    requires
        url.scheme == "file"@,
    ensures
        chromium_origin(url, standard) is Some,
{
}

/// Where the URL standard gives a URL an origin, that is its origin.
pub proof fn a_standard_origin_stands(url: UrlParts, origin: Seq<char>)
    requires
        origin != "null"@,
    ensures
        chromium_origin(url, Some(origin)) == Some(origin),
{
}

/// Where the URL standard gives a URL none, its origin is its scheme, `://` and its
/// host, with a colon and the port behind it where it names one. Without a host only
/// files have an origin, and that is `file://`.
pub proof fn an_opaque_origin_is_put_together(url: UrlParts, standard: Option<Seq<char>>)
    requires
        standard is None || standard == Some("null"@),
    ensures
        url.host is Some && url.port is None ==> chromium_origin(url, standard) == Some(
            url.scheme + "://"@ + url.host->0,
        ),
        url.host is Some && url.port is Some ==> (chromium_origin(url, standard) matches Some(
            origin,
        ) && exists|digits: Seq<char>|
            {
                &&& origin == url.scheme + "://"@ + url.host->0 + ":"@ + digits
                &&& #[trigger] number(digits) == url.port->0
                &&& digits.len() > 0
                &&& digits.len() > 1 ==> digits[0] != '0'
                &&& forall|i: int| 0 <= i < digits.len() ==> '0' <= #[trigger] digits[i] <= '9'
            }),
        url.host is None && url.scheme == "file"@ ==> chromium_origin(url, standard) == Some(
            "file://"@,
        ),
        url.host is None && url.scheme != "file"@ ==> chromium_origin(url, standard) is None,
{
    if let Some(port) = url.port {
        decimal_digits(port as nat);
        assert(number(decimal(port as nat)) == port);
    }
}

/// Decimal digits stand for the number that they are the digits of, without a zero in
/// front.
pub proof fn decimal_digits(n: nat)
    ensures
        number(decimal(n)) == n,
        decimal(n).len() > 0,
        decimal(n).len() > 1 ==> decimal(n)[0] != '0',
        n > 0 ==> decimal(n)[0] != '0',
        forall|i: int| 0 <= i < decimal(n).len() ==> '0' <= #[trigger] decimal(n)[i] <= '9',
    decreases n,
{
    if n < 10 {
        assert(decimal(n).drop_last() =~= Seq::empty());
        assert(number(Seq::<char>::empty()) == 0);
    } else {
        decimal_digits(n / 10);
        assert(decimal(n).drop_last() =~= decimal(n / 10));
        assert(decimal(n).last() == digit(n % 10));
    }
}

/// The initiator of a request is the main frame alone. Its origin is the one that the
/// URL standard gives its URL; where that is none, the one that its scheme and host
/// make; and there is none where its URL is none.
pub proof fn the_main_frame_initiates(frame: &FrameInfo)
    ensures
        initiator(None) is None,
        frame.is_main != 1 ==> initiator(Some(frame)) is None,
        parsed_url(frame.url@) is None ==> initiator(Some(frame)) is None,
        frame.is_main == 1 && parsed_url(frame.url@) is Some ==> {
            let url = parsed_url(frame.url@)->0;
            &&& initiator(Some(frame)) == chromium_origin(url, standard_origin(url.href))
            &&& standard_origin(url.href) is Some && standard_origin(url.href) != Some("null"@)
                ==> initiator(Some(frame)) == standard_origin(url.href)
        },
{
}

/// What stands for a URL, or for a string that may not be there, is what it holds.
pub proof fn parts_are_what_they_stand_for(url: ParsedUrl, text: String)
    ensures
        url@.href == url.href@,
        url@.scheme == url.scheme@,
        url.host matches Some(host) ==> url@.host == Some(host@),
        url.host is None ==> url@.host is None,
        url@.port == url.port,
        optional_chars(Some(text)) == Some(text@),
        optional_chars(None) is None,
{
}

} // verus!
