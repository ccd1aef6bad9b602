//! HTTP headers, kept in the `http` crate's map.
//!
//! What the `http` crate's types hold, and what its functions do to them, is
//! stated in the contracts of the functions in the first half of this module, and
//! believed; the rest is proved from it.

use http::header::{HeaderMap, HeaderName, HeaderValue};
use vstd::prelude::*;

verus! {

/// `http`'s header map.
#[verifier::external_type_specification]
#[verifier::external_body]
#[verifier::reject_recursive_types(T)]
pub struct ExHeaderMap<T>(http::header::HeaderMap<T>);

/// `http`'s header name.
#[verifier::external_type_specification]
#[verifier::external_body]
pub struct ExHeaderName(http::header::HeaderName);

/// `http`'s header value.
#[verifier::external_type_specification]
#[verifier::external_body]
pub struct ExHeaderValue(http::header::HeaderValue);

/// `http`'s request method.
#[verifier::external_type_specification]
#[verifier::external_body]
pub struct ExMethod(http::Method);

/// The characters of a header name, in lower case.
pub uninterp spec fn name_chars(name: HeaderName) -> Seq<char>;

/// The bytes of a header value.
pub uninterp spec fn value_bytes(value: HeaderValue) -> Seq<u8>;

/// The headers in a map: to each name its values, in the order in which they were
/// appended.
pub uninterp spec fn header_entries(map: HeaderMap<HeaderValue>) -> Map<Seq<char>, Seq<Seq<u8>>>;

/// The characters of a request method.
pub uninterp spec fn method_chars(method: http::Method) -> Seq<char>;

/// A character of a token: a letter, a digit, or one of the marks that a token
/// may hold.
pub open spec fn is_token_byte(b: u8) -> bool {
    ||| 48 <= b <= 57
    ||| 65 <= b <= 90
    ||| 97 <= b <= 122
    ||| b == 33
    ||| 35 <= b <= 39
    ||| b == 42
    ||| b == 43
    ||| b == 45
    ||| b == 46
    ||| 94 <= b <= 96
    ||| b == 124
    ||| b == 126
}

/// Whether bytes are a token.
pub open spec fn is_token(bytes: Seq<u8>) -> bool {
    bytes.len() > 0 && forall|i: int| 0 <= i < bytes.len() ==> is_token_byte(#[trigger] bytes[i])
}

/// The longest header name that there can be.
pub const MAX_NAME_LEN: usize = 65535;

/// Whether bytes make a header name.
pub open spec fn is_header_name(bytes: Seq<u8>) -> bool {
    is_token(bytes) && bytes.len() <= MAX_NAME_LEN
}

/// A byte as a character, upper case letters in lower case.
pub open spec fn lower(b: u8) -> char {
    if 65 <= b <= 90 {
        (b + 32) as char
    } else {
        b as char
    }
}

/// The header name that bytes make.
pub open spec fn lower_chars(bytes: Seq<u8>) -> Seq<char> {
    Seq::new(bytes.len(), |i: int| lower(bytes[i]))
}

/// Bytes as characters, one for one.
pub open spec fn ascii_chars(bytes: Seq<u8>) -> Seq<char> {
    Seq::new(bytes.len(), |i: int| bytes[i] as char)
}

/// Whether a text can be a header value: no control characters but the tab.
pub open spec fn is_header_text(text: Seq<char>) -> bool {
    forall|i: int|
        0 <= i < text.len() ==> ' ' <= #[trigger] text[i] && text[i] != '\u{7f}' || text[i] == '\t'
}

/// Whether a header value can be read as text: visible ASCII, blanks and tabs.
pub open spec fn is_visible(bytes: Seq<u8>) -> bool {
    forall|i: int|
        0 <= i < bytes.len() ==> {
            let b = #[trigger] bytes[i];
            32 <= b < 127 || b == 9
        }
}

/// Header entries with one more value appended to a name.
pub open spec fn appended<V>(
    entries: Map<Seq<char>, Seq<V>>,
    name: Seq<char>,
    value: V,
) -> Map<Seq<char>, Seq<V>> {
    entries.insert(
        name,
        if entries.dom().contains(name) {
            entries[name].push(value)
        } else {
            seq![value]
        },
    )
}

/// The header entries that a row of names and values makes.
pub open spec fn collected<V>(row: Seq<(Seq<char>, V)>) -> Map<Seq<char>, Seq<V>>
    decreases row.len(),
{
    if row.len() == 0 {
        Map::empty()
    } else {
        appended(collected(row.drop_last()), row.last().0, row.last().1)
    }
}

/// The most names with which a header map takes another value for sure. Past
/// this many it may have to grow beyond what it can hold, and then it panics.
pub const MAX_NAMES: usize = 6553;

/// Whether a header map takes another value.
pub open spec fn has_room(entries: Map<Seq<char>, Seq<Seq<u8>>>) -> bool {
    entries.dom().finite() && entries.dom().len() <= MAX_NAMES
}

/// `HeaderMap::new`: a map with nothing in it.
#[verifier::external_body]
pub(crate) fn new_headers() -> (map: HeaderMap<HeaderValue>)
    ensures
        header_entries(map) == collected::<Seq<u8>>(Seq::empty()),
{
    HeaderMap::new()
}

/// `HeaderName::from_bytes`: a token of up to 65535 bytes is a name, and is kept
/// in lower case; nothing else is one.
#[verifier::external_body]
pub(crate) fn name_from_bytes(bytes: &[u8]) -> (name: Option<HeaderName>)
    ensures
        name is Some <==> is_header_name(bytes@),
        name matches Some(name) ==> name_chars(name) == lower_chars(bytes@),
{
    HeaderName::from_bytes(bytes).ok()
}

/// `HeaderValue::from_str`: a text without control characters (but for tabs) is a
/// value, of the text's UTF-8 bytes; no other text is one.
#[verifier::external_body]
pub(crate) fn value_from_text(text: &str) -> (value: Option<HeaderValue>)
    ensures
        value is Some <==> is_header_text(text@),
        value matches Some(value) ==> value_bytes(value) == vstd::utf8::encode_utf8(text@),
{
    HeaderValue::from_str(text).ok()
}

/// `HeaderValue::to_str`: the value as text, where it is visible ASCII, blanks
/// and tabs.
#[verifier::external_body]
pub(crate) fn value_text(value: &HeaderValue) -> (text: Option<&str>)
    ensures
        text is Some <==> is_visible(value_bytes(*value)),
        text matches Some(text) ==> text@ == ascii_chars(value_bytes(*value)),
{
    value.to_str().ok()
}

/// `HeaderValue::as_bytes`: the bytes of the value.
#[verifier::external_body]
pub(crate) fn value_as_bytes(value: &HeaderValue) -> (bytes: &[u8])
    ensures
        bytes@ == value_bytes(*value),
{
    value.as_bytes()
}

/// `HeaderMap::append`: adds a value to a name, behind the values that the name
/// has.
#[verifier::external_body]
pub(crate) fn append_header(
    map: &mut HeaderMap<HeaderValue>,
    name: HeaderName,
    value: HeaderValue,
)
    requires
        has_room(header_entries(*old(map))),
    ensures
        header_entries(*final(map)) == appended(
            header_entries(*old(map)),
            name_chars(name),
            value_bytes(value),
        ),
{
    map.append(name, value);
}

/// `HeaderMap::insert`: gives a name this one value, in place of all that it had.
#[verifier::external_body]
pub(crate) fn insert_header(
    map: &mut HeaderMap<HeaderValue>,
    name: HeaderName,
    value: HeaderValue,
)
    requires
        has_room(header_entries(*old(map))),
    ensures
        header_entries(*final(map)) == header_entries(*old(map)).insert(
            name_chars(name),
            seq![value_bytes(value)],
        ),
{
    map.insert(name, value);
}

/// `HeaderMap::get`: the first value of a name.
#[verifier::external_body]
pub(crate) fn first_value<'a>(
    map: &'a HeaderMap<HeaderValue>,
    name: &HeaderName,
) -> (value: Option<&'a HeaderValue>)
    ensures
        value is Some <==> header_entries(*map).dom().contains(name_chars(*name)),
        value matches Some(value) ==> {
            let values = header_entries(*map)[name_chars(*name)];
            values.len() > 0 && value_bytes(*value) == values[0]
        },
{
    map.get(name)
}

/// `HeaderMap::get_mut`: puts a value in the place of the first value of a name;
/// changes nothing where the name has none.
#[verifier::external_body]
pub(crate) fn replace_first_value(
    map: &mut HeaderMap<HeaderValue>,
    name: &HeaderName,
    value: HeaderValue,
)
    ensures
        header_entries(*final(map)) == if header_entries(*old(map)).dom().contains(
            name_chars(*name),
        ) {
            header_entries(*old(map)).insert(
                name_chars(*name),
                header_entries(*old(map))[name_chars(*name)].update(0, value_bytes(value)),
            )
        } else {
            header_entries(*old(map))
        },
{
    if let Some(first) = map.get_mut(name) {
        *first = value;
    }
}

/// The names and values of a row of headers.
pub open spec fn header_row(row: Seq<(String, HeaderValue)>) -> Seq<(Seq<char>, Seq<u8>)> {
    Seq::new(row.len(), |i: int| (row[i].0@, value_bytes(row[i].1)))
}

/// `HeaderMap::iter` and `HeaderName::as_str`: every value in the map once, with
/// its name; the values of one name in the order in which they were appended. In
/// which order the names come is left open.
#[verifier::external_body]
pub(crate) fn all_values(map: &HeaderMap<HeaderValue>) -> (row: Vec<(String, HeaderValue)>)
    ensures
        collected(header_row(row@)) == header_entries(*map),
{
    map.iter().map(|(name, value)| (name.as_str().to_string(), value.clone())).collect()
}

/// `Method::from_bytes`: a token is a method, kept as it is; nothing else is one.
#[verifier::external_body]
pub(crate) fn method_from_bytes(bytes: &[u8]) -> (method: Option<http::Method>)
    ensures
        method is Some <==> is_token(bytes@),
        method matches Some(method) ==> method_chars(method) == ascii_chars(bytes@),
{
    http::Method::from_bytes(bytes).ok()
}

/// A row with one more value at its end makes the entries with one more value.
pub(crate) proof fn collected_push<V>(row: Seq<(Seq<char>, V)>, name: Seq<char>, value: V)
    ensures
        collected(row.push((name, value))) == appended(collected(row), name, value),
{
    assert(row.push((name, value)).drop_last() =~= row);
}

/// The first part of a row has no names that the whole row does not have.
pub(crate) proof fn collected_part<V>(row: Seq<(Seq<char>, V)>, n: int)
    requires
        0 <= n <= row.len(),
    ensures
        collected(row).dom().finite(),
        collected(row.take(n)).dom().finite(),
        collected(row.take(n)).dom().subset_of(collected(row).dom()),
    decreases row.len(),
{
    if row.len() == 0 {
        assert(row.take(n) =~= row);
    } else if n == row.len() {
        assert(row.take(n) =~= row);
        collected_part(row.drop_last(), row.len() - 1);
    } else {
        assert(row.drop_last().take(n) =~= row.take(n));
        collected_part(row.drop_last(), n);
    }
}

/// A header name that is written in lower case as it is.
pub(crate) fn header_name(text: &str) -> (name: HeaderName)
    requires
        0 < text@.len() <= MAX_NAME_LEN,
        forall|i: int|
            0 <= i < text@.len() ==> 'a' <= #[trigger] text@[i] <= 'z' || text@[i] == '-',
    ensures
        name_chars(name) == text@,
{
    proof {
        assert(vstd::utf8::is_ascii_chars(text@));
        vstd::utf8::is_ascii_chars_encode_utf8(text@);
        let bytes = vstd::utf8::encode_utf8(text@);
        assert forall|i: int| 0 <= i < bytes.len() implies is_token_byte(#[trigger] bytes[i])
            && lower(bytes[i]) == text@[i] by {
            let c = text@[i];
        }
        assert(lower_chars(bytes) =~= text@);
    }
    name_from_bytes(text.as_bytes()).unwrap()
}

/// `Content-Type`.
pub(crate) fn content_type() -> (name: HeaderName)
    ensures
        name_chars(name) == "content-type"@,
{
    proof {
        reveal_strlit("content-type");
    }
    header_name("content-type")
}

/// `Content-Security-Policy`.
pub(crate) fn content_security_policy() -> (name: HeaderName)
    ensures
        name_chars(name) == "content-security-policy"@,
{
    proof {
        reveal_strlit("content-security-policy");
    }
    header_name("content-security-policy")
}

/// `Origin`.
pub(crate) fn origin() -> (name: HeaderName)
    ensures
        name_chars(name) == "origin"@,
{
    proof {
        reveal_strlit("origin");
    }
    header_name("origin")
}

/// A row of headers is kept whole: one more value comes behind those that its name has,
/// or is its first, and no other name changes.
pub proof fn every_value_is_collected<V>(row: Seq<(Seq<char>, V)>, name: Seq<char>, value: V)
    ensures
        collected::<V>(Seq::empty()).dom() == Set::<Seq<char>>::empty(),
        ({
            let before = collected(row);
            let after = collected(row.push((name, value)));
            &&& after.dom().contains(name)
            &&& after[name].last() == value
            &&& before.dom().contains(name) ==> after[name].drop_last() == before[name]
            &&& !before.dom().contains(name) ==> after[name].len() == 1
            &&& after[name].len() > 0
            &&& forall|other: Seq<char>|
                other != name ==> (#[trigger] after.dom().contains(other)
                    <==> before.dom().contains(other)) && after[other] == before[other]
        }),
{
    collected_push(row, name, value);
    let before = collected(row);
    if before.dom().contains(name) {
        assert(before[name].push(value).drop_last() =~= before[name]);
    }
    assert(collected::<V>(Seq::empty()).dom() =~= Set::<Seq<char>>::empty());
}

/// Bytes become characters one for one, and a name is kept in lower case.
pub proof fn bytes_become_characters(bytes: Seq<u8>)
    ensures
        ascii_chars(bytes).len() == bytes.len(),
        forall|i: int| 0 <= i < bytes.len() ==> #[trigger] ascii_chars(bytes)[i] as int == bytes[i],
        lower_chars(bytes).len() == bytes.len(),
        forall|i: int|
            0 <= i < bytes.len() ==> #[trigger] lower_chars(bytes)[i] as int == if 65 <= bytes[i]
                && bytes[i] <= 90 {
                bytes[i] + 32
            } else {
                bytes[i] as int
            },
{
}

/// A header map takes another value as long as it has up to 6553 names.
pub proof fn there_is_room_for_many_names(entries: Map<Seq<char>, Seq<Seq<u8>>>)
    requires
        entries.dom().finite(),
        entries.dom().len() <= 6553,
    ensures
        has_room(entries),
{
}

/// What a header value may hold, and what of it can be read as text: a control character
/// other than the tab is in neither, and only ASCII can be read.
pub proof fn control_characters_are_refused(text: Seq<char>, bytes: Seq<u8>, i: int)
    ensures
        0 <= i < text.len() && (text[i] < ' ' && text[i] != '\t' || text[i] == '\u{7f}')
            ==> !is_header_text(text),
        (forall|k: int|
            0 <= k < text.len() ==> #[trigger] text[k] == '\t' || ' ' <= text[k] && text[k]
                != '\u{7f}') ==> is_header_text(text),
        0 <= i < bytes.len() && (bytes[i] < 32 && bytes[i] != 9 || bytes[i] >= 127)
            ==> !is_visible(bytes),
        (forall|k: int|
            0 <= k < bytes.len() ==> #[trigger] bytes[k] == 9 || 32 <= bytes[k] && bytes[k] <= 126)
            ==> is_visible(bytes),
{
}

} // verus!
