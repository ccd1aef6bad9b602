//! Responses: what CEF is told of one.

use crate::headers::{
    all_values, appended, ascii_chars, collected, collected_push, header_entries, header_row,
    is_visible, value_bytes, value_text,
};
use crate::text::{essence, media_type, same_text};
use http::header::{HeaderMap, HeaderValue};
use vstd::prelude::*;

verus! {

/// The head of a response, as CEF is told it.
pub struct ResponseHead {
    pub status: i32,
    /// Names and values, a name once for each of its values.
    pub headers: Vec<(String, String)>,
    /// What `Cache-Control` is set to, in place of what `headers` say of it.
    pub cache_control: String,
    pub mime_type: String,
    /// The length of the body; `-1` says that it is unknown.
    pub length: i64,
    /// Where CEF is sent on to; empty where it is not.
    pub redirect_url: String,
}

/// The names and values of a head's headers.
pub open spec fn text_row(row: Seq<(String, String)>) -> Seq<(Seq<char>, Seq<char>)> {
    Seq::new(row.len(), |i: int| (row[i].0@, row[i].1@))
}

/// Those of a row of header values that can be read as text, as text.
pub open spec fn visible_texts(values: Seq<Seq<u8>>) -> Seq<Seq<char>>
    decreases values.len(),
{
    if values.len() == 0 {
        Seq::empty()
    } else if is_visible(values.last()) {
        visible_texts(values.drop_last()).push(ascii_chars(values.last()))
    } else {
        visible_texts(values.drop_last())
    }
}

/// The headers whose values can be read as text.
pub open spec fn visible_headers(entries: Map<Seq<char>, Seq<Seq<u8>>>) -> Map<
    Seq<char>,
    Seq<Seq<char>>,
> {
    Map::new(
        |name: Seq<char>| entries.dom().contains(name) && visible_texts(entries[name]).len() > 0,
        |name: Seq<char>| visible_texts(entries[name]),
    )
}

/// The MIME type that headers declare: that of the last `Content-Type`, without
/// its parameters; plain text where there is none.
pub open spec fn declared_mime_type(headers: Map<Seq<char>, Seq<Seq<char>>>) -> Seq<char> {
    if headers.dom().contains("content-type"@) {
        essence(headers["content-type"@].last())
    } else {
        "text/plain"@
    }
}

/// What one more header does to the headers that can be read as text.
proof fn visible_headers_appended(
    entries: Map<Seq<char>, Seq<Seq<u8>>>,
    name: Seq<char>,
    value: Seq<u8>,
)
    ensures
        visible_headers(appended(entries, name, value)) == if is_visible(value) {
            appended(visible_headers(entries), name, ascii_chars(value))
        } else {
            visible_headers(entries)
        },
{
    let values = if entries.dom().contains(name) {
        entries[name]
    } else {
        Seq::empty()
    };
    assert(appended(entries, name, value)[name] =~= values.push(value));
    assert(values.push(value).drop_last() =~= values);
    let after = visible_headers(appended(entries, name, value));
    if is_visible(value) {
        let texts = visible_texts(values);
        assert(visible_texts(values.push(value)) == texts.push(ascii_chars(value)));
        if texts.len() == 0 {
            assert(texts.push(ascii_chars(value)) =~= seq![ascii_chars(value)]);
        }
        assert(after =~= appended(visible_headers(entries), name, ascii_chars(value)));
    } else {
        assert(visible_texts(values.push(value)) == visible_texts(values));
        assert(after =~= visible_headers(entries));
    }
}

/// Whether a head tells of a response with this status and these headers.
pub open spec fn tells_of(
    head: ResponseHead,
    status: u16,
    entries: Map<Seq<char>, Seq<Seq<u8>>>,
) -> bool {
    &&& head.status == status
    &&& collected(text_row(head.headers@)) == visible_headers(entries)
    &&& head.cache_control@ == "no-store"@
    &&& head.mime_type@ == declared_mime_type(visible_headers(entries))
    &&& head.length == -1
    &&& head.redirect_url@ == Seq::<char>::empty()
}

/// The head that CEF is told of a response: its status; its headers, as far as
/// they can be read as text, every value of a repeated name; no caching; the MIME
/// type that `Content-Type` declares; a body of unknown length; and no redirection,
/// whatever the status.
///
/// A page that sets two cookies in one response keeps both: the headers go over
/// as one row in which a name occurs once for each of its values.
pub fn write_response_headers(status: u16, headers: &HeaderMap<HeaderValue>) -> (head: ResponseHead)
    ensures
        tells_of(head, status, header_entries(*headers)),
{
    let row = all_values(headers);
    let content_type_name = "content-type";
    let mut texts: Vec<(String, String)> = Vec::new();
    let mut content_type: Option<String> = None;
    let ghost entries = header_row(row@);
    assert(entries.take(0) =~= Seq::empty());
    assert(visible_headers(collected(entries.take(0))) =~= Map::empty());
    assert(text_row(texts@) =~= Seq::empty());
    let mut i: usize = 0;
    while i < row.len()
        invariant
            i <= row@.len(),
            entries == header_row(row@),
            content_type_name@ == "content-type"@,
            collected(text_row(texts@)) == visible_headers(collected(entries.take(i as int))),
            ({
                let so_far = visible_headers(collected(entries.take(i as int)));
                match content_type {
                    Some(text) => so_far.dom().contains("content-type"@)
                        && so_far["content-type"@].last() == text@,
                    None => !so_far.dom().contains("content-type"@),
                }
            }),
        decreases row@.len() - i,
    {
        let name = &row[i].0;
        let value = &row[i].1;
        let ghost so_far = collected(entries.take(i as int));
        proof {
            assert(entries.take(i + 1) =~= entries.take(i as int).push(entries[i as int]));
            collected_push(entries.take(i as int), name@, value_bytes(*value));
            visible_headers_appended(so_far, name@, value_bytes(*value));
        }
        if let Some(text) = value_text(value) {
            let ghost before = texts@;
            texts.push((name.clone(), text.to_owned()));
            proof {
                assert(text_row(texts@) =~= text_row(before).push((name@, text@)));
                collected_push(text_row(before), name@, text@);
            }
            if same_text(name.as_str(), content_type_name) {
                content_type = Some(text.to_owned());
            }
        }
        i += 1;
    }
    assert(entries.take(i as int) =~= entries);
    let mime_type = match &content_type {
        Some(text) => media_type(text.as_str()),
        None => "text/plain".to_owned(),
    };
    let redirect_url = "".to_owned();
    proof {
        reveal_strlit("");
        assert(redirect_url@ =~= Seq::<char>::empty());
    }
    ResponseHead {
        status: status as i32,
        headers: texts,
        cache_control: "no-store".to_owned(),
        mime_type,
        length: -1,
        redirect_url,
    }
}

/// Values that can all be read as text all become text, in their order.
proof fn all_are_visible(values: Seq<Seq<u8>>)
    requires
        forall|i: int| 0 <= i < values.len() ==> is_visible(#[trigger] values[i]),
    ensures
        visible_texts(values) == Seq::new(values.len(), |i: int| ascii_chars(values[i])),
    decreases values.len(),
{
    if values.len() > 0 {
        let before = values.drop_last();
        assert forall|i: int| 0 <= i < before.len() implies is_visible(#[trigger] before[i]) by {
            assert(before[i] == values[i]);
        }
        all_are_visible(before);
    }
    assert(visible_texts(values) =~= Seq::new(values.len(), |i: int| ascii_chars(values[i])));
}

/// Repeated headers survive: a name keeps all its values, in their order, as long
/// as they can be read as text. A page that sets two cookies in one response keeps
/// both.
pub proof fn repeated_headers_survive(
    head: ResponseHead,
    status: u16,
    entries: Map<Seq<char>, Seq<Seq<u8>>>,
    name: Seq<char>,
)
    requires
        tells_of(head, status, entries),
        entries.dom().contains(name),
        entries[name].len() > 0,
        forall|i: int| 0 <= i < entries[name].len() ==> is_visible(#[trigger] entries[name][i]),
    ensures
        ({
            let told = collected(text_row(head.headers@));
            &&& told.dom().contains(name)
            &&& told[name] == Seq::new(entries[name].len(), |i: int| ascii_chars(entries[name][i]))
        }),
{
    all_are_visible(entries[name]);
}

/// What CEF is told besides the headers: the status as it is, no caching, a length that
/// is unknown, and no redirection.
pub proof fn a_head_tells_the_status(
    head: ResponseHead,
    status: u16,
    entries: Map<Seq<char>, Seq<Seq<u8>>>,
)
    requires
        tells_of(head, status, entries),
    ensures
        head.status as int == status as int,
        head.cache_control@ == "no-store"@,
        head.length == -1,
        head.redirect_url@.len() == 0,
{
}

/// Which headers CEF is told: those with a value that can be read as text, and of each
/// the values that can, in their order.
pub proof fn readable_headers_are_told(
    head: ResponseHead,
    status: u16,
    entries: Map<Seq<char>, Seq<Seq<u8>>>,
    name: Seq<char>,
)
    requires
        tells_of(head, status, entries),
    ensures
        collected(text_row(head.headers@)).dom().contains(name) <==> entries.dom().contains(name)
            && exists|i: int|
            0 <= i < entries[name].len() && is_visible(#[trigger] entries[name][i]),
        collected(text_row(head.headers@)).dom().contains(name) ==> collected(
            text_row(head.headers@),
        )[name] == entries[name].filter(|value: Seq<u8>| is_visible(value)).map_values(
            |value: Seq<u8>| Seq::new(value.len(), |k: int| value[k] as char),
        ),
        text_row(head.headers@).len() == head.headers@.len(),
        forall|i: int|
            0 <= i < head.headers@.len() ==> #[trigger] text_row(head.headers@)[i] == (
                head.headers@[i].0@,
                head.headers@[i].1@,
            ),
{
    visible_texts_are_filtered(entries[name]);
}

proof fn visible_texts_are_filtered(values: Seq<Seq<u8>>)
    ensures
        visible_texts(values) == values.filter(|value: Seq<u8>| is_visible(value)).map_values(
            |value: Seq<u8>| Seq::new(value.len(), |k: int| value[k] as char),
        ),
        visible_texts(values).len() > 0 <==> exists|i: int|
            0 <= i < values.len() && is_visible(#[trigger] values[i]),
    decreases values.len(),
{
    reveal(Seq::filter);
    let readable = |value: Seq<u8>| is_visible(value);
    let text = |value: Seq<u8>| Seq::new(value.len(), |k: int| value[k] as char);
    if values.len() > 0 {
        let before = values.drop_last();
        let last = values.last();
        visible_texts_are_filtered(before);
        assert(text(last) =~= ascii_chars(last));
        assert(before.filter(readable).push(last).map_values(text) =~= before.filter(
            readable,
        ).map_values(text).push(text(last)));
        if is_visible(last) {
            assert(is_visible(values[values.len() - 1]));
        } else {
            assert forall|i: int|
                0 <= i < values.len() && is_visible(#[trigger] values[i]) implies before[i]
                == values[i] by {}
            assert forall|i: int| 0 <= i < before.len() implies #[trigger] before[i]
                == values[i] by {}
        }
    } else {
        assert(values.filter(readable).map_values(text) =~= Seq::empty());
    }
}

/// The MIME type that CEF is told is that of the last `Content-Type` that can be read as
/// text, without its parameters and the blanks around it; plain text where there is no
/// such header.
pub proof fn the_last_content_type_counts(
    head: ResponseHead,
    status: u16,
    entries: Map<Seq<char>, Seq<Seq<u8>>>,
    values: Seq<Seq<u8>>,
    value: Seq<u8>,
)
    requires
        tells_of(head, status, entries),
    ensures
        !entries.dom().contains("content-type"@) ==> head.mime_type@ == "text/plain"@,
        entries.dom().contains("content-type"@) && (forall|i: int|
            0 <= i < entries["content-type"@].len() ==> !is_visible(
                #[trigger] entries["content-type"@][i],
            )) ==> head.mime_type@ == "text/plain"@,
        entries.dom().contains("content-type"@) && entries["content-type"@] == values.push(value)
            && is_visible(value) ==> head.mime_type@ == essence(
            Seq::new(value.len(), |k: int| value[k] as char),
        ),
{
    if entries.dom().contains("content-type"@) {
        visible_texts_are_filtered(entries["content-type"@]);
        if entries["content-type"@] == values.push(value) && is_visible(value) {
            assert(values.push(value).drop_last() =~= values);
            assert(ascii_chars(value) =~= Seq::new(value.len(), |k: int| value[k] as char));
        }
    }
}

} // verus!
