//! Requests: what CEF reports of one, made into what a scheme handler is given.

use crate::headers::{
    append_header, ascii_chars, collected, collected_part, collected_push, first_value, has_room,
    header_entries, insert_header, is_header_name, is_header_text, is_token, is_token_byte,
    lower_chars, method_chars, method_from_bytes, name_from_bytes, new_headers, origin,
    value_as_bytes, value_bytes, value_from_text, MAX_NAMES,
};
use crate::origin::{optional_chars, parse_url, parsed_url, ParsedUrl, UrlParts};
use crate::registry::{streaming_handler_for, StreamingRegistry};
use crate::streaming::InitiatorOrigin;
use http::header::{HeaderMap, HeaderValue};
use vstd::prelude::*;
use vstd::utf8::encode_utf8;

verus! {

/// One element of a request's post data.
pub enum PostElement {
    /// A buffer of bytes, of which so many were filled in.
    Bytes { buffer: Vec<u8>, copied: usize },
    /// A file, with what was read of it; `None` where it could not be opened or
    /// not be read to its end.
    File(Option<Vec<u8>>),
    /// Anything else.
    Other,
}

/// What an element of post data adds to the body. A slot that CEF left empty adds
/// nothing.
pub open spec fn element_bytes(element: Option<PostElement>) -> Seq<u8> {
    match element {
        Some(PostElement::Bytes { buffer, copied }) => buffer@.take(copied as int),
        Some(PostElement::File(Some(contents))) => contents@,
        _ => Seq::empty(),
    }
}

/// The bytes of all elements of post data, in order.
pub open spec fn body_of(elements: Seq<Option<PostElement>>) -> Seq<u8> {
    elements.map_values(|element: Option<PostElement>| element_bytes(element)).flatten()
}

/// The body of a request: the bytes of all elements of its post data, in order.
pub fn read_request_body(elements: &Vec<Option<PostElement>>) -> (body: Vec<u8>)
    requires
        forall|i: int|
            0 <= i < elements@.len() ==> (#[trigger] elements@[i] matches Some(
                PostElement::Bytes { buffer, copied },
            ) ==> copied <= buffer@.len()),
    ensures
        body@ == body_of(elements@),
{
    let mut body: Vec<u8> = Vec::new();
    let ghost parts = elements@.map_values(|element: Option<PostElement>| element_bytes(element));
    let mut i: usize = 0;
    while i < elements.len()
        invariant
            i <= elements@.len(),
            forall|i: int|
                0 <= i < elements@.len() ==> (#[trigger] elements@[i] matches Some(
                    PostElement::Bytes { buffer, copied },
                ) ==> copied <= buffer@.len()),
            parts == elements@.map_values(
                |element: Option<PostElement>| element_bytes(element),
            ),
            body@ == parts.take(i as int).flatten(),
        decreases elements@.len() - i,
    {
        let ghost before = body@;
        match &elements[i] {
            Some(PostElement::Bytes { buffer, copied }) => {
                extend_with(&mut body, buffer, *copied);
            },
            Some(PostElement::File(Some(contents))) => {
                extend_with(&mut body, contents, contents.len());
                assert(contents@.take(contents@.len() as int) =~= contents@);
            },
            _ => {
                assert(body@ =~= before + Seq::<u8>::empty());
            },
        }
        assert(body@ == before + element_bytes(elements@[i as int]));
        proof {
            let part = element_bytes(elements@[i as int]);
            assert(parts.take(i + 1) =~= parts.take(i as int).push(part));
            parts.take(i as int).lemma_flatten_push(part);
        }
        i += 1;
    }
    assert(parts.take(i as int) =~= parts);
    body
}

/// Appends the first `count` bytes of `bytes`.
fn extend_with(body: &mut Vec<u8>, bytes: &Vec<u8>, count: usize)
    requires
        count <= bytes@.len(),
    ensures
        final(body)@ == old(body)@ + bytes@.take(count as int),
{
    let mut i: usize = 0;
    while i < count
        invariant
            i <= count <= bytes@.len(),
            body@ =~= old(body)@ + bytes@.take(i as int),
        decreases count - i,
    {
        body.push(bytes[i]);
        i += 1;
    }
}

/// The headers of one name, as they are kept.
pub open spec fn field_row(name: Seq<char>, values: Seq<String>) -> Seq<(Seq<char>, Seq<u8>)> {
    Seq::new(values.len(), |j: int| (lower_chars(encode_utf8(name)), encode_utf8(values[j]@)))
}

/// All headers of a request, as they are kept.
pub open spec fn request_row(fields: Seq<(String, Vec<String>)>) -> Seq<(Seq<char>, Seq<u8>)>
    decreases fields.len(),
{
    if fields.len() == 0 {
        Seq::empty()
    } else {
        request_row(fields.drop_last()) + field_row(fields.last().0@, fields.last().1@)
    }
}

/// Whether every name that has a value is a header name, and every value a header
/// value.
pub open spec fn fields_are_valid(fields: Seq<(String, Vec<String>)>) -> bool {
    forall|i: int|
        0 <= i < fields.len() ==> {
            let (name, values) = #[trigger] fields[i];
            &&& values@.len() > 0 ==> is_header_name(encode_utf8(name@))
            &&& forall|j: int| 0 <= j < values@.len() ==> is_header_text(#[trigger] values@[j]@)
        }
}

/// A part of the fields makes a part of the row.
proof fn request_row_part(fields: Seq<(String, Vec<String>)>, n: int)
    requires
        0 <= n <= fields.len(),
    ensures
        request_row(fields.take(n)).is_prefix_of(request_row(fields)),
    decreases fields.len(),
{
    if n == fields.len() {
        assert(fields.take(n) =~= fields);
    } else {
        assert(fields.drop_last().take(n) =~= fields.take(n));
        request_row_part(fields.drop_last(), n);
    }
}

/// The headers of a request: CEF's multimap of names and values as a header map,
/// every value under its name, in order.
pub fn get_request_headers(fields: &Vec<(String, Vec<String>)>) -> (headers: HeaderMap<HeaderValue>)
    requires
        fields_are_valid(fields@),
        collected(request_row(fields@)).dom().len() <= MAX_NAMES,
    ensures
        header_entries(headers) == collected(request_row(fields@)),
{
    let mut headers = new_headers();
    let ghost whole = request_row(fields@);
    assert(fields@.take(0) =~= Seq::empty());
    let mut i: usize = 0;
    while i < fields.len()
        invariant
            i <= fields@.len(),
            fields_are_valid(fields@),
            whole == request_row(fields@),
            collected(whole).dom().len() <= MAX_NAMES,
            header_entries(headers) == collected(request_row(fields@.take(i as int))),
        decreases fields@.len() - i,
    {
        let name = &fields[i].0;
        let values = &fields[i].1;
        let ghost done = request_row(fields@.take(i as int));
        let ghost row = field_row(name@, values@);
        proof {
            assert(fields@.take(i + 1).drop_last() =~= fields@.take(i as int));
            assert(request_row(fields@.take(i + 1)) == done + row);
            request_row_part(fields@, i + 1);
            assert(done + row.take(0) =~= done);
        }
        let mut j: usize = 0;
        while j < values.len()
            invariant
                i < fields@.len(),
                j <= values@.len(),
                fields_are_valid(fields@),
                *name == fields@[i as int].0,
                *values == fields@[i as int].1,
                row == field_row(name@, values@),
                (done + row).is_prefix_of(whole),
                collected(whole).dom().len() <= MAX_NAMES,
                header_entries(headers) == collected(done + row.take(j as int)),
            decreases values@.len() - j,
        {
            proof {
                let so_far = done + row.take(j as int);
                assert(whole.take(so_far.len() as int) =~= so_far);
                collected_part(whole, so_far.len() as int);
                vstd::set_lib::lemma_len_subset(collected(so_far).dom(), collected(whole).dom());
                assert(done + row.take(j + 1) =~= so_far.push(row[j as int]));
                collected_push(so_far, row[j as int].0, row[j as int].1);
                let field = fields@[i as int];
                assert(is_header_text(values@[j as int]@));
            }
            let header_name = name_from_bytes(name.as_str().as_bytes()).unwrap();
            let header_value = value_from_text(values[j].as_str()).unwrap();
            append_header(&mut headers, header_name, header_value);
            j += 1;
        }
        assert(row.take(j as int) =~= row);
        i += 1;
    }
    assert(fields@.take(i as int) =~= fields@);
    headers
}

/// Whether an `Origin` header is to be repaired: it is there and says `null`, and
/// the initiator's origin is known and can be a header value.
pub open spec fn origin_is_repaired(
    entries: Map<Seq<char>, Seq<Seq<u8>>>,
    initiator: Option<Seq<char>>,
) -> bool {
    &&& initiator matches Some(initiator) && is_header_text(initiator)
    &&& entries.dom().contains("origin"@)
    &&& entries["origin"@][0] == encode_utf8("null"@)
}

/// The headers of a request with a racy `Origin: null` repaired.
pub open spec fn with_repaired_origin(
    entries: Map<Seq<char>, Seq<Seq<u8>>>,
    initiator: Option<Seq<char>>,
) -> Map<Seq<char>, Seq<Seq<u8>>> {
    if origin_is_repaired(entries, initiator) {
        entries.insert("origin"@, seq![encode_utf8(initiator->0)])
    } else {
        entries
    }
}

/// Repairs the `Origin` header of a request.
///
/// The renderer can issue a request before its execution context is fully wired
/// to the loader; in that window Chromium sends the request with `Origin: null`
/// even though the document already has a real origin. That is repaired from the
/// initiating main frame, which the browser process tracks reliably.
///
/// Only a literal `null` is repaired. An absent `Origin` is left absent: a
/// top-level navigation and a same-origin GET carry none by design, and inventing
/// one would turn a navigation into what looks like a cross-origin call from the
/// previous page. A correct origin that the renderer sent always wins.
pub fn repair_origin(headers: &mut HeaderMap<HeaderValue>, initiator: &Option<String>)
    requires
        origin_is_repaired(header_entries(*old(headers)), optional_chars(*initiator)) ==> has_room(
            header_entries(*old(headers)),
        ),
    ensures
        header_entries(*final(headers)) == with_repaired_origin(
            header_entries(*old(headers)),
            optional_chars(*initiator),
        ),
{
    let initiator = match initiator {
        Some(initiator) => initiator,
        None => {
            return ;
        },
    };
    let name = origin();
    match first_value(headers, &name) {
        None => {
            return ;
        },
        Some(value) => {
            if !says_null(value) {
                return ;
            }
        },
    }
    if let Some(value) = value_from_text(initiator.as_str()) {
        insert_header(headers, name, value);
    }
}

/// Whether a header value is `null`.
fn says_null(value: &HeaderValue) -> (null: bool)
    ensures
        null == (value_bytes(*value) == encode_utf8("null"@)),
{
    let bytes = value_as_bytes(value);
    let null = "null".as_bytes();
    if bytes.len() != null.len() {
        return false;
    }
    let mut i: usize = 0;
    while i < null.len()
        invariant
            i <= null@.len(),
            bytes@.len() == null@.len(),
            bytes@ == value_bytes(*value),
            null@ == encode_utf8("null"@),
            forall|j: int| 0 <= j < i ==> bytes@[j] == null@[j],
        decreases null@.len() - i,
    {
        if bytes[i] != null[i] {
            return false;
        }
        i += 1;
    }
    assert(bytes@ =~= null@);
    true
}

/// The method that CEF reports; GET where that is none.
pub open spec fn method_of(text: Seq<char>) -> Seq<char> {
    if is_token(encode_utf8(text)) {
        ascii_chars(encode_utf8(text))
    } else {
        "GET"@
    }
}

/// The method of a request.
pub fn request_method(text: &str) -> (method: http::Method)
    ensures
        method_chars(method) == method_of(text@),
{
    match method_from_bytes(text.as_bytes()) {
        Some(method) => method,
        None => {
            proof {
                reveal_strlit("GET");
                vstd::utf8::is_ascii_chars_encode_utf8("GET"@);
                assert(ascii_chars(encode_utf8("GET"@)) =~= "GET"@);
            }
            method_from_bytes("GET".as_bytes()).unwrap()
        },
    }
}

/// What CEF reports of a request, besides its URL.
pub struct RequestInfo {
    pub method: String,
    /// The headers: names, each with its values.
    pub fields: Vec<(String, Vec<String>)>,
    /// The post data.
    pub elements: Vec<Option<PostElement>>,
}

impl RequestInfo {
    /// What CEF keeps to: of a buffer it fills no more than there is, and headers
    /// are headers; and there are no more names than a header map takes.
    pub open spec fn wf(self) -> bool {
        &&& forall|i: int|
            0 <= i < self.elements@.len() ==> (#[trigger] self.elements@[i] matches Some(
                PostElement::Bytes { buffer, copied },
            ) ==> copied <= buffer@.len())
        &&& fields_are_valid(self.fields@)
        &&& collected(request_row(self.fields@)).dom().len() <= MAX_NAMES
    }
}

/// A request as a scheme handler is given it.
pub struct SchemeRequest {
    pub webview_label: String,
    pub url: String,
    pub method: http::Method,
    pub headers: HeaderMap<HeaderValue>,
    pub body: Vec<u8>,
    /// Only a streaming handler is told.
    pub initiator: Option<InitiatorOrigin>,
}

/// A copy of an optional string.
fn copy_of(text: &Option<String>) -> (copy: Option<String>)
    ensures
        optional_chars(copy) == optional_chars(*text),
{
    match text {
        Some(text) => Some(text.clone()),
        None => None,
    }
}

/// Whether a request is ready for its handler, and the handler is the one that is
/// to get it: the streaming handler of the URL's scheme; none where there is none,
/// and then the request is for the buffered handler of the webview.
pub open spec fn is_ready<H>(
    ready: SchemeRequest,
    handler: Option<&H>,
    handlers: Map<Seq<char>, H>,
    webview_label: Seq<char>,
    url: UrlParts,
    request: RequestInfo,
    initiator_origin: Option<Seq<char>>,
) -> bool {
    &&& ready.webview_label@ == webview_label
    &&& ready.url@ == url.href
    &&& method_chars(ready.method) == method_of(request.method@)
    &&& header_entries(ready.headers) == with_repaired_origin(
        collected(request_row(request.fields@)),
        initiator_origin,
    )
    &&& ready.body@ == body_of(request.elements@)
    &&& match handler {
        Some(handler) => {
            &&& handlers.dom().contains(url.scheme)
            &&& *handler == handlers[url.scheme]
            &&& ready.initiator matches Some(initiator) && optional_chars(initiator.0)
                == initiator_origin
        },
        None => !handlers.dom().contains(url.scheme) && ready.initiator is None,
    }
}

/// Takes up a request: makes it ready for its handler, and finds the streaming
/// handler of its scheme. `None` where its URL is none.
pub fn process_request<'a, H>(
    registry: &'a StreamingRegistry<H>,
    webview_label: &str,
    url: &str,
    request: &RequestInfo,
    initiator_origin: &Option<String>,
) -> (processed: Option<(SchemeRequest, Option<&'a H>)>)
    requires
        request.wf(),
    ensures
        processed is Some <==> parsed_url(url@) is Some,
        processed matches Some((ready, handler)) ==> is_ready(
            ready,
            handler,
            registry@,
            webview_label@,
            parsed_url(url@)->0,
            *request,
            optional_chars(*initiator_origin),
        ),
{
    match parse_url(url) {
        Some(url) => Some(
            prepare_request(registry, webview_label, &url, request, initiator_origin),
        ),
        None => None,
    }
}

/// Makes a request ready for its handler, and finds the streaming handler of its
/// scheme; where there is none the request goes to the buffered handler of the
/// webview. Script injection is for buffered responses alone: streaming bodies are
/// never buffered or parsed.
pub fn prepare_request<'a, H>(
    registry: &'a StreamingRegistry<H>,
    webview_label: &str,
    url: &ParsedUrl,
    request: &RequestInfo,
    initiator_origin: &Option<String>,
) -> (prepared: (SchemeRequest, Option<&'a H>))
    requires
        request.wf(),
    ensures
        is_ready(
            prepared.0,
            prepared.1,
            registry@,
            webview_label@,
            url@,
            *request,
            optional_chars(*initiator_origin),
        ),
{
    let body = read_request_body(&request.elements);
    let mut headers = get_request_headers(&request.fields);
    proof {
        let row = request_row(request.fields@);
        collected_part(row, 0);
    }
    repair_origin(&mut headers, initiator_origin);
    let method = request_method(request.method.as_str());
    let handler = streaming_handler_for(registry, url.scheme.as_str());
    let initiator = match handler {
        Some(_) => Some(InitiatorOrigin(copy_of(initiator_origin))),
        None => None,
    };
    let ready = SchemeRequest {
        webview_label: webview_label.to_owned(),
        url: url.href.clone(),
        method,
        headers,
        body,
        initiator,
    };
    (ready, handler)
}

/// A header that says who the request comes from is never invented and never
/// overruled: without an `Origin` there is none after the repair, one that does
/// not say `null` stays, and every other header stays.
pub proof fn only_a_null_origin_is_repaired(
    entries: Map<Seq<char>, Seq<Seq<u8>>>,
    initiator: Option<Seq<char>>,
)
    ensures
        ({
            let repaired = with_repaired_origin(entries, initiator);
            &&& repaired.dom() == entries.dom()
            &&& forall|name: Seq<char>|
                name != "origin"@ && #[trigger] entries.dom().contains(name) ==> repaired[name]
                    == entries[name]
            &&& entries.dom().contains("origin"@) && entries["origin"@][0] != encode_utf8("null"@)
                ==> repaired == entries
        }),
{
    assert(with_repaired_origin(entries, initiator).dom() =~= entries.dom());
}

/// A request whose initiator is not known is left as it is.
pub proof fn unknown_initiators_repair_nothing(entries: Map<Seq<char>, Seq<Seq<u8>>>)
    ensures
        with_repaired_origin(entries, None) == entries,
{
}

/// What each element of post data adds to the body, behind what those before it added:
/// a buffer the bytes that were filled in, a file all that was read of it, whatever
/// their number, and anything else nothing.
pub proof fn post_data_goes_into_the_body_whole(
    elements: Seq<Option<PostElement>>,
    buffer: Vec<u8>,
    copied: usize,
    contents: Vec<u8>,
)
    requires
        copied <= buffer@.len(),
    ensures
        body_of(Seq::empty()) == Seq::<u8>::empty(),
        body_of(elements.push(Some(PostElement::Bytes { buffer, copied }))) == body_of(elements)
            + buffer@.subrange(0, copied as int),
        body_of(elements.push(Some(PostElement::File(Some(contents))))) == body_of(elements)
            + contents@,
        body_of(elements.push(Some(PostElement::File(None)))) == body_of(elements),
        body_of(elements.push(Some(PostElement::Other))) == body_of(elements),
        body_of(elements.push(None)) == body_of(elements),
{
    body_of_push(elements, Some(PostElement::Bytes { buffer, copied }));
    body_of_push(elements, Some(PostElement::File(Some(contents))));
    body_of_push(elements, Some(PostElement::File(None)));
    body_of_push(elements, Some(PostElement::Other));
    body_of_push(elements, None);
    assert(body_of(elements) + Seq::<u8>::empty() =~= body_of(elements));
    assert(buffer@.take(copied as int) =~= buffer@.subrange(0, copied as int));
    let none = Seq::<Option<PostElement>>::empty();
    assert(none.map_values(|element: Option<PostElement>| element_bytes(element))
        =~= Seq::<Seq<u8>>::empty());
}

proof fn body_of_push(elements: Seq<Option<PostElement>>, element: Option<PostElement>)
    ensures
        body_of(elements.push(element)) == body_of(elements) + element_bytes(element),
{
    let parts = elements.map_values(|element: Option<PostElement>| element_bytes(element));
    let more = elements.push(element).map_values(
        |element: Option<PostElement>| element_bytes(element),
    );
    assert(more =~= parts.push(element_bytes(element)));
    parts.lemma_flatten_push(element_bytes(element));
}

/// Every run of bytes stands in the body unchanged and in its place: behind what the
/// elements before it add, and before what those behind it add. So the length of the
/// body is the sum of theirs.
pub proof fn each_element_has_its_place_in_the_body(elements: Seq<Option<PostElement>>, i: int)
    requires
        0 <= i < elements.len(),
    ensures
        ({
            let before = body_of(elements.take(i));
            let after = body_of(elements.skip(i + 1));
            match elements[i] {
                Some(PostElement::Bytes { buffer, copied }) => copied <= buffer@.len() ==> body_of(
                    elements,
                ) == before + buffer@.subrange(0, copied as int) + after && body_of(elements).len()
                    == before.len() + copied + after.len(),
                Some(PostElement::File(Some(contents))) => body_of(elements) == before + contents@
                    + after && body_of(elements).len() == before.len() + contents@.len()
                    + after.len(),
                Some(PostElement::File(None)) => body_of(elements) == before + after,
                Some(PostElement::Other) => body_of(elements) == before + after,
                None => body_of(elements) == before + after,
            }
        }),
{
    let bytes = |element: Option<PostElement>| element_bytes(element);
    let parts = elements.map_values(bytes);
    let first = elements.take(i);
    let last = elements.skip(i + 1);
    body_of_push(first, elements[i]);
    assert(parts =~= first.push(elements[i]).map_values(bytes) + last.map_values(bytes));
    vstd::seq_lib::lemma_flatten_concat(
        first.push(elements[i]).map_values(bytes),
        last.map_values(bytes),
    );
    let part = element_bytes(elements[i]);
    assert(body_of(elements) == body_of(first) + part + body_of(last));
    if part.len() == 0 {
        assert(body_of(first) + part =~= body_of(first));
    }
    if let Some(PostElement::Bytes { buffer, copied }) = elements[i] {
        if copied <= buffer@.len() {
            assert(part =~= buffer@.subrange(0, copied as int));
        }
    }
}

/// Every header that CEF reports is among the headers of the request: the values of one
/// more field come behind those of the fields before it, one for one and in their
/// order, each with the field's name in lower case.
pub proof fn every_header_is_kept(fields: Seq<(String, Vec<String>)>, field: (String, Vec<String>))
    ensures
        request_row(Seq::empty()) == Seq::<(Seq<char>, Seq<u8>)>::empty(),
        ({
            let before = request_row(fields);
            let after = request_row(fields.push(field));
            &&& after.len() == before.len() + field.1@.len()
            &&& after.take(before.len() as int) == before
            &&& forall|j: int|
                0 <= j < field.1@.len() ==> {
                    let (name, value) = #[trigger] after[before.len() + j];
                    &&& value == encode_utf8(field.1@[j]@)
                    &&& name.len() == encode_utf8(field.0@).len()
                    &&& forall|i: int|
                        0 <= i < name.len() ==> {
                            let byte = encode_utf8(field.0@)[i] as int;
                            #[trigger] name[i] as int == if 65 <= byte <= 90 {
                                byte + 32
                            } else {
                                byte
                            }
                        }
                }
        }),
{
    let before = request_row(fields);
    let after = request_row(fields.push(field));
    let row = field_row(field.0@, field.1@);
    assert(fields.push(field).drop_last() =~= fields);
    assert(after =~= before + row);
    assert(after.take(before.len() as int) =~= before);
    assert forall|j: int| 0 <= j < field.1@.len() implies #[trigger] after[before.len() + j]
        == row[j] by {}
}

/// A racy `Origin: null` becomes the origin of the initiator, and nothing else in its
/// place, where that is known and can be a header value; else it stays.
pub proof fn a_null_origin_is_repaired(
    entries: Map<Seq<char>, Seq<Seq<u8>>>,
    initiator: Seq<char>,
)
    requires
        entries.dom().contains("origin"@),
        entries["origin"@][0] == encode_utf8("null"@),
    ensures
        is_header_text(initiator) ==> with_repaired_origin(entries, Some(initiator))
            == entries.insert("origin"@, seq![encode_utf8(initiator)]),
        !is_header_text(initiator) ==> with_repaired_origin(entries, Some(initiator)) == entries,
{
}

/// A request is taken up whatever its size: all that is asked of it is that CEF fills no
/// more of a buffer than there is, that header names are tokens of up to 65535 bytes and
/// header values hold no control characters but tabs, and that there are no more than
/// 6553 names.
pub proof fn requests_of_any_size_are_taken_up(request: RequestInfo)
    requires
        forall|i: int|
            0 <= i < request.elements@.len() ==> (#[trigger] request.elements@[i] matches Some(
                PostElement::Bytes { buffer, copied },
            ) ==> copied <= buffer@.len()),
        forall|i: int|
            0 <= i < request.fields@.len() ==> {
                let (name, values) = #[trigger] request.fields@[i];
                &&& is_token(encode_utf8(name@)) && encode_utf8(name@).len() <= 65535
                &&& forall|j: int, k: int|
                    0 <= j < values@.len() && 0 <= k < values@[j]@.len() ==> {
                        let c = #[trigger] values@[j]@[k];
                        c == '\t' || ' ' <= c && c != '\u{7f}'
                    }
            },
        collected(request_row(request.fields@)).dom().len() <= 6553,
    ensures
        request.wf(),
{
}

/// A character that a method may be made of.
pub open spec fn is_method_char(c: char) -> bool {
    ||| 'a' <= c <= 'z'
    ||| 'A' <= c <= 'Z'
    ||| '0' <= c <= '9'
    ||| c == '!' || c == '#' || c == '$' || c == '%' || c == '&' || c == '\''
    ||| c == '*' || c == '+' || c == '-' || c == '.' || c == '^' || c == '_'
    ||| c == '`' || c == '|' || c == '~'
}

/// A method that can be one is the method of the request as it is, whatever its length;
/// for any other text the method is GET.
pub proof fn methods_stay_as_they_are(text: Seq<char>)
    ensures
        text.len() > 0 && (forall|i: int|
            0 <= i < text.len() ==> is_method_char(#[trigger] text[i])) ==> method_of(text) == text,
        text.len() == 0 || (exists|i: int|
            0 <= i < text.len() && !is_method_char(#[trigger] text[i])) ==> method_of(text)
            == "GET"@,
{
    let bytes = encode_utf8(text);
    if vstd::utf8::is_ascii_chars(text) {
        vstd::utf8::is_ascii_chars_encode_utf8(text);
        assert forall|i: int| 0 <= i < text.len() implies bytes[i] == #[trigger] text[i] as u8
            && (is_token_byte(bytes[i]) <==> is_method_char(text[i])) by {
            let c = text[i];
        }
        if is_token(bytes) {
            assert(ascii_chars(bytes) =~= text);
            assert forall|i: int| 0 <= i < text.len() implies is_method_char(#[trigger] text[i]) by {
                assert(is_token_byte(bytes[i]));
            }
        }
    } else {
        let i = choose|i: int|
            0 <= i < text.len() && !('\0' <= #[trigger] text[i] <= '\u{7f}');
        beyond_ascii(text[i]);
        not_ascii(text, i);
        let k = choose|k: int| 0 <= k < bytes.len() && #[trigger] bytes[k] >= 128;
        assert(!is_token_byte(bytes[k]));
    }
}

/// A character beyond ASCII has a larger number, and no method holds it.
proof fn beyond_ascii(c: char)
    requires
        !('\0' <= c <= '\u{7f}'),
    ensures
        c as u32 > 127,
        !is_method_char(c),
{
}

/// What encodes a character beyond ASCII is beyond ASCII.
proof fn not_ascii(text: Seq<char>, i: int)
    requires
        0 <= i < text.len(),
        text[i] as u32 > 127,
    ensures
        exists|k: int| 0 <= k < encode_utf8(text).len() && #[trigger] encode_utf8(text)[k] >= 128,
    decreases text.len(),
{
    let first = vstd::utf8::encode_scalar(text[0] as u32);
    let rest = encode_utf8(text.drop_first());
    assert(encode_utf8(text) == first + rest);
    if i == 0 {
        let c = text[0] as u32;
        vstd::utf8::char_is_scalar(text[0]);
        assert(vstd::utf8::leading_byte_width_2(c) >= 128) by (bit_vector);
        assert(vstd::utf8::leading_byte_width_3(c) >= 128) by (bit_vector);
        assert(vstd::utf8::leading_byte_width_4(c) >= 128) by (bit_vector);
        assert(first[0] >= 128);
        assert(encode_utf8(text)[0] == first[0]);
    } else {
        not_ascii(text.drop_first(), i - 1);
        let k = choose|k: int| 0 <= k < rest.len() && #[trigger] rest[k] >= 128;
        assert(encode_utf8(text)[first.len() + k] == rest[k]);
    }
}

/// A request that is ready for its handler is the request that CEF reported: under its
/// label, with its URL written out, its method, its headers but for a repaired origin,
/// and its whole body. It is for the streaming handler of its scheme where there is
/// one, and only that handler is told the initiator.
pub proof fn a_ready_request_is_the_request<H>(
    ready: SchemeRequest,
    handler: Option<&H>,
    handlers: Map<Seq<char>, H>,
    webview_label: Seq<char>,
    url: UrlParts,
    request: RequestInfo,
    initiator_origin: Option<Seq<char>>,
)
    requires
        is_ready(ready, handler, handlers, webview_label, url, request, initiator_origin),
    ensures
        ready.webview_label@ == webview_label,
        ready.url@ == url.href,
        method_chars(ready.method) == method_of(request.method@),
        ready.body@ == body_of(request.elements@),
        header_entries(ready.headers) == with_repaired_origin(
            collected(request_row(request.fields@)),
            initiator_origin,
        ),
        handlers.dom().contains(url.scheme) ==> handler == Some(&handlers[url.scheme])
            && ready.initiator is Some && optional_chars((ready.initiator->0).0)
            == initiator_origin,
        !handlers.dom().contains(url.scheme) ==> handler is None && ready.initiator is None,
{
}

} // verus!
