//! Buffered responses: a scheme handler's whole response, with the initialization
//! scripts put in, kept until CEF has read its body.

use crate::csp::{csp_inject_initialization_scripts_hashes, lets_scripts_run};
use crate::csp_laws::a_policy_is_changed_for_the_scripts_alone;
use crate::headers::{
    ascii_chars, content_security_policy, content_type, first_value, header_entries,
    is_header_text, is_visible, lower_chars, replace_first_value, value_as_bytes,
    value_from_text, value_text,
};
use crate::html::{
    inject_scripts_into_html_body, page_with_scripts, parsed_html, script_texts, InitScript,
};
use http::header::{HeaderMap, HeaderValue};
use vstd::prelude::*;
use vstd::utf8::{decode_utf8, encode_utf8, valid_utf8};

verus! {

/// A response whose body is read bit by bit.
pub struct BufferedResponse {
    pub status: u16,
    pub headers: HeaderMap<HeaderValue>,
    pub body: Vec<u8>,
    /// How much of the body was read.
    pub position: usize,
}

/// Whether headers declare an HTML page: the first `Content-Type` can be read as
/// text and begins with `text/html`, in upper or lower case.
pub open spec fn declares_html(entries: Map<Seq<char>, Seq<Seq<u8>>>) -> bool {
    &&& entries.dom().contains("content-type"@)
    &&& is_visible(entries["content-type"@][0])
    &&& "text/html"@.is_prefix_of(lower_chars(entries["content-type"@][0]))
}

/// Whether a response is an HTML page.
pub fn is_html(headers: &HeaderMap<HeaderValue>) -> (html: bool)
    ensures
        html == declares_html(header_entries(*headers)),
{
    proof {
        reveal_strlit("text/html");
    }
    match first_value(headers, &content_type()) {
        None => false,
        Some(value) => match value_text(value) {
            None => false,
            Some(_) => has_lower_prefix(value_as_bytes(value), "text/html"),
        },
    }
}

/// Whether bytes, in lower case, begin with an ASCII text.
fn has_lower_prefix(bytes: &[u8], prefix: &str) -> (found: bool)
    requires
        vstd::utf8::is_ascii_chars(prefix@),
    ensures
        found == prefix@.is_prefix_of(lower_chars(bytes@)),
{
    let start = prefix.as_bytes();
    proof {
        vstd::utf8::is_ascii_chars_encode_utf8(prefix@);
    }
    if bytes.len() < start.len() {
        return false;
    }
    let mut i: usize = 0;
    while i < start.len()
        invariant
            i <= start@.len() <= bytes@.len(),
            start@.len() == prefix@.len(),
            forall|j: int| 0 <= j < start@.len() ==> #[trigger] start@[j] as char == prefix@[j],
            forall|j: int| 0 <= j < i ==> #[trigger] lower_chars(bytes@)[j] == prefix@[j],
        decreases start@.len() - i,
    {
        let b = bytes[i];
        let low: u8 = if 65 <= b && b <= 90 {
            b + 32
        } else {
            b
        };
        assert(lower_chars(bytes@)[i as int] == low as char);
        assert(start@[i as int] as char == prefix@[i as int]);
        if low != start[i] {
            return false;
        }
        i += 1;
    }
    assert(prefix@ =~= lower_chars(bytes@).take(prefix@.len() as int));
    true
}

/// The body of a response with the initialization scripts put in: they go into
/// HTML pages that are UTF-8; any other body stays as it is.
pub open spec fn body_with_scripts(
    entries: Map<Seq<char>, Seq<Seq<u8>>>,
    body: Seq<u8>,
    scripts: Seq<InitScript>,
) -> Seq<u8> {
    if declares_html(entries) && valid_utf8(body) {
        page_with_scripts(parsed_html(decode_utf8(body)), script_texts(scripts))
    } else {
        body
    }
}

/// The text of a header value; nothing where it cannot be read as text.
pub open spec fn text_or_nothing(value: Seq<u8>) -> Seq<char> {
    if is_visible(value) {
        ascii_chars(value)
    } else {
        Seq::empty()
    }
}

/// The headers of a response with another content security policy in the place of
/// the first: as they are where there is none, or where the new one cannot be a
/// header value.
pub open spec fn with_csp(
    entries: Map<Seq<char>, Seq<Seq<u8>>>,
    csp: Seq<char>,
) -> Map<Seq<char>, Seq<Seq<u8>>> {
    let name = "content-security-policy"@;
    if entries.dom().contains(name) && is_header_text(csp) {
        entries.insert(name, entries[name].update(0, encode_utf8(csp)))
    } else {
        entries
    }
}

/// Whether headers are those of a response whose policy lets scripts run.
pub open spec fn policy_lets_scripts_run(
    new_entries: Map<Seq<char>, Seq<Seq<u8>>>,
    entries: Map<Seq<char>, Seq<Seq<u8>>>,
    scripts: Seq<InitScript>,
) -> bool {
    let name = "content-security-policy"@;
    if entries.dom().contains(name) {
        exists|csp: Seq<char>| #[trigger]
            lets_scripts_run(csp, text_or_nothing(entries[name][0]), scripts) && new_entries
                == with_csp(entries, csp)
    } else {
        new_entries == entries
    }
}

/// Puts a content security policy in the place of the first one.
pub fn set_csp(headers: &mut HeaderMap<HeaderValue>, csp: &str)
    ensures
        header_entries(*final(headers)) == with_csp(header_entries(*old(headers)), csp@),
{
    if let Some(value) = value_from_text(csp) {
        replace_first_value(headers, &content_security_policy(), value);
    }
}

/// Changes the content security policy of a response, where it has one, so that
/// the initialization scripts may run.
pub fn allow_scripts(headers: &mut HeaderMap<HeaderValue>, scripts: &[InitScript])
    ensures
        policy_lets_scripts_run(
            header_entries(*final(headers)),
            header_entries(*old(headers)),
            scripts@,
        ),
{
    proof {
        reveal_strlit("");
    }
    let name = content_security_policy();
    let existing = match first_value(headers, &name) {
        None => {
            return ;
        },
        Some(value) => match value_text(value) {
            Some(text) => text.to_owned(),
            None => "".to_owned(),
        },
    };
    assert(existing@ =~= text_or_nothing(
        header_entries(*old(headers))["content-security-policy"@][0],
    ));
    let csp = csp_inject_initialization_scripts_hashes(existing, scripts);
    set_csp(headers, csp.as_str());
}

/// A scheme handler's response as it is kept: the initialization scripts are in
/// its body where that is an HTML page, its content security policy lets them run
/// where it has one, and nothing of the body was read.
pub fn buffered_response(
    status: u16,
    headers: HeaderMap<HeaderValue>,
    body: Vec<u8>,
    scripts: &[InitScript],
) -> (response: BufferedResponse)
    ensures
        response.status == status,
        policy_lets_scripts_run(header_entries(response.headers), header_entries(headers), scripts@),
        response.body@ == body_with_scripts(header_entries(headers), body@, scripts@),
        response.position == 0,
{
    let body = if is_html(&headers) {
        match inject_scripts_into_html_body(body.as_slice(), scripts) {
            Some(page) => page,
            None => body,
        }
    } else {
        body
    };
    let mut headers = headers;
    allow_scripts(&mut headers, scripts);
    BufferedResponse { status, headers, body, position: 0 }
}

impl BufferedResponse {
    /// What of the body is still to be read.
    pub open spec fn unread(self) -> Seq<u8> {
        if self.position <= self.body@.len() {
            self.body@.skip(self.position as int)
        } else {
            Seq::empty()
        }
    }

    /// Copies as much as fits of what is still to be read, and returns how much
    /// that was.
    pub fn read(&mut self, out: &mut [u8]) -> (count: usize)
        ensures
            count == if old(self).unread().len() < old(out)@.len() {
                old(self).unread().len()
            } else {
                old(out)@.len()
            },
            final(out)@ == old(self).unread().take(count as int) + old(out)@.skip(count as int),
            final(self).position == old(self).position + count,
            final(self).status == old(self).status,
            final(self).headers == old(self).headers,
            final(self).body == old(self).body,
    {
        if self.position > self.body.len() {
            assert(out@ =~= self.unread().take(0) + old(out)@.skip(0));
            return 0;
        }
        let left: usize = self.body.len() - self.position;
        let count: usize = if left < out.len() {
            left
        } else {
            out.len()
        };
        let mut i: usize = 0;
        while i < count
            invariant
                i <= count <= out@.len(),
                self.position + count <= self.body.len(),
                out@.len() == old(out)@.len(),
                out@ =~= self.body@.subrange(self.position as int, self.position + i) + old(
                    out,
                )@.skip(i as int),
            decreases count - i,
        {
            out[i] = self.body[self.position + i];
            i += 1;
        }
        assert(self.body@.subrange(self.position as int, self.position + count)
            =~= self.unread().take(count as int));
        self.position += count;
        count
    }
}

/// Reading a body bit by bit gives the body: what one read copies, followed by
/// what is then still to be read, is what was to be read before.
pub proof fn reads_lose_nothing(
    old_response: BufferedResponse,
    new_response: BufferedResponse,
    count: usize,
)
    requires
        count <= old_response.unread().len(),
        new_response.position == old_response.position + count,
        new_response.body == old_response.body,
    ensures
        old_response.unread().take(count as int) + new_response.unread() == old_response.unread(),
{
    assert(old_response.unread().take(count as int) + new_response.unread()
        =~= old_response.unread());
}

/// What of a body is still to be read is all that is behind the position, to its end.
pub proof fn the_rest_of_the_body_is_unread(response: BufferedResponse)
    ensures
        response.position <= response.body@.len() ==> response.unread() == response.body@.subrange(
            response.position as int,
            response.body@.len() as int,
        ),
        response.position > response.body@.len() ==> response.unread().len() == 0,
{
}

/// A page is HTML by the first nine bytes of its first `Content-Type`: they say
/// `text/html`, each letter in upper or lower case, and the value can be read as text.
pub proof fn html_is_declared_by_the_content_type(entries: Map<Seq<char>, Seq<Seq<u8>>>)
    ensures
        !entries.dom().contains("content-type"@) ==> !declares_html(entries),
        entries.dom().contains("content-type"@) ==> (declares_html(entries) <==> {
            let value = entries["content-type"@][0];
            &&& is_visible(value)
            &&& value.len() >= 9
            &&& value[0] == 116 || value[0] == 84
            &&& value[1] == 101 || value[1] == 69
            &&& value[2] == 120 || value[2] == 88
            &&& value[3] == 116 || value[3] == 84
            &&& value[4] == 47
            &&& value[5] == 104 || value[5] == 72
            &&& value[6] == 116 || value[6] == 84
            &&& value[7] == 109 || value[7] == 77
            &&& value[8] == 108 || value[8] == 76
        }),
{
    reveal_strlit("text/html");
    if entries.dom().contains("content-type"@) {
        let value = entries["content-type"@][0];
        let low = lower_chars(value);
        let name = "text/html"@;
        if name.is_prefix_of(low) {
            assert(forall|i: int| 0 <= i < 9 ==> #[trigger] low[i] == low.subrange(0, 9)[i]);
            assert(low[0] == 't' && low[1] == 'e' && low[2] == 'x' && low[3] == 't');
            assert(low[4] == '/' && low[5] == 'h' && low[6] == 't' && low[7] == 'm');
            assert(low[8] == 'l');
        } else if value.len() >= 9 {
            assert(!(low.take(9) =~= name));
        }
    }
}

/// The scripts go into every HTML page that is UTF-8, and into nothing else: any other
/// body stays as it is.
pub proof fn only_pages_get_scripts(
    entries: Map<Seq<char>, Seq<Seq<u8>>>,
    body: Seq<u8>,
    scripts: Seq<InitScript>,
)
    ensures
        declares_html(entries) && valid_utf8(body) ==> body_with_scripts(entries, body, scripts)
            == page_with_scripts(parsed_html(decode_utf8(body)), script_texts(scripts)),
        !declares_html(entries) || !valid_utf8(body) ==> body_with_scripts(entries, body, scripts)
            == body,
{
}

/// For the scripts' sake nothing but the first content security policy is changed, and
/// that only where it is there and there are scripts.
pub proof fn only_the_policy_is_changed(
    new_entries: Map<Seq<char>, Seq<Seq<u8>>>,
    entries: Map<Seq<char>, Seq<Seq<u8>>>,
    scripts: Seq<InitScript>,
)
    requires
        policy_lets_scripts_run(new_entries, entries, scripts),
        entries.dom().contains("content-security-policy"@)
            ==> entries["content-security-policy"@].len() > 0,
    ensures
        !entries.dom().contains("content-security-policy"@) ==> new_entries == entries,
        scripts.len() == 0 && is_visible(entries["content-security-policy"@][0]) ==> new_entries
            == entries,
        new_entries.dom() == entries.dom(),
        forall|name: Seq<char>|
            name != "content-security-policy"@ ==> #[trigger] new_entries[name] == entries[name],
        entries.dom().contains("content-security-policy"@) ==> {
            let before = entries["content-security-policy"@];
            let after = new_entries["content-security-policy"@];
            &&& after.len() == before.len()
            &&& after.skip(1) == before.skip(1)
            &&& exists|csp: Seq<char>| #[trigger]
                lets_scripts_run(csp, text_or_nothing(before[0]), scripts) && after[0]
                    == if is_header_text(csp) {
                    encode_utf8(csp)
                } else {
                    before[0]
                }
        },
{
    let name = "content-security-policy"@;
    if entries.dom().contains(name) {
        let before = entries[name];
        let text = text_or_nothing(before[0]);
        let csp = choose|csp: Seq<char>| #[trigger]
            lets_scripts_run(csp, text, scripts) && new_entries == with_csp(entries, csp);
        assert(before.update(0, encode_utf8(csp)).skip(1) =~= before.skip(1));
        assert(new_entries.dom() =~= entries.dom());
        if scripts.len() == 0 && is_visible(before[0]) {
            a_policy_is_changed_for_the_scripts_alone(csp, text, scripts);
            assert(vstd::utf8::is_ascii_chars(csp));
            vstd::utf8::is_ascii_chars_encode_utf8(csp);
            assert(encode_utf8(csp) =~= before[0]);
            assert(before.update(0, encode_utf8(csp)) =~= before);
            assert(new_entries =~= entries);
        }
    }
}

/// The text of a header value is read byte for byte, and an unreadable one is empty; a
/// policy takes the place of the first where it can be a header value, and else nothing
/// changes.
pub proof fn the_first_policy_is_replaced(
    entries: Map<Seq<char>, Seq<Seq<u8>>>,
    csp: Seq<char>,
    value: Seq<u8>,
)
    ensures
        is_visible(value) ==> text_or_nothing(value) == Seq::new(
            value.len(),
            |k: int| value[k] as char,
        ),
        !is_visible(value) ==> text_or_nothing(value).len() == 0,
        entries.dom().contains("content-security-policy"@) && is_header_text(csp) ==> with_csp(
            entries,
            csp,
        ) == entries.insert(
            "content-security-policy"@,
            entries["content-security-policy"@].update(0, encode_utf8(csp)),
        ),
        !entries.dom().contains("content-security-policy"@) || !is_header_text(csp) ==> with_csp(
            entries,
            csp,
        ) == entries,
{
}

} // verus!
