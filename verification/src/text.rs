//! Small functions on strings.

use vstd::prelude::*;
use vstd::string::*;

verus! {

/// Whether two strings are the same.
pub(crate) fn same_text(a: &str, b: &str) -> (same: bool)
    ensures
        same == (a@ == b@),
{
    let left = a.as_bytes();
    let right = b.as_bytes();
    proof {
        vstd::utf8::encode_utf8_decode_utf8(a@);
        vstd::utf8::encode_utf8_decode_utf8(b@);
    }
    if left.len() != right.len() {
        return false;
    }
    let mut i: usize = 0;
    while i < left.len()
        invariant
            i <= left@.len(),
            left@.len() == right@.len(),
            forall|j: int| 0 <= j < i ==> left@[j] == right@[j],
            left@ == vstd::utf8::encode_utf8(a@),
            right@ == vstd::utf8::encode_utf8(b@),
        decreases left@.len() - i,
    {
        if left[i] != right[i] {
            return false;
        }
        i += 1;
    }
    assert(left@ =~= right@);
    true
}

/// The characters of a string.
pub(crate) fn chars_of(text: &str) -> (chars: Vec<char>)
    ensures
        chars@ == text@,
{
    let mut chars: Vec<char> = Vec::new();
    for c in it: text.chars()
        invariant
            chars@ == it.seq().take(it.index()),
            it.seq() == text@,
    {
        chars.push(c);
        assert(it.seq().take(it.index() + 1) =~= it.seq().take(it.index()).push(c));
    }
    assert(chars@ =~= text@);
    chars
}

/// The decimal digits of a number.
pub open spec fn decimal(n: nat) -> Seq<char>
    decreases n,
{
    if n < 10 {
        seq![digit(n)]
    } else {
        decimal(n / 10).push(digit(n % 10))
    }
}

/// The character of a digit.
pub open spec fn digit(n: nat) -> char {
    if n == 0 {
        '0'
    } else if n == 1 {
        '1'
    } else if n == 2 {
        '2'
    } else if n == 3 {
        '3'
    } else if n == 4 {
        '4'
    } else if n == 5 {
        '5'
    } else if n == 6 {
        '6'
    } else if n == 7 {
        '7'
    } else if n == 8 {
        '8'
    } else {
        '9'
    }
}

/// The string of a digit.
fn digit_text(n: u16) -> (text: &'static str)
    requires
        n < 10,
    ensures
        text@ == seq![digit(n as nat)],
{
    proof {
        reveal_strlit("0");
        reveal_strlit("1");
        reveal_strlit("2");
        reveal_strlit("3");
        reveal_strlit("4");
        reveal_strlit("5");
        reveal_strlit("6");
        reveal_strlit("7");
        reveal_strlit("8");
        reveal_strlit("9");
    }
    let text = match n {
        0 => "0",
        1 => "1",
        2 => "2",
        3 => "3",
        4 => "4",
        5 => "5",
        6 => "6",
        7 => "7",
        8 => "8",
        _ => "9",
    };
    assert(text@ =~= seq![digit(n as nat)]);
    text
}

/// A number in decimal digits.
pub(crate) fn decimal_text(n: u16) -> (text: String)
    ensures
        text@ == decimal(n as nat),
    decreases n,
{
    if n < 10 {
        digit_text(n).to_owned()
    } else {
        let text = decimal_text(n / 10).concat(digit_text(n % 10));
        assert(text@ =~= decimal(n as nat));
        text
    }
}

/// The parts of a text between the separators in it.
pub open spec fn split_on(text: Seq<char>, separator: char) -> Seq<Seq<char>>
    decreases text.len(),
{
    if text.len() == 0 {
        seq![Seq::empty()]
    } else {
        let rest = split_on(text.drop_first(), separator);
        if text[0] == separator {
            seq![Seq::empty()] + rest
        } else {
            seq![seq![text[0]] + rest[0]] + rest.drop_first()
        }
    }
}

/// The parts of a text between the separators in it.
pub(crate) fn split_chars(text: &str, separator: char) -> (parts: Vec<Vec<char>>)
    ensures
        parts@.len() == split_on(text@, separator).len(),
        forall|i: int| 0 <= i < parts@.len() ==> (#[trigger] parts@[i])@ == split_on(
            text@,
            separator,
        )[i],
{
    let chars = chars_of(text);
    let ghost whole = split_on(text@, separator);
    let mut parts: Vec<Vec<char>> = Vec::new();
    let mut part: Vec<char> = Vec::new();
    let mut i: usize = 0;
    assert(text@.skip(0) =~= text@);
    proof {
        split_is_not_empty(text@, separator);
        assert(whole =~= seq![Seq::empty() + whole[0]] + whole.drop_first());
    }
    while i < chars.len()
        invariant
            i <= chars@.len(),
            chars@ == text@,
            ({
                let rest = split_on(text@.skip(i as int), separator);
                whole == char_rows(parts@) + (seq![part@ + rest[0]] + rest.drop_first())
            }),
        decreases chars@.len() - i,
    {
        let ghost left = text@.skip(i as int);
        let ghost rest = split_on(left, separator);
        let ghost later = split_on(text@.skip(i + 1), separator);
        let ghost before = parts@;
        let ghost part_before = part@;
        proof {
            assert(left.drop_first() =~= text@.skip(i + 1));
            split_is_not_empty(text@.skip(i + 1), separator);
        }
        if chars[i] == separator {
            parts.push(part);
            part = Vec::new();
            proof {
                assert(rest =~= seq![Seq::<char>::empty()] + later);
                assert(rest.drop_first() =~= later);
                assert(part_before + rest[0] =~= part_before);
                assert(char_rows(parts@) =~= char_rows(before).push(part_before));
                assert(part@ + later[0] =~= later[0]);
                assert(whole =~= char_rows(parts@) + (seq![part@ + later[0]]
                    + later.drop_first()));
            }
        } else {
            part.push(chars[i]);
            proof {
                assert(rest[0] == seq![left[0]] + later[0]);
                assert(rest.drop_first() =~= later.drop_first());
                assert(part@ + later[0] =~= part_before + rest[0]);
            }
        }
        i += 1;
    }
    let ghost done = parts@;
    let ghost last = part@;
    proof {
        assert(text@.skip(i as int) =~= Seq::empty());
        let rest = split_on(text@.skip(i as int), separator);
        assert(rest =~= seq![Seq::<char>::empty()]);
        assert(part@ + rest[0] =~= part@);
        assert(rest.drop_first() =~= Seq::empty());
        assert(whole =~= char_rows(done).push(last));
    }
    parts.push(part);
    assert(char_rows(parts@) =~= char_rows(done).push(last));
    assert forall|i: int| 0 <= i < parts@.len() implies (#[trigger] parts@[i])@ == whole[i] by {
        assert(char_rows(parts@)[i] == parts@[i]@);
    }
    parts
}

/// The characters in rows.
spec fn char_rows(rows: Seq<Vec<char>>) -> Seq<Seq<char>> {
    Seq::new(rows.len(), |i: int| rows[i]@)
}

/// Splitting gives at least one part.
proof fn split_is_not_empty(text: Seq<char>, separator: char)
    ensures
        split_on(text, separator).len() > 0,
    decreases text.len(),
{
    if text.len() > 0 {
        split_is_not_empty(text.drop_first(), separator);
    }
}

/// A text up to the first `;`.
pub open spec fn before_semicolon(text: Seq<char>) -> Seq<char>
    decreases text.len(),
{
    if text.len() == 0 || text[0] == ';' {
        Seq::empty()
    } else {
        seq![text[0]] + before_semicolon(text.drop_first())
    }
}

/// A text without the blanks and tabs at its start.
pub open spec fn trim_start(text: Seq<char>) -> Seq<char>
    decreases text.len(),
{
    if text.len() > 0 && is_blank(text[0]) {
        trim_start(text.drop_first())
    } else {
        text
    }
}

/// A text without the blanks and tabs at its end.
pub open spec fn trim_end(text: Seq<char>) -> Seq<char>
    decreases text.len(),
{
    if text.len() > 0 && is_blank(text.last()) {
        trim_end(text.drop_last())
    } else {
        text
    }
}

/// A blank or a tab.
pub open spec fn is_blank(c: char) -> bool {
    c == ' ' || c == '\t'
}

/// A media type without its parameters: what stands before the first `;`, without
/// the blanks around it.
pub open spec fn essence(text: Seq<char>) -> Seq<char> {
    trim_end(trim_start(before_semicolon(text)))
}

/// A text with no `;` before position `n`, and with one there unless it ends
/// there.
proof fn before_semicolon_ends(text: Seq<char>, n: int)
    requires
        0 <= n <= text.len(),
        forall|i: int| 0 <= i < n ==> text[i] != ';',
        n < text.len() ==> text[n] == ';',
    ensures
        before_semicolon(text) == text.take(n),
    decreases n,
{
    if n > 0 {
        before_semicolon_ends(text.drop_first(), n - 1);
        assert(text.take(n) =~= seq![text[0]] + text.drop_first().take(n - 1));
    } else {
        assert(text.take(n) =~= Seq::empty());
    }
}

/// The media type without its parameters.
pub(crate) fn media_type(text: &str) -> (kind: String)
    ensures
        kind@ == essence(text@),
{
    let chars = chars_of(text);
    let mut end: usize = 0;
    while end < chars.len() && chars[end] != ';'
        invariant
            end <= chars@.len(),
            forall|i: int| 0 <= i < end ==> chars@[i] != ';',
        decreases chars@.len() - end,
    {
        end += 1;
    }
    proof {
        before_semicolon_ends(chars@, end as int);
    }
    let ghost whole = before_semicolon(text@);
    let mut start: usize = 0;
    assert(whole.skip(0) =~= whole);
    while start < end && (chars[start] == ' ' || chars[start] == '\t')
        invariant
            start <= end <= chars@.len(),
            whole == chars@.take(end as int),
            trim_start(whole) == trim_start(whole.skip(start as int)),
        decreases end - start,
    {
        assert(whole.skip(start as int).drop_first() =~= whole.skip(start + 1));
        start += 1;
    }
    let ghost open = whole.skip(start as int);
    assert(trim_start(whole) == open);
    let mut stop: usize = end;
    assert(open.take(stop - start) =~= open);
    while stop > start && (chars[stop - 1] == ' ' || chars[stop - 1] == '\t')
        invariant
            start <= stop <= end <= chars@.len(),
            whole == chars@.take(end as int),
            open == whole.skip(start as int),
            trim_end(open) == trim_end(open.take(stop - start)),
        decreases stop - start,
    {
        let ghost part = open.take(stop - start);
        assert(part.last() == chars@[stop - 1]);
        assert(part.drop_last() =~= open.take(stop - 1 - start));
        stop -= 1;
    }
    assert(trim_end(open) == open.take(stop - start)) by {
        let part = open.take(stop - start);
        if part.len() > 0 {
            assert(part.last() == chars@[stop - 1]);
        }
    }
    assert(open.take(stop - start) =~= text@.subrange(start as int, stop as int));
    text.substring_char(start, stop).to_owned()
}

/// Where a text is split: a text without the separator is its only part, and at a
/// separator the parts of what stands before it are followed by the parts of what stands
/// behind it.
pub proof fn a_text_is_split_at_its_separators(a: Seq<char>, b: Seq<char>, separator: char)
    ensures
        (forall|i: int| 0 <= i < a.len() ==> #[trigger] a[i] != separator) ==> split_on(
            a,
            separator,
        ) == seq![a],
        split_on(a.push(separator) + b, separator) == split_on(a, separator) + split_on(
            b,
            separator,
        ),
    decreases a.len(),
{
    let whole = a.push(separator) + b;
    if a.len() == 0 {
        assert(whole.drop_first() =~= b);
        assert(a =~= Seq::empty());
    } else {
        let rest = a.drop_first();
        a_text_is_split_at_its_separators(rest, b, separator);
        split_is_not_empty(rest, separator);
        assert(whole.drop_first() =~= rest.push(separator) + b);
        let later = split_on(rest, separator);
        let last = split_on(b, separator);
        if a[0] != separator {
            assert((later + last).drop_first() =~= later.drop_first() + last);
            assert(split_on(whole, separator) =~= split_on(a, separator) + last);
        } else {
            assert(split_on(whole, separator) =~= split_on(a, separator) + last);
        }
        if forall|i: int| 0 <= i < a.len() ==> #[trigger] a[i] != separator {
            assert forall|i: int| 0 <= i < rest.len() implies #[trigger] rest[i] != separator by {
                assert(rest[i] == a[i + 1]);
            }
            assert(a[0] != separator);
            assert(seq![a[0]] + rest =~= a);
            assert(split_on(a, separator) =~= seq![a]);
        }
    }
}

/// The parts of a text, with the separators between them, are the text, and hold no
/// separator: the first part is the text or stands before the first separator, and
/// behind that come the other parts of it.
pub(crate) proof fn first_part(text: Seq<char>, separator: char) -> (rest: Seq<char>)
    ensures
        ({
            let parts = split_on(text, separator);
            &&& parts.len() > 0
            &&& forall|i: int| 0 <= i < parts[0].len() ==> #[trigger] parts[0][i] != separator
            &&& parts.len() == 1 ==> text == parts[0]
            &&& parts.len() > 1 ==> text == parts[0].push(separator) + rest && split_on(
                rest,
                separator,
            ) == parts.drop_first()
        }),
    decreases text.len(),
{
    let parts = split_on(text, separator);
    if text.len() == 0 {
        assert(text =~= Seq::empty());
        text
    } else {
        let later = split_on(text.drop_first(), separator);
        split_is_not_empty(text.drop_first(), separator);
        if text[0] == separator {
            assert(parts.drop_first() =~= later);
            assert(text =~= parts[0].push(separator) + text.drop_first());
            text.drop_first()
        } else {
            let rest = first_part(text.drop_first(), separator);
            assert(parts.drop_first() =~= later.drop_first());
            assert(text =~= seq![text[0]] + text.drop_first());
            if later.len() > 1 {
                assert(text =~= parts[0].push(separator) + rest);
            } else {
                assert(text =~= parts[0]);
            }
            rest
        }
    }
}

/// A media type is found whatever stands around it: blanks and tabs before and behind
/// it, and any parameters behind a semicolon.
pub proof fn a_media_type_is_found(
    before: Seq<char>,
    kind: Seq<char>,
    after: Seq<char>,
    parameters: Seq<char>,
)
    requires
        forall|i: int|
            0 <= i < before.len() ==> #[trigger] before[i] == ' ' || before[i] == '\t',
        forall|i: int| 0 <= i < after.len() ==> #[trigger] after[i] == ' ' || after[i] == '\t',
        forall|i: int| 0 <= i < kind.len() ==> #[trigger] kind[i] != ';',
        kind.len() > 0,
        kind[0] != ' ' && kind[0] != '\t',
        kind.last() != ' ' && kind.last() != '\t',
    ensures
        essence(before + kind + after) == kind,
        essence((before + kind + after).push(';') + parameters) == kind,
        essence(before) == Seq::<char>::empty(),
        essence(before.push(';') + parameters) == Seq::<char>::empty(),
{
    before_semicolon_ends(before, before.len() as int);
    before_semicolon_ends(before.push(';') + parameters, before.len() as int);
    assert(before.take(before.len() as int) =~= before);
    assert((before.push(';') + parameters).take(before.len() as int) =~= before);
    nothing_but_blanks(before);
    let text = before + kind + after;
    let n = text.len() as int;
    before_semicolon_ends(text, n);
    before_semicolon_ends(text.push(';') + parameters, n);
    assert(text.take(n) =~= text);
    assert((text.push(';') + parameters).take(n) =~= text);
    assert(text =~= before + (kind + after));
    blanks_are_trimmed(before, kind + after);
    blanks_are_trimmed_behind(kind, after);
}

proof fn nothing_but_blanks(blanks: Seq<char>)
    requires
        forall|i: int|
            0 <= i < blanks.len() ==> #[trigger] blanks[i] == ' ' || blanks[i] == '\t',
    ensures
        trim_start(blanks) == Seq::<char>::empty(),
    decreases blanks.len(),
{
    if blanks.len() > 0 {
        nothing_but_blanks(blanks.drop_first());
    } else {
        assert(blanks =~= Seq::empty());
    }
}

proof fn blanks_are_trimmed(blanks: Seq<char>, text: Seq<char>)
    requires
        forall|i: int|
            0 <= i < blanks.len() ==> #[trigger] blanks[i] == ' ' || blanks[i] == '\t',
        text.len() > 0,
        text[0] != ' ' && text[0] != '\t',
    ensures
        trim_start(blanks + text) == text,
    decreases blanks.len(),
{
    if blanks.len() == 0 {
        assert(blanks + text =~= text);
    } else {
        assert((blanks + text).drop_first() =~= blanks.drop_first() + text);
        assert((blanks + text)[0] == blanks[0]);
        blanks_are_trimmed(blanks.drop_first(), text);
    }
}

proof fn blanks_are_trimmed_behind(text: Seq<char>, blanks: Seq<char>)
    requires
        forall|i: int|
            0 <= i < blanks.len() ==> #[trigger] blanks[i] == ' ' || blanks[i] == '\t',
        text.len() > 0,
        text.last() != ' ' && text.last() != '\t',
    ensures
        trim_end(text + blanks) == text,
    decreases blanks.len(),
{
    if blanks.len() == 0 {
        assert(text + blanks =~= text);
    } else {
        assert((text + blanks).drop_last() =~= text + blanks.drop_last());
        assert((text + blanks).last() == blanks.last());
        blanks_are_trimmed_behind(text, blanks.drop_last());
    }
}

} // verus!
