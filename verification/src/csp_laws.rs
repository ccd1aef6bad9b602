//! What holds of policies that are read, extended and written out again.

use crate::csp::{
    csp_directives, directive_row, directive_text, directives_in, directives_of, distinct,
    is_whitespace, joined, lets_scripts_run, lists, lists_its_own, policy_text, script_hashes,
    texts, trim, with_script_hashes, writes_out, Directives,
};
use crate::html::InitScript;
use crate::text::split_on;
use vstd::prelude::*;

verus! {

/// The scripts may run, and nothing that was allowed before is forbidden: the
/// sources of `script-src` begin with those that it had and hold every hash, and
/// every other directive is as it was.
pub proof fn hashes_are_added_and_nothing_is_lost(directives: Directives, hashes: Seq<Seq<char>>)
    ensures
        ({
            let extended = with_script_hashes(directives, hashes);
            &&& extended.dom() == directives.dom().insert("script-src"@)
            &&& forall|name: Seq<char>|
                name != "script-src"@ && #[trigger] directives.dom().contains(name)
                    ==> extended[name] == directives[name]
            &&& directives.dom().contains("script-src"@)
                ==> directives["script-src"@].is_prefix_of(extended["script-src"@])
            &&& forall|i: int|
                0 <= i < hashes.len() ==> extended["script-src"@].contains(#[trigger] hashes[i])
        }),
{
    let extended = with_script_hashes(directives, hashes);
    assert(extended.dom() =~= directives.dom().insert("script-src"@));
    let before = if directives.dom().contains("script-src"@) {
        directives["script-src"@]
    } else {
        seq!["'self'"@]
    };
    assert(before.is_prefix_of(before + hashes));
    assert forall|i: int| 0 <= i < hashes.len() implies extended["script-src"@].contains(
        #[trigger] hashes[i],
    ) by {
        assert(extended["script-src"@][before.len() + i] == hashes[i]);
    }
}

/// Whether a character does not occur in a text.
pub open spec fn lacks(text: Seq<char>, c: char) -> bool {
    forall|i: int| 0 <= i < text.len() ==> #[trigger] text[i] != c
}

/// Whether a text is one word: it can stand among the words of a directive.
pub open spec fn is_word(text: Seq<char>) -> bool {
    lacks(text, ' ') && lacks(text, ';')
}

/// Whether a directive can be read back from what is written out of it.
pub open spec fn is_clean(name: Seq<char>, sources: Seq<Seq<char>>) -> bool {
    &&& is_word(name)
    &&& forall|i: int| 0 <= i < sources.len() ==> is_word(#[trigger] sources[i])
    &&& if sources.len() == 0 {
        trim(name) == name
    } else {
        &&& name.len() > 0 && !is_whitespace(name[0])
        &&& sources.last().len() > 0 && !is_whitespace(sources.last().last())
    }
}

/// Whether all directives can be read back.
pub open spec fn are_clean(directives: Directives) -> bool {
    forall|name: Seq<char>| #[trigger]
        directives.dom().contains(name) ==> is_clean(name, directives[name])
}

proof fn trim_shrinks(text: Seq<char>)
    ensures
        trim(text).len() <= text.len(),
    decreases text.len(),
{
    if text.len() > 0 && is_whitespace(text[0]) {
        trim_shrinks(text.drop_first());
    } else if text.len() > 0 && is_whitespace(text.last()) {
        trim_shrinks(text.drop_last());
    }
}

/// What is left of a trimmed text has no white space at its ends, and none but
/// the text's own characters.
proof fn trim_result(text: Seq<char>)
    ensures
        trim(text).len() > 0 ==> !is_whitespace(trim(text)[0]) && !is_whitespace(trim(text).last()),
        trim(trim(text)) == trim(text),
        forall|c: char| #[trigger] lacks(text, c) ==> lacks(trim(text), c),
    decreases text.len(),
{
    if text.len() > 0 && is_whitespace(text[0]) {
        trim_result(text.drop_first());
        assert forall|c: char| #[trigger] lacks(text, c) implies lacks(trim(text), c) by {
            assert(lacks(text.drop_first(), c));
        }
    } else if text.len() > 0 && is_whitespace(text.last()) {
        trim_result(text.drop_last());
        assert forall|c: char| #[trigger] lacks(text, c) implies lacks(trim(text), c) by {
            assert(lacks(text.drop_last(), c));
        }
    }
}

/// What splitting gives: parts without the separator, made of the text's own
/// characters, that begin and end as the text does.
proof fn split_result(text: Seq<char>, separator: char)
    ensures
        ({
            let parts = split_on(text, separator);
            &&& parts.len() > 0
            &&& forall|i: int| 0 <= i < parts.len() ==> lacks(#[trigger] parts[i], separator)
            &&& forall|i: int, c: char|
                0 <= i < parts.len() && #[trigger] lacks(text, c) ==> lacks(#[trigger] parts[i], c)
            &&& text.len() > 0 && text[0] != separator ==> parts[0].len() > 0 && parts[0][0]
                == text[0]
            &&& text.len() > 0 && text.last() != separator ==> parts.last().len() > 0
                && parts.last().last() == text.last()
            &&& lacks(text, separator) ==> parts == seq![text]
        }),
    decreases text.len(),
{
    let parts = split_on(text, separator);
    if text.len() == 0 {
        assert(text =~= Seq::empty());
        assert(parts =~= seq![text]);
    } else {
        let tail = text.drop_first();
        let rest = split_on(tail, separator);
        split_result(tail, separator);
        if text[0] == separator {
            assert forall|i: int| 0 <= i < parts.len() implies lacks(
                #[trigger] parts[i],
                separator,
            ) by {
                if i > 0 {
                    assert(parts[i] == rest[i - 1]);
                }
            }
            assert forall|i: int, c: char|
                0 <= i < parts.len() && #[trigger] lacks(text, c) implies lacks(
                #[trigger] parts[i],
                c,
            ) by {
                assert(lacks(tail, c));
                if i > 0 {
                    assert(parts[i] == rest[i - 1]);
                }
            }
            assert(parts.last() == rest.last());
            assert(!lacks(text, separator));
        } else {
            let first = seq![text[0]] + rest[0];
            assert(parts[0] == first);
            assert forall|i: int| 0 <= i < parts.len() implies lacks(
                #[trigger] parts[i],
                separator,
            ) by {
                if i > 0 {
                    assert(parts[i] == rest[i]);
                } else {
                    assert(lacks(rest[0], separator));
                }
            }
            assert forall|i: int, c: char|
                0 <= i < parts.len() && #[trigger] lacks(text, c) implies lacks(
                #[trigger] parts[i],
                c,
            ) by {
                assert(lacks(tail, c));
                if i > 0 {
                    assert(parts[i] == rest[i]);
                } else {
                    assert(lacks(rest[0], c));
                }
            }
            if rest.len() > 1 {
                assert(parts.last() == rest.last());
            } else {
                assert(parts.last() == first);
            }
            if lacks(text, separator) {
                assert(lacks(tail, separator));
                assert(first =~= text);
                assert(parts =~= seq![text]);
            }
            if tail.len() == 0 {
                assert(rest[0].len() == 0);
                assert(first =~= seq![text[0]]);
            }
        }
    }
}

/// Splitting a text at a separator that the first part lacks.
proof fn split_at_first(first: Seq<char>, separator: char, rest: Seq<char>)
    requires
        lacks(first, separator),
    ensures
        split_on(first + seq![separator] + rest, separator) == seq![first] + split_on(
            rest,
            separator,
        ),
    decreases first.len(),
{
    let text = first + seq![separator] + rest;
    if first.len() == 0 {
        assert(text.drop_first() =~= rest);
        assert(first =~= Seq::empty());
    } else {
        let tail = first.drop_first();
        assert(lacks(tail, separator));
        split_at_first(tail, separator, rest);
        assert(text.drop_first() =~= tail + seq![separator] + rest);
        let parts = split_on(text.drop_first(), separator);
        assert(parts[0] == tail);
        assert(parts.drop_first() =~= split_on(rest, separator));
        assert(seq![text[0]] + tail =~= first);
    }
}

/// Splitting undoes joining.
proof fn split_undoes_join(parts: Seq<Seq<char>>, separator: char)
    requires
        parts.len() > 0,
        forall|i: int| 0 <= i < parts.len() ==> lacks(#[trigger] parts[i], separator),
    ensures
        split_on(joined(parts, seq![separator]), separator) == parts,
    decreases parts.len(),
{
    if parts.len() == 1 {
        split_result(parts[0], separator);
        assert(parts =~= seq![parts[0]]);
    } else {
        let rest = parts.drop_first();
        assert forall|i: int| 0 <= i < rest.len() implies lacks(#[trigger] rest[i], separator) by {
            assert(rest[i] == parts[i + 1]);
        }
        split_undoes_join(rest, separator);
        split_at_first(parts[0], separator, joined(rest, seq![separator]));
        assert(seq![parts[0]] + rest =~= parts);
    }
}

/// A joined text has no characters but those of its parts and of the separator.
proof fn joined_lacks(parts: Seq<Seq<char>>, separator: Seq<char>, c: char)
    requires
        lacks(separator, c),
        forall|i: int| 0 <= i < parts.len() ==> lacks(#[trigger] parts[i], c),
    ensures
        lacks(joined(parts, separator), c),
    decreases parts.len(),
{
    if parts.len() > 1 {
        let rest = parts.drop_first();
        assert forall|i: int| 0 <= i < rest.len() implies lacks(#[trigger] rest[i], c) by {
            assert(rest[i] == parts[i + 1]);
        }
        joined_lacks(rest, separator, c);
        assert(lacks(parts[0], c));
    }
}

/// A joined text ends as its last part does.
proof fn joined_ends(parts: Seq<Seq<char>>, separator: Seq<char>)
    requires
        parts.len() > 0,
        parts.last().len() > 0,
    ensures
        joined(parts, separator).len() > 0,
        joined(parts, separator).last() == parts.last().last(),
    decreases parts.len(),
{
    if parts.len() > 1 {
        joined_ends(parts.drop_first(), separator);
    }
}

/// What is written out of a clean directive reads back as that directive.
proof fn directive_reads_back(name: Seq<char>, sources: Seq<Seq<char>>)
    requires
        is_clean(name, sources),
    ensures
        split_on(trim(directive_text((name, sources))), ' ') == seq![name] + sources,
        lacks(directive_text((name, sources)), ';'),
{
    reveal_strlit(" ");
    let blank = " "@;
    assert(blank =~= seq![' ']);
    let text = directive_text((name, sources));
    assert forall|i: int| 0 <= i < sources.len() implies lacks(#[trigger] sources[i], ';') by {
        assert(is_word(sources[i]));
    }
    joined_lacks(sources, blank, ';');
    if sources.len() == 0 {
        assert(text =~= name + blank);
        assert(text.drop_last() =~= name);
        if name.len() == 0 {
            assert(text.drop_first() =~= name);
            assert(trim(text) == name);
        } else {
            trim_shrinks(name.drop_first());
            assert(text[0] == name[0]);
            assert(trim(text) == name);
        }
        split_result(name, ' ');
        assert(seq![name] + sources =~= seq![name]);
    } else {
        let words = seq![name] + sources;
        assert(words.drop_first() =~= sources);
        assert(text == joined(words, blank));
        joined_ends(words, blank);
        assert(text[0] == name[0]);
        assert(trim(text) == text);
        assert forall|i: int| 0 <= i < words.len() implies lacks(#[trigger] words[i], ' ') by {
            if i > 0 {
                assert(words[i] == sources[i - 1]);
                assert(is_word(sources[i - 1]));
            }
        }
        split_undoes_join(words, ' ');
    }
}

/// The pieces between the semicolons of a policy that was written out.
pub open spec fn written_pieces(row: Seq<(Seq<char>, Seq<Seq<char>>)>) -> Seq<Seq<char>> {
    Seq::new(
        row.len(),
        |i: int|
            if i == 0 {
                directive_text(row[i])
            } else {
                " "@ + directive_text(row[i])
            },
    )
}

/// A blank before every part but the first can go with the part or with the
/// separator.
proof fn blanks_shift(parts: Seq<Seq<char>>, shifted: Seq<Seq<char>>)
    requires
        parts.len() > 0,
        parts.len() == shifted.len(),
        shifted[0] == parts[0],
        forall|i: int| 1 <= i < parts.len() ==> #[trigger] shifted[i] == " "@ + parts[i],
    ensures
        joined(parts, "; "@) == joined(shifted, seq![';']),
    decreases parts.len(),
{
    reveal_strlit("; ");
    reveal_strlit(" ");
    if parts.len() > 1 {
        let rest = parts.drop_first();
        // The second part takes its blank from the separator before it.
        let shifted_rest = shifted.drop_first().update(0, parts[1]);
        assert forall|i: int| 1 <= i < rest.len() implies #[trigger] shifted_rest[i] == " "@
            + rest[i] by {
            assert(shifted_rest[i] == shifted[i + 1]);
        }
        blanks_shift(rest, shifted_rest);
        let tail = shifted.drop_first();
        assert(joined(tail, seq![';']) =~= " "@ + joined(shifted_rest, seq![';'])) by {
            assert(tail[0] == " "@ + parts[1]);
            if tail.len() > 1 {
                assert(tail.drop_first() =~= shifted_rest.drop_first());
            }
        }
        assert(joined(parts, "; "@) =~= parts[0] + seq![';'] + (" "@ + joined(
            shifted_rest,
            seq![';'],
        )));
    }
}

/// The pieces of a policy that was written out of clean directives.
proof fn pieces_read_back(row: Seq<(Seq<char>, Seq<Seq<char>>)>)
    requires
        row.len() > 0,
        forall|i: int| 0 <= i < row.len() ==> is_clean((#[trigger] row[i]).0, row[i].1),
    ensures
        split_on(policy_text(row), ';') == written_pieces(row),
        forall|i: int|
            0 <= i < row.len() ==> split_on(trim(#[trigger] written_pieces(row)[i]), ' ')
                == seq![row[i].0] + row[i].1,
{
    reveal_strlit(" ");
    let texts = Seq::new(row.len(), |i: int| directive_text(row[i]));
    let pieces = written_pieces(row);
    blanks_shift(texts, pieces);
    assert forall|i: int| 0 <= i < pieces.len() implies lacks(#[trigger] pieces[i], ';') by {
        directive_reads_back(row[i].0, row[i].1);
    }
    split_undoes_join(pieces, ';');
    assert forall|i: int| 0 <= i < row.len() implies split_on(
        trim(#[trigger] written_pieces(row)[i]),
        ' ',
    ) == seq![row[i].0] + row[i].1 by {
        directive_reads_back(row[i].0, row[i].1);
        if i > 0 {
            let text = directive_text(row[i]);
            assert((" "@ + text).drop_first() =~= text);
        }
    }
}

/// The directives that the first pieces make are those that the row lists there.
proof fn pieces_make_the_row(
    row: Seq<(Seq<char>, Seq<Seq<char>>)>,
    pieces: Seq<Seq<char>>,
    directives: Directives,
    n: int,
)
    requires
        lists(row, directives),
        pieces.len() == row.len(),
        forall|i: int|
            0 <= i < row.len() ==> split_on(trim(#[trigger] pieces[i]), ' ') == seq![row[i].0]
                + row[i].1,
        0 <= n <= row.len(),
    ensures
        forall|name: Seq<char>| #[trigger]
            directives_of(pieces.take(n)).dom().contains(name) <==> exists|i: int|
                0 <= i < n && (#[trigger] row[i]).0 == name,
        forall|i: int|
            0 <= i < n ==> directives_of(pieces.take(n))[(#[trigger] row[i]).0] == row[i].1,
    decreases n,
{
    let so_far = directives_of(pieces.take(n));
    if n == 0 {
        assert(pieces.take(0) =~= Seq::empty());
    } else {
        let m = n - 1;
        pieces_make_the_row(row, pieces, directives, m);
        assert(pieces.take(n).drop_last() =~= pieces.take(m));
        let words = split_on(trim(pieces[m]), ' ');
        assert(words == seq![row[m].0] + row[m].1);
        assert(words.drop_first() =~= row[m].1);
        assert(so_far == directives_of(pieces.take(m)).insert(row[m].0, row[m].1));
        assert forall|name: Seq<char>| #[trigger] so_far.dom().contains(name) <==> exists|i: int|
            0 <= i < n && (#[trigger] row[i]).0 == name by {
            if so_far.dom().contains(name) && name != row[m].0 {
                assert(directives_of(pieces.take(m)).dom().contains(name));
                let i = choose|i: int| 0 <= i < m && (#[trigger] row[i]).0 == name;
                assert(0 <= i < n && row[i].0 == name);
            }
        }
    }
}

/// What is written out of clean directives reads back as these directives,
/// whatever the order in which they were written.
pub proof fn policies_read_back(text: Seq<char>, directives: Directives)
    requires
        writes_out(text, directives),
        are_clean(directives),
        exists|name: Seq<char>| #[trigger] directives.dom().contains(name),
    ensures
        csp_directives(text) == directives,
{
    let row = choose|row: Seq<(Seq<char>, Seq<Seq<char>>)>| #[trigger]
        lists(row, directives) && text == policy_text(row);
    let some = choose|name: Seq<char>| #[trigger] directives.dom().contains(name);
    let at = choose|i: int| 0 <= i < row.len() && (#[trigger] row[i]).0 == some;
    assert(row.len() > 0);
    assert forall|i: int| 0 <= i < row.len() implies is_clean((#[trigger] row[i]).0, row[i].1) by {
        assert(directives.dom().contains(row[i].0));
    }
    pieces_read_back(row);
    let pieces = written_pieces(row);
    pieces_make_the_row(row, pieces, directives, row.len() as int);
    assert(pieces.take(row.len() as int) =~= pieces);
    let back = csp_directives(text);
    assert forall|name: Seq<char>| #[trigger] back.dom().contains(name) implies back[name]
        == directives[name] && directives.dom().contains(name) by {
        let i = choose|i: int| 0 <= i < row.len() && (#[trigger] row[i]).0 == name;
        assert(back[row[i].0] == row[i].1);
    }
    assert forall|name: Seq<char>| #[trigger] directives.dom().contains(name) implies back.dom().contains(
        name,
    ) by {
        let i = choose|i: int| 0 <= i < row.len() && (#[trigger] row[i]).0 == name;
        assert(back.dom().contains(row[i].0));
    }
    assert(back =~= directives);
}

/// The directives of any policy are clean.
proof fn parsed_directives_are_clean(pieces: Seq<Seq<char>>)
    requires
        forall|i: int| 0 <= i < pieces.len() ==> lacks(#[trigger] pieces[i], ';'),
    ensures
        are_clean(directives_of(pieces)),
    decreases pieces.len(),
{
    if pieces.len() > 0 {
        let before = pieces.drop_last();
        assert forall|i: int| 0 <= i < before.len() implies lacks(#[trigger] before[i], ';') by {
            assert(before[i] == pieces[i]);
        }
        parsed_directives_are_clean(before);
        let text = trim(pieces.last());
        let words = split_on(text, ' ');
        assert(lacks(pieces.last(), ';'));
        trim_result(pieces.last());
        split_result(text, ' ');
        let sources = words.drop_first();
        assert(lacks(words[0], ' ') && lacks(words[0], ';'));
        assert forall|i: int| 0 <= i < sources.len() implies is_word(#[trigger] sources[i]) by {
            assert(sources[i] == words[i + 1]);
            assert(lacks(words[i + 1], ' ') && lacks(words[i + 1], ';'));
        }
        if sources.len() == 0 {
            one_word(text);
        } else {
            if text.len() == 0 {
                assert(words =~= seq![Seq::<char>::empty()]);
            }
            assert(sources.last() == words.last());
        }
        assert(is_clean(words[0], sources));
    }
}

/// A text that splits into one part is that part.
proof fn one_word(text: Seq<char>)
    requires
        split_on(text, ' ').len() == 1,
    ensures
        split_on(text, ' ')[0] == text,
    decreases text.len(),
{
    if text.len() > 0 {
        let tail = text.drop_first();
        split_result(tail, ' ');
        assert(split_on(tail, ' ').len() == 1);
        one_word(tail);
        assert(seq![text[0]] + tail =~= text);
    } else {
        assert(text =~= Seq::empty());
    }
}

/// A policy that was extended and written out reads back as what was meant: the
/// directives of the policy with the hashes added to `script-src`. The hashes are
/// words, and the last one has no white space at its end.
pub proof fn extended_policies_read_back(
    existing: Seq<char>,
    hashes: Seq<Seq<char>>,
    text: Seq<char>,
)
    requires
        hashes.len() > 0,
        forall|i: int| 0 <= i < hashes.len() ==> is_word(#[trigger] hashes[i]),
        hashes.last().len() > 0 && !is_whitespace(hashes.last().last()),
        writes_out(text, with_script_hashes(csp_directives(existing), hashes)),
    ensures
        csp_directives(text) == with_script_hashes(csp_directives(existing), hashes),
{
    let pieces = split_on(existing, ';');
    split_result(existing, ';');
    parsed_directives_are_clean(pieces);
    let directives = csp_directives(existing);
    let extended = with_script_hashes(directives, hashes);
    let name = "script-src"@;
    reveal_strlit("script-src");
    reveal_strlit("'self'");
    assert forall|other: Seq<char>| #[trigger] extended.dom().contains(other) implies is_clean(
        other,
        extended[other],
    ) by {
        if other == name {
            let before = if directives.dom().contains(name) {
                directives[name]
            } else {
                seq!["'self'"@]
            };
            let sources = extended[name];
            assert(sources == before + hashes);
            assert(sources.last() == hashes.last());
            assert forall|i: int| 0 <= i < sources.len() implies is_word(#[trigger] sources[i]) by {
                if i < before.len() {
                    assert(sources[i] == before[i]);
                    if directives.dom().contains(name) {
                        assert(is_clean(name, directives[name]));
                    }
                } else {
                    assert(sources[i] == hashes[i - before.len()]);
                }
            }
            assert(!is_whitespace(name[0]));
        } else {
            assert(directives.dom().contains(other));
        }
    }
    assert(extended.dom().contains(name));
    policies_read_back(text, extended);
}

/// The sources of `script-src` are afterwards exactly those that it had, followed by the
/// hashes; where it was not there, exactly `'self'`, followed by the hashes. Every other
/// directive stays, and none is added.
pub proof fn script_sources_are_the_old_ones_and_the_hashes(
    directives: Directives,
    hashes: Seq<Seq<char>>,
)
    ensures
        ({
            let after = with_script_hashes(directives, hashes);
            let sources = after["script-src"@];
            &&& after.dom().contains("script-src"@)
            &&& directives.dom().contains("script-src"@) ==> sources
                == directives["script-src"@] + hashes
            &&& !directives.dom().contains("script-src"@) ==> {
                &&& sources.len() == 1 + hashes.len()
                &&& sources[0] == "'self'"@
                &&& sources.skip(1) == hashes
            }
            &&& forall|name: Seq<char>|
                name != "script-src"@ ==> (#[trigger] after.dom().contains(name)
                    <==> directives.dom().contains(name)) && after[name] == directives[name]
        }),
{
    let sources = with_script_hashes(directives, hashes)["script-src"@];
    if !directives.dom().contains("script-src"@) {
        assert(sources.skip(1) =~= hashes);
    }
}

/// The hashes are those of the scripts, all of them, in their order.
pub proof fn every_script_has_its_hash(scripts: Seq<InitScript>)
    ensures
        script_hashes(scripts).len() == scripts.len(),
        forall|i: int|
            0 <= i < scripts.len() ==> #[trigger] script_hashes(scripts)[i] == scripts[i].hash@,
{
}

/// Without scripts a policy stays as it is, to the letter. With scripts whose hashes are
/// words it reads back as the policy that it was, but for `script-src`, which has its
/// old sources, or `'self'` where it had none, and behind them the hash of each script.
pub proof fn a_policy_is_changed_for_the_scripts_alone(
    csp: Seq<char>,
    existing_csp: Seq<char>,
    scripts: Seq<InitScript>,
)
    requires
        lets_scripts_run(csp, existing_csp, scripts),
    ensures
        scripts.len() == 0 ==> csp == existing_csp,
        scripts.len() > 0 ==> {
            let before = csp_directives(existing_csp);
            let hashes = Seq::new(scripts.len(), |i: int| scripts[i].hash@);
            writes_out(
                csp,
                before.insert(
                    "script-src"@,
                    if before.dom().contains("script-src"@) {
                        before["script-src"@] + hashes
                    } else {
                        seq!["'self'"@] + hashes
                    },
                ),
            )
        },
        scripts.len() > 0 && (forall|i: int|
            0 <= i < scripts.len() ==> is_word(#[trigger] scripts[i].hash@))
            && scripts.last().hash@.len() > 0 && !is_whitespace(scripts.last().hash@.last()) ==> {
            let before = csp_directives(existing_csp);
            let after = csp_directives(csp);
            let old_sources = if before.dom().contains("script-src"@) {
                before["script-src"@]
            } else {
                seq!["'self'"@]
            };
            &&& forall|name: Seq<char>|
                name != "script-src"@ ==> (#[trigger] after.dom().contains(name)
                    <==> before.dom().contains(name)) && after[name] == before[name]
            &&& after.dom().contains("script-src"@)
            &&& after["script-src"@].len() == old_sources.len() + scripts.len()
            &&& after["script-src"@].take(old_sources.len() as int) == old_sources
            &&& forall|i: int|
                0 <= i < scripts.len() ==> after["script-src"@][old_sources.len() + i]
                    == (#[trigger] scripts[i]).hash@
        },
{
    let hashes = script_hashes(scripts);
    if scripts.len() > 0 && (forall|i: int|
        0 <= i < scripts.len() ==> is_word(#[trigger] scripts[i].hash@))
        && scripts.last().hash@.len() > 0 && !is_whitespace(scripts.last().hash@.last()) {
        assert forall|i: int| 0 <= i < hashes.len() implies is_word(#[trigger] hashes[i]) by {
            assert(is_word(scripts[i].hash@));
        }
        extended_policies_read_back(existing_csp, hashes, csp);
        let before = csp_directives(existing_csp);
        let old_sources = if before.dom().contains("script-src"@) {
            before["script-src"@]
        } else {
            seq!["'self'"@]
        };
        let sources = csp_directives(csp)["script-src"@];
        assert(sources == old_sources + hashes);
        assert(sources.take(old_sources.len() as int) =~= old_sources);
        assert forall|i: int| 0 <= i < scripts.len() implies sources[old_sources.len() + i] == (
        #[trigger] scripts[i]).hash@ by {
            assert(hashes[i] == scripts[i].hash@);
        }
    }
}

/// A row without repetition makes the directives that stand in it, and no others.
pub proof fn a_row_makes_its_directives(list: Seq<(String, Vec<String>)>)
    requires
        forall|i: int, j: int|
            0 <= i < j < list.len() ==> (#[trigger] list[i]).0@ != (#[trigger] list[j]).0@,
    ensures
        distinct(directive_row(list)),
        forall|i: int|
            0 <= i < list.len() ==> {
                let made = directives_in(directive_row(list));
                let (name, sources) = #[trigger] list[i];
                &&& made.dom().contains(name@)
                &&& made[name@].len() == sources@.len()
                &&& forall|k: int| 0 <= k < sources@.len() ==> made[name@][k] == #[trigger] sources@[k]@
            },
        forall|name: Seq<char>| #[trigger]
            directives_in(directive_row(list)).dom().contains(name) ==> exists|i: int|
                0 <= i < list.len() && (#[trigger] list[i]).0@ == name,
{
    let row = directive_row(list);
    assert forall|i: int, j: int| 0 <= i < j < row.len() implies (#[trigger] row[i]).0 != (
    #[trigger] row[j]).0 by {
        assert(list[i].0@ != list[j].0@);
    }
    lists_its_own(row);
    assert forall|i: int| 0 <= i < list.len() implies {
        let made = directives_in(row);
        let (name, sources) = #[trigger] list[i];
        &&& made.dom().contains(name@)
        &&& made[name@].len() == sources@.len()
        &&& forall|k: int| 0 <= k < sources@.len() ==> made[name@][k] == #[trigger] sources@[k]@
    } by {
        assert(row[i] == (list[i].0@, texts(list[i].1@)));
    }
    assert forall|name: Seq<char>| #[trigger]
        directives_in(row).dom().contains(name) implies exists|i: int|
        0 <= i < list.len() && (#[trigger] list[i]).0@ == name by {
        let i = choose|i: int| 0 <= i < row.len() && (#[trigger] row[i]).0 == name;
        assert(list[i].0@ == name);
    }
}

} // verus!
