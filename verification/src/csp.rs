//! Content security policies that let the initialization scripts run.

use crate::html::InitScript;
use crate::text::{same_text, split_on};
use std::collections::HashMap;
use tauri_utils::config::{Csp, CspDirectiveSources};
use vstd::prelude::*;

verus! {

/// Directives of a policy: to each its sources.
pub type Directives = Map<Seq<char>, Seq<Seq<char>>>;

/// A character of Unicode's `White_Space` property.
pub open spec fn is_whitespace(c: char) -> bool {
    ||| '\u{9}' <= c <= '\u{d}'
    ||| c == ' '
    ||| c == '\u{85}'
    ||| c == '\u{a0}'
    ||| c == '\u{1680}'
    ||| '\u{2000}' <= c <= '\u{200a}'
    ||| c == '\u{2028}'
    ||| c == '\u{2029}'
    ||| c == '\u{202f}'
    ||| c == '\u{205f}'
    ||| c == '\u{3000}'
}

/// A text without the white space around it.
pub open spec fn trim(text: Seq<char>) -> Seq<char>
    decreases text.len(),
{
    if text.len() > 0 && is_whitespace(text[0]) {
        trim(text.drop_first())
    } else if text.len() > 0 && is_whitespace(text.last()) {
        trim(text.drop_last())
    } else {
        text
    }
}

/// The directives that pieces of a policy make. The first word of a piece is the
/// directive, and the others are its sources; of two pieces with the same
/// directive the later one counts.
pub open spec fn directives_of(pieces: Seq<Seq<char>>) -> Directives
    decreases pieces.len(),
{
    if pieces.len() == 0 {
        Map::empty()
    } else {
        let words = split_on(trim(pieces.last()), ' ');
        directives_of(pieces.drop_last()).insert(words[0], words.drop_first())
    }
}

/// The directives of a policy.
pub open spec fn csp_directives(policy: Seq<char>) -> Directives {
    directives_of(split_on(policy, ';'))
}

/// The characters of strings.
pub open spec fn texts(strings: Seq<String>) -> Seq<Seq<char>> {
    Seq::new(strings.len(), |i: int| strings[i]@)
}

/// Directives in a row.
pub open spec fn directive_row(list: Seq<(String, Vec<String>)>) -> Seq<
    (Seq<char>, Seq<Seq<char>>),
> {
    Seq::new(list.len(), |i: int| (list[i].0@, texts(list[i].1@)))
}

/// Whether no directive occurs twice in a row.
pub open spec fn distinct(row: Seq<(Seq<char>, Seq<Seq<char>>)>) -> bool {
    forall|i: int, j: int|
        0 <= i < j < row.len() ==> (#[trigger] row[i]).0 != (#[trigger] row[j]).0
}

/// Whether a row lists directives, each once.
pub open spec fn lists(row: Seq<(Seq<char>, Seq<Seq<char>>)>, directives: Directives) -> bool {
    &&& distinct(row)
    &&& forall|i: int|
        0 <= i < row.len() ==> directives.dom().contains((#[trigger] row[i]).0)
            && directives[row[i].0] == row[i].1
    &&& forall|name: Seq<char>| #[trigger]
        directives.dom().contains(name) ==> exists|i: int|
            0 <= i < row.len() && (#[trigger] row[i]).0 == name
}

/// Texts with a separator between every two of them.
pub open spec fn joined(parts: Seq<Seq<char>>, separator: Seq<char>) -> Seq<char>
    decreases parts.len(),
{
    if parts.len() == 0 {
        Seq::empty()
    } else if parts.len() == 1 {
        parts[0]
    } else {
        parts[0] + separator + joined(parts.drop_first(), separator)
    }
}

/// A directive written out.
pub open spec fn directive_text(directive: (Seq<char>, Seq<Seq<char>>)) -> Seq<char> {
    directive.0 + " "@ + joined(directive.1, " "@)
}

/// A row of directives written out.
pub open spec fn policy_text(row: Seq<(Seq<char>, Seq<Seq<char>>)>) -> Seq<char> {
    joined(Seq::new(row.len(), |i: int| directive_text(row[i])), "; "@)
}

/// Whether a text is directives written out, in any order.
pub open spec fn writes_out(text: Seq<char>, directives: Directives) -> bool {
    exists|row: Seq<(Seq<char>, Seq<Seq<char>>)>| #[trigger]
        lists(row, directives) && text == policy_text(row)
}

/// `From<Csp> for HashMap<String, CspDirectiveSources>` on a policy text, and
/// `From<CspDirectiveSources> for Vec<String>` on the sources: the directives of
/// the policy. In which order they come is left open.
#[verifier::external_body]
fn parse_policy(policy: &str) -> (list: Vec<(String, Vec<String>)>)
    ensures
        lists(directive_row(list@), csp_directives(policy@)),
{
    let map: HashMap<String, CspDirectiveSources> = Csp::Policy(policy.to_string()).into();
    map.into_iter().map(|(name, sources)| (name, sources.into())).collect()
}

/// `Display for Csp` on a directive map: the directives written out. In which
/// order they come is left open.
#[verifier::external_body]
fn write_policy(list: Vec<(String, Vec<String>)>) -> (text: String)
    requires
        distinct(directive_row(list@)),
    ensures
        writes_out(text@, directives_in(directive_row(list@))),
{
    let map: HashMap<String, CspDirectiveSources> =
        list.into_iter().map(|(name, sources)| (name, CspDirectiveSources::List(sources))).collect();
    Csp::DirectiveMap(map).to_string()
}

/// The directives in a row.
pub open spec fn directives_in(row: Seq<(Seq<char>, Seq<Seq<char>>)>) -> Directives {
    Map::new(
        |name: Seq<char>| exists|i: int| 0 <= i < row.len() && (#[trigger] row[i]).0 == name,
        |name: Seq<char>|
            row[choose|i: int| 0 <= i < row.len() && (#[trigger] row[i]).0 == name].1,
    )
}

/// A row lists no directives but those in it.
proof fn lists_those_in(row: Seq<(Seq<char>, Seq<Seq<char>>)>, directives: Directives)
    requires
        lists(row, directives),
    ensures
        directives_in(row) == directives,
{
    let found = directives_in(row);
    assert forall|name: Seq<char>| #[trigger] found.dom().contains(name) implies found[name]
        == directives[name] by {
        let i = choose|i: int| 0 <= i < row.len() && (#[trigger] row[i]).0 == name;
        assert(directives.dom().contains(row[i].0));
    }
    assert(found =~= directives);
}

/// A row without repetition lists the directives in it.
pub(crate) proof fn lists_its_own(row: Seq<(Seq<char>, Seq<Seq<char>>)>)
    requires
        distinct(row),
    ensures
        lists(row, directives_in(row)),
{
    let found = directives_in(row);
    assert forall|i: int| 0 <= i < row.len() implies found.dom().contains((#[trigger] row[i]).0)
        && found[row[i].0] == row[i].1 by {
        let name = row[i].0;
        let j = choose|j: int| 0 <= j < row.len() && (#[trigger] row[j]).0 == name;
        assert(i == j);
    }
}

/// A row from which `script-src` is taken, where it is there, and to whose end it
/// is added with new sources.
proof fn moved_to_the_end(
    row: Seq<(Seq<char>, Seq<Seq<char>>)>,
    at: int,
    sources: Seq<Seq<char>>,
)
    requires
        distinct(row),
        0 <= at <= row.len(),
        at < row.len() ==> row[at].0 == "script-src"@,
        at == row.len() ==> forall|i: int| 0 <= i < at ==> (#[trigger] row[i]).0 != "script-src"@,
    ensures
        lists(
            (if at < row.len() {
                row.remove(at)
            } else {
                row
            }).push(("script-src"@, sources)),
            directives_in(row).insert("script-src"@, sources),
        ),
{
    lists_its_own(row);
    let rest = if at < row.len() {
        row.remove(at)
    } else {
        row
    };
    let new_row = rest.push(("script-src"@, sources));
    let directives = directives_in(row).insert("script-src"@, sources);
    assert forall|i: int| 0 <= i < rest.len() implies (#[trigger] rest[i]).0 != "script-src"@ by {
        if at < row.len() {
            let old = if i < at {
                i
            } else {
                i + 1
            };
            assert(rest[i] == row[old]);
        }
    }
    assert forall|i: int, j: int| 0 <= i < j < new_row.len() implies (#[trigger] new_row[i]).0 != (
    #[trigger] new_row[j]).0 by {
        if j < rest.len() && at < row.len() {
            let a = if i < at {
                i
            } else {
                i + 1
            };
            let b = if j < at {
                j
            } else {
                j + 1
            };
            assert(new_row[i] == row[a] && new_row[j] == row[b]);
        } else {
            assert(new_row[i] == rest[i]);
        }
    }
    assert forall|i: int| 0 <= i < new_row.len() implies directives.dom().contains(
        (#[trigger] new_row[i]).0,
    ) && directives[new_row[i].0] == new_row[i].1 by {
        if i < rest.len() {
            let a = if at < row.len() && i >= at {
                i + 1
            } else {
                i
            };
            assert(new_row[i] == row[a]);
            assert(rest[i] == row[a]);
        }
    }
    assert forall|name: Seq<char>| #[trigger] directives.dom().contains(name) implies exists|i: int|
        0 <= i < new_row.len() && (#[trigger] new_row[i]).0 == name by {
        if name == "script-src"@ {
            assert(new_row[rest.len() as int].0 == name);
        } else {
            let a = choose|a: int| 0 <= a < row.len() && (#[trigger] row[a]).0 == name;
            let i = if at < row.len() && a >= at {
                a - 1
            } else {
                a
            };
            assert(new_row[i] == row[a]);
        }
    }
}

/// Directives that let scripts with the given hashes run: the hashes are added to
/// the sources of `script-src`, which is `'self'` where there was none.
pub open spec fn with_script_hashes(directives: Directives, hashes: Seq<Seq<char>>) -> Directives {
    directives.insert(
        "script-src"@,
        (if directives.dom().contains("script-src"@) {
            directives["script-src"@]
        } else {
            seq!["'self'"@]
        }) + hashes,
    )
}

/// The hashes of scripts.
pub open spec fn script_hashes(scripts: Seq<InitScript>) -> Seq<Seq<char>> {
    Seq::new(scripts.len(), |i: int| scripts[i].hash@)
}

/// Adds the hashes of scripts to the sources of `script-src`.
pub fn add_script_hashes(
    list: Vec<(String, Vec<String>)>,
    scripts: &[InitScript],
) -> (extended: Vec<(String, Vec<String>)>)
    requires
        distinct(directive_row(list@)),
    ensures
        distinct(directive_row(extended@)),
        directives_in(directive_row(extended@)) == with_script_hashes(
            directives_in(directive_row(list@)),
            script_hashes(scripts@),
        ),
{
    let mut list = list;
    let ghost old_row = directive_row(list@);
    let ghost old_directives = directives_in(old_row);
    let mut at: usize = 0;
    while at < list.len() && !same_text(list[at].0.as_str(), "script-src")
        invariant
            at <= list@.len(),
            old_row == directive_row(list@),
            forall|i: int| 0 <= i < at ==> (#[trigger] old_row[i]).0 != "script-src"@,
        decreases list@.len() - at,
    {
        assert(old_row[at as int].0 == list@[at as int].0@);
        at += 1;
    }
    let ghost found = at < list@.len();
    let (name, sources) = if at < list.len() {
        assert(old_row[at as int].0 == "script-src"@);
        proof {
            lists_its_own(old_row);
        }
        list.remove(at)
    } else {
        ("script-src".to_owned(), vec!["'self'".to_owned()])
    };
    let ghost first_sources = texts(sources@);
    proof {
        let start = if old_directives.dom().contains("script-src"@) {
            old_directives["script-src"@]
        } else {
            seq!["'self'"@]
        };
        assert(first_sources =~= start);
    }
    let mut sources = sources;
    let mut i: usize = 0;
    while i < scripts.len()
        invariant
            i <= scripts@.len(),
            texts(sources@) =~= first_sources + script_hashes(scripts@).take(i as int),
        decreases scripts@.len() - i,
    {
        let ghost before = sources@;
        sources.push(scripts[i].hash.clone());
        assert(texts(sources@) =~= texts(before).push(scripts@[i as int].hash@));
        assert(script_hashes(scripts@).take(i + 1) =~= script_hashes(scripts@).take(
            i as int,
        ).push(scripts@[i as int].hash@));
        i += 1;
    }
    assert(script_hashes(scripts@).take(i as int) =~= script_hashes(scripts@));
    list.push((name, sources));
    proof {
        let all_sources = first_sources + script_hashes(scripts@);
        let rest = if found {
            old_row.remove(at as int)
        } else {
            old_row
        };
        assert(directive_row(list@) =~= rest.push(("script-src"@, all_sources)));
        moved_to_the_end(old_row, at as int, all_sources);
        lists_those_in(
            directive_row(list@),
            old_directives.insert("script-src"@, all_sources),
        );
    }
    list
}

/// Whether a policy is the one that lets scripts run: the existing one with the
/// scripts' hashes added to the sources of `script-src`, its directives in any
/// order; the existing one as it is where there are no scripts.
pub open spec fn lets_scripts_run(
    csp: Seq<char>,
    existing_csp: Seq<char>,
    scripts: Seq<InitScript>,
) -> bool {
    if scripts.len() == 0 {
        csp == existing_csp
    } else {
        writes_out(csp, with_script_hashes(csp_directives(existing_csp), script_hashes(scripts)))
    }
}

/// A policy that lets the initialization scripts run: the given one, with the
/// scripts' hashes added to the sources of `script-src`. Where there are no
/// scripts the policy stays as it is.
pub fn csp_inject_initialization_scripts_hashes(
    existing_csp: String,
    initialization_scripts: &[InitScript],
) -> (csp: String)
    ensures
        lets_scripts_run(csp@, existing_csp@, initialization_scripts@),
{
    if initialization_scripts.len() == 0 {
        return existing_csp;
    }
    let list = parse_policy(existing_csp.as_str());
    proof {
        lists_those_in(directive_row(list@), csp_directives(existing_csp@));
    }
    write_policy(add_script_hashes(list, initialization_scripts))
}

} // verus!
