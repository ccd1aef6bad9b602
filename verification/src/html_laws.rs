//! What becomes of a page that scripts are put into, told by its tags.

use crate::html::{
    bare_element, page_with_scripts, row_has_head, row_with_first_in_head, script_node,
    script_texts, serialized_html, text_node, with_scripts_keeps_head, HtmlNode, InitScript,
    NodeKind,
};
use vstd::prelude::*;

verus! {

/// Where a node begins or ends in a document that is read from its start to its end.
pub enum Tag {
    /// A node of this kind begins, and itself holds this.
    Open(NodeKind, Seq<char>),
    /// The node that began last and has not ended yet ends.
    Close,
}

/// The tags of a node and of all that is below it.
pub open spec fn tags(node: HtmlNode) -> Seq<Tag>
    decreases node,
{
    seq![Tag::Open(node.kind, node.content)] + row_tags(node.children) + seq![Tag::Close]
}

/// The tags of nodes, one after the other.
pub open spec fn row_tags(nodes: Seq<HtmlNode>) -> Seq<Tag>
    decreases nodes,
{
    if nodes.len() == 0 {
        Seq::empty()
    } else {
        tags(nodes[0]) + row_tags(nodes.drop_first())
    }
}

/// The tag with which a `head` that holds this begins.
pub open spec fn head_tag(content: Seq<char>) -> Tag {
    Tag::Open(NodeKind::Element("head"@), content)
}

/// Whether no `head` begins among these tags.
pub open spec fn no_head_begins(row: Seq<Tag>) -> bool {
    forall|i: int|
        0 <= i < row.len() ==> (#[trigger] row[i] matches Tag::Open(kind, _) ==> kind
            != NodeKind::Element("head"@))
}

/// The tags of scripts: four for each, those of a `script` element without attributes
/// that holds nothing but a text, which is the script.
pub open spec fn script_tags(scripts: Seq<Seq<char>>) -> Seq<Tag> {
    Seq::new(
        4 * scripts.len(),
        |i: int|
            if i % 4 == 0 {
                Tag::Open(NodeKind::Element("script"@), Seq::empty())
            } else if i % 4 == 1 {
                Tag::Open(NodeKind::Text, scripts[i / 4])
            } else {
                Tag::Close
            },
    )
}

/// Without a `head` no tag is that of one.
proof fn no_head(node: HtmlNode)
    requires
        !node.has_head(),
    ensures
        no_head_begins(tags(node)),
    decreases node,
{
    row_no_head(node.children);
    let row = tags(node);
    let below = row_tags(node.children);
    assert forall|i: int| 0 <= i < row.len() implies (#[trigger] row[i] matches Tag::Open(kind, _)
        ==> kind != NodeKind::Element("head"@)) by {
        if 0 < i < row.len() - 1 {
            assert(row[i] == below[i - 1]);
        }
    }
}

proof fn row_no_head(nodes: Seq<HtmlNode>)
    requires
        !row_has_head(nodes),
    ensures
        no_head_begins(row_tags(nodes)),
    decreases nodes,
{
    if nodes.len() > 0 {
        no_head(nodes[0]);
        row_no_head(nodes.drop_first());
    }
}

/// Where the first `head` begins: what stands before it, what it holds itself, and what
/// stands behind its beginning. There a child that is put first in the `head` goes.
proof fn first_head(node: HtmlNode, child: HtmlNode) -> (parts: (Seq<Tag>, Seq<char>, Seq<Tag>))
    requires
        node.has_head(),
    ensures
        ({
            let (before, content, after) = parts;
            &&& no_head_begins(before)
            &&& tags(node) == before.push(head_tag(content)) + after
            &&& tags(node.with_first_in_head(child)) == before.push(head_tag(content)) + tags(child)
                + after
        }),
    decreases node,
{
    let close = seq![Tag::Close];
    if node.is_head() {
        let before = Seq::<Tag>::empty();
        let after = row_tags(node.children) + close;
        let new_children = seq![child] + node.children;
        assert(new_children.drop_first() =~= node.children);
        assert(tags(node) =~= before.push(head_tag(node.content)) + after);
        assert(tags(node.with_first_in_head(child)) =~= before.push(head_tag(node.content)) + tags(
            child,
        ) + after);
        (before, node.content, after)
    } else {
        let (row_before, content, row_after) = row_first_head(node.children, child);
        let open = seq![Tag::Open(node.kind, node.content)];
        let before = open + row_before;
        let after = row_after + close;
        assert forall|i: int| 0 <= i < before.len() implies (#[trigger] before[i] matches Tag::Open(
            kind,
            _,
        ) ==> kind != NodeKind::Element("head"@)) by {
            if i > 0 {
                assert(before[i] == row_before[i - 1]);
            }
        }
        assert(tags(node) =~= before.push(head_tag(content)) + after);
        assert(tags(node.with_first_in_head(child)) =~= before.push(head_tag(content)) + tags(child)
            + after);
        (before, content, after)
    }
}

proof fn row_first_head(nodes: Seq<HtmlNode>, child: HtmlNode) -> (parts: (
    Seq<Tag>,
    Seq<char>,
    Seq<Tag>,
))
    requires
        row_has_head(nodes),
    ensures
        ({
            let (before, content, after) = parts;
            &&& no_head_begins(before)
            &&& row_tags(nodes) == before.push(head_tag(content)) + after
            &&& row_tags(row_with_first_in_head(nodes, child)) == before.push(head_tag(content))
                + tags(child) + after
        }),
    decreases nodes,
{
    let new_nodes = row_with_first_in_head(nodes, child);
    let rest = nodes.drop_first();
    if nodes[0].has_head() {
        let (before, content, first_after) = first_head(nodes[0], child);
        let after = first_after + row_tags(rest);
        assert(new_nodes.drop_first() =~= rest);
        assert(row_tags(nodes) =~= before.push(head_tag(content)) + after);
        assert(row_tags(new_nodes) =~= before.push(head_tag(content)) + tags(child) + after);
        (before, content, after)
    } else {
        no_head(nodes[0]);
        let (rest_before, content, after) = row_first_head(rest, child);
        let before = tags(nodes[0]) + rest_before;
        assert(new_nodes.drop_first() =~= row_with_first_in_head(rest, child));
        assert(row_tags(nodes) =~= before.push(head_tag(content)) + after);
        assert(row_tags(new_nodes) =~= before.push(head_tag(content)) + tags(child) + after);
        (before, content, after)
    }
}

/// There is one place only where the first `head` begins.
proof fn one_first_head(
    before: Seq<Tag>,
    content: Seq<char>,
    after: Seq<Tag>,
    other_before: Seq<Tag>,
    other_content: Seq<char>,
    other_after: Seq<Tag>,
)
    requires
        no_head_begins(before),
        no_head_begins(other_before),
        before.push(head_tag(content)) + after == other_before.push(head_tag(other_content))
            + other_after,
    ensures
        before == other_before,
        content == other_content,
        after == other_after,
{
    let whole = before.push(head_tag(content)) + after;
    let n = before.len() as int;
    let m = other_before.len() as int;
    assert(whole[n] == head_tag(content));
    assert(whole[m] == head_tag(other_content));
    if n < m {
        assert(whole[n] == other_before[n]);
    }
    if m < n {
        assert(whole[m] == before[m]);
    }
    assert(before =~= whole.take(n));
    assert(other_before =~= whole.take(n));
    assert(after =~= whole.skip(n + 1));
    assert(other_after =~= whole.skip(n + 1));
}

/// The tags of one script and of those behind it.
proof fn script_tags_first(scripts: Seq<Seq<char>>)
    requires
        scripts.len() > 0,
    ensures
        script_tags(scripts) == tags(script_node(scripts[0])) + script_tags(scripts.drop_first()),
{
    let script = script_node(scripts[0]);
    let text = text_node(scripts[0]);
    let first = tags(script);
    assert(row_tags(text.children) =~= Seq::empty());
    assert(tags(text) =~= seq![Tag::Open(NodeKind::Text, scripts[0]), Tag::Close]);
    assert(script.children.drop_first() =~= Seq::empty());
    assert(row_tags(script.children.drop_first()) =~= Seq::empty());
    assert(row_tags(script.children) =~= tags(text));
    assert(first =~= seq![
        Tag::Open(NodeKind::Element("script"@), Seq::empty()),
        Tag::Open(NodeKind::Text, scripts[0]),
        Tag::Close,
        Tag::Close,
    ]);
    let rest = script_tags(scripts.drop_first());
    let whole = script_tags(scripts);
    assert forall|i: int| 0 <= i < whole.len() implies #[trigger] whole[i] == (first + rest)[i] by {
        if i >= 4 {
            assert(i % 4 == (i - 4) % 4);
            assert(i / 4 == (i - 4) / 4 + 1);
            assert(whole[i] == rest[i - 4]);
        }
    }
    assert(whole =~= first + rest);
}

/// Scripts that are put into a document stand right behind where its first `head` begins.
proof fn scripts_open_the_head_of(
    document: HtmlNode,
    before: Seq<Tag>,
    content: Seq<char>,
    after: Seq<Tag>,
    scripts: Seq<Seq<char>>,
)
    requires
        document.has_head(),
        no_head_begins(before),
        tags(document) == before.push(head_tag(content)) + after,
    ensures
        tags(document.with_scripts(scripts)) == before.push(head_tag(content)) + script_tags(
            scripts,
        ) + after,
    decreases scripts.len(),
{
    let head = before.push(head_tag(content));
    if scripts.len() == 0 {
        assert(head + script_tags(scripts) + after =~= head + after);
    } else {
        let rest = scripts.drop_first();
        let script = script_node(scripts[0]);
        scripts_open_the_head_of(document, before, content, after, rest);
        with_scripts_keeps_head(document, rest);
        let so_far = document.with_scripts(rest);
        let (found_before, found_content, found_after) = first_head(so_far, script);
        assert(tags(so_far) =~= head + (script_tags(rest) + after));
        one_first_head(
            before,
            content,
            script_tags(rest) + after,
            found_before,
            found_content,
            found_after,
        );
        script_tags_first(scripts);
        assert(head + tags(script) + (script_tags(rest) + after) =~= head + (tags(script)
            + script_tags(rest)) + after);
    }
}

/// Where the tags of each script stand.
proof fn scripts_stand_there(
    document: HtmlNode,
    before: Seq<Tag>,
    content: Seq<char>,
    after: Seq<Tag>,
    scripts: Seq<Seq<char>>,
)
    requires
        tags(document) == before.push(head_tag(content)) + script_tags(scripts) + after,
    ensures
        tags(document).take(before.len() as int + 1) == before.push(head_tag(content)),
        tags(document).skip(before.len() + 1 + 4 * scripts.len() as int) == after,
        forall|i: int|
            0 <= i < scripts.len() ==> {
                let at = before.len() + 1 + 4 * i;
                &&& tags(document)[at] == Tag::Open(NodeKind::Element("script"@), Seq::empty())
                &&& tags(document)[at + 1] == Tag::Open(NodeKind::Text, #[trigger] scripts[i])
                &&& tags(document)[at + 2] is Close
                &&& tags(document)[at + 3] is Close
            },
{
    let row = tags(document);
    let inner = script_tags(scripts);
    let from = before.len() as int + 1;
    assert(row.take(from) =~= before.push(head_tag(content)));
    assert(row.skip(from + 4 * scripts.len() as int) =~= after);
    assert forall|i: int| 0 <= i < scripts.len() implies {
        let at = before.len() + 1 + 4 * i;
        &&& row[at] == Tag::Open(NodeKind::Element("script"@), Seq::empty())
        &&& row[at + 1] == Tag::Open(NodeKind::Text, #[trigger] scripts[i])
        &&& row[at + 2] is Close
        &&& row[at + 3] is Close
    } by {
        assert(row[from + 4 * i] == inner[4 * i]);
        assert(row[from + 4 * i + 1] == inner[4 * i + 1]);
        assert(row[from + 4 * i + 2] == inner[4 * i + 2]);
        assert(row[from + 4 * i + 3] == inner[4 * i + 3]);
    }
}

/// Scripts are put in, all of them, whatever their number: the page that comes out is a
/// document written out that differs from the page in nothing but that its first `head`
/// begins with one `script` element for each script, in their order, followed by all that
/// the `head` held. A page without a `head` first gets an empty one, before all else in
/// it.
///
/// Returns what stands before the `head`, what the `head` itself holds, and what stands
/// behind the place where it begins.
pub proof fn scripts_open_the_head(page: HtmlNode, scripts: Seq<Seq<char>>) -> (parts: (
    Seq<Tag>,
    Seq<char>,
    Seq<Tag>,
))
    ensures
        ({
            let (before, content, after) = parts;
            let document = page.with_head().with_scripts(scripts);
            &&& page_with_scripts(page, scripts) == serialized_html(document)
            &&& tags(document).take(before.len() as int + 1) == before.push(
                Tag::Open(NodeKind::Element("head"@), content),
            )
            &&& tags(document).skip(before.len() + 1 + 4 * scripts.len() as int) == after
            &&& forall|i: int|
                0 <= i < scripts.len() ==> {
                    let at = before.len() + 1 + 4 * i;
                    &&& tags(document)[at] == Tag::Open(
                        NodeKind::Element("script"@),
                        Seq::empty(),
                    )
                    &&& tags(document)[at + 1] == Tag::Open(NodeKind::Text, #[trigger] scripts[i])
                    &&& tags(document)[at + 2] is Close
                    &&& tags(document)[at + 3] is Close
                }
            &&& no_head_begins(before)
            &&& !no_head_begins(tags(page)) ==> tags(page) == before.push(
                Tag::Open(NodeKind::Element("head"@), content),
            ) + after
            &&& no_head_begins(tags(page)) ==> {
                &&& before == tags(page).take(1)
                &&& content == Seq::<char>::empty()
                &&& after == seq![Tag::Close] + tags(page).skip(1)
            }
        }),
{
    let document = page.with_head();
    if page.has_head() {
        let (before, content, after) = first_head(page, page);
        let whole = tags(page);
        assert(whole[before.len() as int] == head_tag(content));
        scripts_open_the_head_of(document, before, content, after, scripts);
        scripts_stand_there(document.with_scripts(scripts), before, content, after, scripts);
        (before, content, after)
    } else {
        no_head(page);
        let head = bare_element("head"@);
        let before = tags(page).take(1);
        let content = Seq::<char>::empty();
        let after = seq![Tag::Close] + tags(page).skip(1);
        assert(document.children[0] == head);
        assert(head.has_head());
        assert(document.children.drop_first() =~= page.children);
        assert(row_tags(head.children) =~= Seq::empty());
        assert(tags(head) =~= seq![head_tag(content), Tag::Close]);
        assert(tags(document) =~= before.push(head_tag(content)) + after);
        scripts_open_the_head_of(document, before, content, after, scripts);
        scripts_stand_there(document.with_scripts(scripts), before, content, after, scripts);
        (before, content, after)
    }
}

/// Each script goes in as it is, and each in its place.
pub proof fn scripts_go_in_as_they_are(scripts: Seq<InitScript>)
    ensures
        script_texts(scripts).len() == scripts.len(),
        forall|i: int|
            0 <= i < scripts.len() ==> #[trigger] script_texts(scripts)[i] == scripts[i].script@,
{
}

} // verus!
