//! Initialization scripts in HTML pages.

use kuchikiki::NodeRef;
use vstd::prelude::*;

verus! {

/// A script that runs in every page before the page's own.
pub struct InitScript {
    pub script: String,
    /// The script's hash, as a source of a content security policy.
    pub hash: String,
}

/// `kuchikiki`'s handle on a node of a document.
#[verifier::external_type_specification]
#[verifier::external_body]
pub struct ExNodeRef(kuchikiki::NodeRef);

/// What a node of a document is.
pub enum NodeKind {
    /// An element with this local name.
    Element(Seq<char>),
    Text,
    /// A document, a comment and the like.
    Other,
}

/// A node of a document with all that is below it.
pub struct HtmlNode {
    pub kind: NodeKind,
    /// All else that the node itself holds: the characters of a text; the
    /// namespace, the attributes and the template of an element, which is nothing
    /// for an HTML element that has no attributes and is no template.
    pub content: Seq<char>,
    pub children: Seq<HtmlNode>,
}

/// What is below and at a node.
pub uninterp spec fn node_tree(node: NodeRef) -> HtmlNode;

/// Whether a node stands nowhere: it has no parent and no siblings.
pub uninterp spec fn is_loose(node: NodeRef) -> bool;

/// The document that an HTML parser makes of a text.
pub uninterp spec fn parsed_html(text: Seq<char>) -> HtmlNode;

/// A document written out as HTML.
pub uninterp spec fn serialized_html(document: HtmlNode) -> Seq<u8>;

/// An HTML element with no attributes and nothing below it.
pub open spec fn bare_element(name: Seq<char>) -> HtmlNode {
    HtmlNode { kind: NodeKind::Element(name), content: Seq::empty(), children: Seq::empty() }
}

/// A text.
pub open spec fn text_node(text: Seq<char>) -> HtmlNode {
    HtmlNode { kind: NodeKind::Text, content: text, children: Seq::empty() }
}

/// A script element that holds a script.
pub open spec fn script_node(script: Seq<char>) -> HtmlNode {
    HtmlNode { children: seq![text_node(script)], ..bare_element("script"@) }
}

impl HtmlNode {
    /// Whether this is a `head` element.
    pub open spec fn is_head(self) -> bool {
        self.kind == NodeKind::Element("head"@)
    }

    /// Whether there is a `head` element at or below this node.
    pub open spec fn has_head(self) -> bool
        decreases self,
    {
        self.is_head() || row_has_head(self.children)
    }

    /// This node with one more child, before the others.
    pub open spec fn with_first(self, child: HtmlNode) -> HtmlNode {
        HtmlNode { children: seq![child] + self.children, ..self }
    }

    /// This node with one more child, behind the others.
    pub open spec fn with_last(self, child: HtmlNode) -> HtmlNode {
        HtmlNode { children: self.children.push(child), ..self }
    }

    /// This node with one more child at the start of the first `head` in document
    /// order.
    pub open spec fn with_first_in_head(self, child: HtmlNode) -> HtmlNode
        decreases self,
    {
        if self.is_head() {
            self.with_first(child)
        } else {
            HtmlNode { children: row_with_first_in_head(self.children, child), ..self }
        }
    }

    /// The children of the first `head` in document order.
    pub open spec fn head_children(self) -> Seq<HtmlNode>
        decreases self,
    {
        if self.is_head() {
            self.children
        } else {
            row_head_children(self.children)
        }
    }

    /// This document with scripts at the start of its `head`, in their order.
    pub open spec fn with_scripts(self, scripts: Seq<Seq<char>>) -> HtmlNode
        decreases scripts.len(),
    {
        if scripts.len() == 0 {
            self
        } else {
            self.with_scripts(scripts.drop_first()).with_first_in_head(script_node(scripts[0]))
        }
    }

    /// This document with a `head`: as it is where it has one, else with an empty
    /// one before all else.
    pub open spec fn with_head(self) -> HtmlNode {
        if self.has_head() {
            self
        } else {
            self.with_first(bare_element("head"@))
        }
    }
}

/// Whether there is a `head` element at or below one of the nodes.
pub open spec fn row_has_head(nodes: Seq<HtmlNode>) -> bool
    decreases nodes,
{
    nodes.len() > 0 && (nodes[0].has_head() || row_has_head(nodes.drop_first()))
}

/// The nodes with one more child at the start of the first `head`.
pub open spec fn row_with_first_in_head(nodes: Seq<HtmlNode>, child: HtmlNode) -> Seq<HtmlNode>
    decreases nodes,
{
    if nodes.len() == 0 {
        nodes
    } else if nodes[0].has_head() {
        seq![nodes[0].with_first_in_head(child)] + nodes.drop_first()
    } else {
        seq![nodes[0]] + row_with_first_in_head(nodes.drop_first(), child)
    }
}

/// The children of the first `head` at or below the nodes.
pub open spec fn row_head_children(nodes: Seq<HtmlNode>) -> Seq<HtmlNode>
    decreases nodes,
{
    if nodes.len() == 0 {
        nodes
    } else if nodes[0].has_head() {
        nodes[0].head_children()
    } else {
        row_head_children(nodes.drop_first())
    }
}

/// `tauri_utils::html::parse`: the document depends on the text alone.
#[verifier::external_body]
fn parse_html(text: &str) -> (document: NodeRef)
    ensures
        node_tree(document) == parsed_html(text@),
{
    tauri_utils::html::parse(text.to_string())
}

/// `tauri_utils::html::serialize_node`: the bytes depend on the document alone.
#[verifier::external_body]
fn serialize_html(document: &NodeRef) -> (bytes: Vec<u8>)
    ensures
        bytes@ == serialized_html(node_tree(*document)),
{
    tauri_utils::html::serialize_node(document)
}

/// `NodeRef::select_first`, asked for `head`: whether it finds one.
#[verifier::external_body]
fn contains_head(document: &NodeRef) -> (found: bool)
    ensures
        found == node_tree(*document).has_head(),
{
    document.select_first("head").is_ok()
}

/// `NodeRef::new_element`: an HTML element without attributes, which stands nowhere.
#[verifier::external_body]
fn new_element(name: &str) -> (element: NodeRef)
    requires
        name@ == "head"@ || name@ == "script"@,
    ensures
        node_tree(element) == bare_element(name@),
        is_loose(element),
{
    let html = html5ever::Namespace::from("http://www.w3.org/1999/xhtml");
    NodeRef::new_element(
        html5ever::QualName::new(None, html, html5ever::LocalName::from(name)),
        None,
    )
}

/// `NodeRef::new_text`: a text, which stands nowhere.
#[verifier::external_body]
fn new_text(text: &str) -> (node: NodeRef)
    ensures
        node_tree(node) == text_node(text@),
        is_loose(node),
{
    NodeRef::new_text(text)
}

/// `NodeRef::append`: one more child, behind the others.
#[verifier::external_body]
fn append_child(parent: &mut NodeRef, child: NodeRef)
    requires
        is_loose(child),
    ensures
        node_tree(*final(parent)) == node_tree(*old(parent)).with_last(node_tree(child)),
        is_loose(*final(parent)) == is_loose(*old(parent)),
{
    parent.append(child);
}

/// `NodeRef::prepend`: one more child, before the others.
#[verifier::external_body]
fn prepend_child(parent: &mut NodeRef, child: NodeRef)
    requires
        is_loose(child),
    ensures
        node_tree(*final(parent)) == node_tree(*old(parent)).with_first(node_tree(child)),
{
    parent.prepend(child);
}

/// `NodeRef::prepend` on the node that `NodeRef::select_first` finds for `head`,
/// the first in document order: one more child there, before the others.
#[verifier::external_body]
fn prepend_to_head(document: &mut NodeRef, child: NodeRef)
    requires
        node_tree(*old(document)).has_head(),
        is_loose(child),
    ensures
        node_tree(*final(document)) == node_tree(*old(document)).with_first_in_head(
            node_tree(child),
        ),
{
    document.select_first("head").unwrap().as_node().prepend(child);
}

/// `std::str::from_utf8`: the text that bytes encode, where they are UTF-8.
#[verifier::external_body]
fn utf8_text(bytes: &[u8]) -> (text: Option<&str>)
    ensures
        text is Some <==> vstd::utf8::valid_utf8(bytes@),
        text matches Some(text) ==> text@ == vstd::utf8::decode_utf8(bytes@),
{
    std::str::from_utf8(bytes).ok()
}

/// The texts of scripts.
pub open spec fn script_texts(scripts: Seq<InitScript>) -> Seq<Seq<char>> {
    Seq::new(scripts.len(), |i: int| scripts[i].script@)
}

/// An HTML page with scripts put in: the page as a document, with the scripts at
/// the start of its `head`, written out again.
pub open spec fn page_with_scripts(page: HtmlNode, scripts: Seq<Seq<char>>) -> Seq<u8> {
    serialized_html(page.with_head().with_scripts(scripts))
}

/// Puts the initialization scripts into an HTML body, at the start of its `head`
/// and in their order, so that they run before any script of the page. `None`
/// where the body is not UTF-8.
pub fn inject_scripts_into_html_body(body: &[u8], initialization_scripts: &[InitScript]) -> (page:
    Option<Vec<u8>>)
    ensures
        page is Some <==> vstd::utf8::valid_utf8(body@),
        page matches Some(page) ==> page@ == page_with_scripts(
            parsed_html(vstd::utf8::decode_utf8(body@)),
            script_texts(initialization_scripts@),
        ),
{
    let text = match utf8_text(body) {
        Some(text) => text,
        None => {
            return None;
        },
    };
    let mut document = parse_html(text);
    inject_scripts(&mut document, initialization_scripts);
    Some(serialize_html(&document))
}

/// Puts scripts into a document; see [`inject_scripts_into_html_body`].
pub fn inject_scripts(document: &mut NodeRef, scripts: &[InitScript])
    ensures
        node_tree(*final(document)) == node_tree(*old(document)).with_head().with_scripts(
            script_texts(scripts@),
        ),
{
    if !contains_head(document) {
        prepend_child(document, new_element("head"));
        proof {
            let tree = node_tree(*document);
            assert(tree.children[0] == bare_element("head"@));
            assert(tree.children[0].has_head());
        }
    }
    let ghost base = node_tree(*document);
    let ghost texts = script_texts(scripts@);
    assert(base.has_head());
    let mut left: usize = scripts.len();
    assert(texts.skip(left as int) =~= Seq::empty());
    while left > 0
        invariant
            left <= scripts@.len(),
            texts == script_texts(scripts@),
            base.has_head(),
            node_tree(*document) == base.with_scripts(texts.skip(left as int)),
        decreases left,
    {
        left -= 1;
        let mut element = new_element("script");
        append_child(&mut element, new_text(scripts[left].script.as_str()));
        proof {
            let script = texts[left as int];
            assert(node_tree(element).children =~= script_node(script).children);
            let rest = texts.skip(left + 1);
            with_scripts_keeps_head(base, rest);
            assert(texts.skip(left as int).drop_first() =~= rest);
        }
        prepend_to_head(document, element);
    }
    assert(texts.skip(0) =~= texts);
}

/// What is put into a `head` goes before all that was in it, and the document
/// still has its `head`.
proof fn first_in_head(node: HtmlNode, child: HtmlNode)
    requires
        node.has_head(),
    ensures
        node.with_first_in_head(child).has_head(),
        node.with_first_in_head(child).head_children() == seq![child] + node.head_children(),
    decreases node,
{
    if !node.is_head() {
        row_first_in_head(node.children, child);
    }
}

proof fn row_first_in_head(nodes: Seq<HtmlNode>, child: HtmlNode)
    requires
        row_has_head(nodes),
    ensures
        row_has_head(row_with_first_in_head(nodes, child)),
        row_head_children(row_with_first_in_head(nodes, child)) == seq![child] + row_head_children(
            nodes,
        ),
    decreases nodes,
{
    let after = row_with_first_in_head(nodes, child);
    if nodes[0].has_head() {
        first_in_head(nodes[0], child);
        assert(after[0] == nodes[0].with_first_in_head(child));
    } else {
        row_first_in_head(nodes.drop_first(), child);
        assert(after[0] == nodes[0]);
        assert(after.drop_first() =~= row_with_first_in_head(nodes.drop_first(), child));
    }
}

/// A document with scripts in its `head` still has its `head`.
pub(crate) proof fn with_scripts_keeps_head(document: HtmlNode, scripts: Seq<Seq<char>>)
    requires
        document.has_head(),
    ensures
        document.with_scripts(scripts).has_head(),
    decreases scripts.len(),
{
    if scripts.len() > 0 {
        with_scripts_keeps_head(document, scripts.drop_first());
        first_in_head(document.with_scripts(scripts.drop_first()), script_node(scripts[0]));
    }
}

/// The scripts run first, in their order: the `head` of a page begins with a
/// script element for each of them, and what it held before comes after.
pub proof fn scripts_come_first(page: HtmlNode, scripts: Seq<Seq<char>>)
    ensures
        page.with_head().with_scripts(scripts).has_head(),
        page.with_head().with_scripts(scripts).head_children() == Seq::new(
            scripts.len(),
            |i: int| script_node(scripts[i]),
        ) + page.with_head().head_children(),
{
    let document = page.with_head();
    if !page.has_head() {
        assert(document.children[0] == bare_element("head"@));
        assert(document.children[0].has_head());
    }
    scripts_come_first_in(document, scripts);
}

proof fn scripts_come_first_in(document: HtmlNode, scripts: Seq<Seq<char>>)
    requires
        document.has_head(),
    ensures
        document.with_scripts(scripts).has_head(),
        document.with_scripts(scripts).head_children() == Seq::new(
            scripts.len(),
            |i: int| script_node(scripts[i]),
        ) + document.head_children(),
    decreases scripts.len(),
{
    let nodes = Seq::new(scripts.len(), |i: int| script_node(scripts[i]));
    if scripts.len() == 0 {
        assert(nodes + document.head_children() =~= document.head_children());
    } else {
        let rest = scripts.drop_first();
        scripts_come_first_in(document, rest);
        first_in_head(document.with_scripts(rest), script_node(scripts[0]));
        assert(seq![script_node(scripts[0])] + Seq::new(
            rest.len(),
            |i: int| script_node(rest[i]),
        ) =~= nodes);
        assert(nodes + document.head_children() =~= seq![script_node(scripts[0])] + (Seq::new(
            rest.len(),
            |i: int| script_node(rest[i]),
        ) + document.head_children()));
    }
}

} // verus!
