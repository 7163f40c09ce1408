//! The generic Markdown tree the normalizer reads, and its bridge to the
//! `markdown` crate's mdast.
use vstd::prelude::*;
use markdown::mdast::Node;

verus! {

/// The node kinds the normalizer tells apart; every other kind is `Other`.
#[derive(Debug, Clone, Copy, PartialEq, Eq, Structural)]
pub enum MdKind {
    Root,
    Heading,
    Paragraph,
    List,
    ListItem,
    Text,
    Strong,
    Emphasis,
    Delete,
    Link,
    InlineCode,
    Image,
    Other,
}

/// Mathematical model of a generic Markdown node. `depth` is a heading's
/// rank, `ordered` a list's flag, `value` the literal of a text or inline
/// code node or the alternative text of an image; they are `0`, `false` and
/// empty where the kind has no such field.
pub struct MdTree {
    pub kind: MdKind,
    pub depth: u8,
    pub ordered: bool,
    pub value: Seq<char>,
    pub children: Seq<MdTree>,
}

/// A generic Markdown node held as plain values.
pub struct MdNode {
    pub kind: MdKind,
    pub depth: u8,
    pub ordered: bool,
    pub value: String,
    pub children: Vec<MdNode>,
}

impl MdNode {
    pub open spec fn view(&self) -> MdTree
        decreases self,
    {
        MdTree {
            kind: self.kind,
            depth: self.depth,
            ordered: self.ordered,
            value: self.value@,
            children: Seq::new(
                self.children@.len(),
                |i: int|
                    if 0 <= i < self.children@.len() {
                        self.children@[i].view()
                    } else {
                        arbitrary()
                    },
            ),
        }
    }
}

#[verifier::external_type_specification]
#[verifier::external_body]
pub struct ExNode(Node);

/// The tree that an mdast node stands for.
pub uninterp spec fn md_tree_of(n: Node) -> MdTree;

/// The tree that `markdown::to_mdast` builds for a text under GFM options.
pub uninterp spec fn mdast_of(body: Seq<char>) -> MdTree;

/// Relies on `markdown::to_mdast` with `ParseOptions::gfm()`: its result is
/// a function of the text, and it is documented never to fail unless MDX is
/// enabled, which GFM options do not do.
#[verifier::external_body]
fn parse_gfm(body: &str) -> (r: Result<Node, String>)
    ensures
        r is Ok,
        md_tree_of(r->Ok_0) == mdast_of(body@),
{
    markdown::to_mdast(body, &markdown::ParseOptions::gfm()).map_err(|e| e.to_string())
}

/// Relies on the variants of `markdown::mdast::Node`: one arm per kind the
/// normalizer reads.
#[verifier::external_body]
fn node_kind(n: &Node) -> (r: MdKind)
    ensures
        r == md_tree_of(*n).kind,
{
    match n {
        Node::Root(_) => MdKind::Root,
        Node::Heading(_) => MdKind::Heading,
        Node::Paragraph(_) => MdKind::Paragraph,
        Node::List(_) => MdKind::List,
        Node::ListItem(_) => MdKind::ListItem,
        Node::Text(_) => MdKind::Text,
        Node::Strong(_) => MdKind::Strong,
        Node::Emphasis(_) => MdKind::Emphasis,
        Node::Delete(_) => MdKind::Delete,
        Node::Link(_) => MdKind::Link,
        Node::InlineCode(_) => MdKind::InlineCode,
        Node::Image(_) => MdKind::Image,
        _ => MdKind::Other,
    }
}

/// Relies on the fields of `markdown::mdast::Node`: `Heading::depth`,
/// `List::ordered`, `Text::value`, `InlineCode::value` and `Image::alt`.
#[verifier::external_body]
fn node_fields(n: &Node) -> (r: (u8, bool, String))
    ensures
        r.0 == md_tree_of(*n).depth,
        r.1 == md_tree_of(*n).ordered,
        r.2@ == md_tree_of(*n).value,
{
    match n {
        Node::Heading(h) => (h.depth, false, String::new()),
        Node::List(l) => (0, l.ordered, String::new()),
        Node::Text(t) => (0, false, t.value.clone()),
        Node::InlineCode(c) => (0, false, c.value.clone()),
        Node::Image(i) => (0, false, i.alt.clone()),
        _ => (0, false, String::new()),
    }
}

/// Relies on `markdown::mdast::Node::children`: the child list of a parent
/// node, in document order, and `None` for a node without children.
pub assume_specification[ Node::children ](n: &Node) -> (r: Option<&Vec<Node>>)
    ensures
        r is None ==> md_tree_of(*n).children.len() == 0,
        r is Some ==> r->0@.len() == md_tree_of(*n).children.len(),
        r is Some ==> forall|i: int|
            0 <= i < r->0@.len() ==> #[trigger] md_tree_of(r->0@[i]) == md_tree_of(*n).children[i],
;

/// Copies an mdast node into plain values.
fn md_node_from(n: &Node) -> (r: MdNode)
    ensures
        r.view() == md_tree_of(*n),
    decreases md_tree_of(*n),
{
    let kind = node_kind(n);
    let (depth, ordered, value) = node_fields(n);
    let ghost t = md_tree_of(*n);
    let mut children: Vec<MdNode> = Vec::new();
    match n.children() {
        Some(cs) => {
            let mut i: usize = 0;
            while i < cs.len()
                invariant
                    t == md_tree_of(*n),
                    cs@.len() == t.children.len(),
                    forall|j: int| 0 <= j < cs@.len() ==> #[trigger] md_tree_of(cs@[j]) == t.children[j],
                    i <= cs@.len(),
                    children@.len() == i,
                    forall|j: int| 0 <= j < i ==> #[trigger] children@[j].view() == t.children[j],
                decreases cs@.len() - i,
            {
                assert(md_tree_of(cs@[i as int]) == t.children[i as int]);
                proof {
                    assert(decreases_to!(t => t.children[i as int]));
                }
                let c = md_node_from(&cs[i]);
                children.push(c);
                i = i + 1;
            }
        },
        None => {},
    }
    let r = MdNode { kind, depth, ordered, value, children };
    assert(r.children@.len() == t.children.len());
    assert forall|j: int| 0 <= j < t.children.len() implies r.view().children[j] == t.children[j] by {
        assert(r.children@[j].view() == t.children[j]);
    }
    assert(r.view().children =~= t.children);
    r
}

/// The mdast of `body` under GFM options, as plain values; Markdown text
/// never fails to parse.
pub fn parse_markdown_tree(body: &str) -> (r: Result<MdNode, String>)
    ensures
        r is Ok,
        r->Ok_0.view() == mdast_of(body@),
{
    match parse_gfm(body) {
        Ok(root) => Ok(md_node_from(&root)),
        Err(e) => Err(e),
    }
}

} // verus!
