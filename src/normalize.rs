//! Conversion of the generic Markdown tree into domain nodes, with their
//! plain text and wiki-link references.
//!
//! Every node of one body gets the line and column handed to the
//! conversion: positions are propagated uniformly, not recomputed per node.
use vstd::prelude::*;
use crate::mdtree::{MdKind, MdNode, MdTree};
use crate::text::{decimal, decimal_string, display_string, display_text, link_names, wiki_link_names};

verus! {

/// An unresolved reference to another resource, written `[[name]]`.
#[derive(Debug)]
pub struct ResourceLink {
    pub resource_type: Option<String>,
    pub resource_name: String,
    pub resolved: bool,
}

/// A normalized Markdown node.
#[derive(Debug)]
pub struct DokeNode {
    pub node_type: String,
    pub markdown_element: String,
    pub content: Option<String>,
    pub raw_content: String,
    pub level: Option<u32>,
    pub line: usize,
    pub column: usize,
    pub children: Vec<DokeNode>,
    pub wiki_links: Vec<ResourceLink>,
    pub ordered: Option<bool>,
    pub resolved: bool,
}

/// The kinds whose children are converted.
pub open spec fn is_container(k: MdKind) -> bool {
    k == MdKind::Heading || k == MdKind::Paragraph || k == MdKind::List || k == MdKind::ListItem
}

/// The kinds whose text is the concatenation of their children's text: the
/// containers and the inline wrappers.
pub open spec fn is_text_wrapper(k: MdKind) -> bool {
    is_container(k) || k == MdKind::Strong
        || k == MdKind::Emphasis || k == MdKind::Link || k == MdKind::Delete
}

/// The element name of a node of kind `k`.
pub open spec fn element_name(k: MdKind) -> Seq<char> {
    if k == MdKind::Heading {
        "heading"@
    } else if k == MdKind::Paragraph {
        "paragraph"@
    } else if k == MdKind::List {
        "list"@
    } else if k == MdKind::ListItem {
        "list_item"@
    } else if k == MdKind::Text {
        "text"@
    } else {
        "unknown"@
    }
}

/// The text a node contributes, if it bears text: a text leaf its reading
/// text, inline code its literal, an image its alternative text, a wrapper
/// the concatenation of its children's text.
pub open spec fn text_of(t: MdTree) -> Option<Seq<char>>
    decreases t, 1nat,
{
    if t.kind == MdKind::Text {
        Some(display_text(t.value))
    } else if t.kind == MdKind::InlineCode || t.kind == MdKind::Image {
        Some(t.value)
    } else if is_text_wrapper(t.kind) {
        Some(children_text(t, t.children.len() as int))
    } else {
        None
    }
}

/// The text of the first `k` children of `t`, concatenated.
pub open spec fn children_text(t: MdTree, k: int) -> Seq<char>
    decreases t, 0nat, k,
{
    if k <= 0 || k > t.children.len() {
        seq![]
    } else {
        children_text(t, k - 1) + match text_of(t.children[k - 1]) {
            Some(s) => s,
            None => seq![],
        }
    }
}

/// The plain text of a converted node: a text node keeps its literal as it
/// is, a container the concatenated text of its descendants, and an unknown
/// node has none.
pub open spec fn content_of(t: MdTree) -> Option<Seq<char>> {
    if t.kind == MdKind::Text {
        Some(t.value)
    } else if is_container(t.kind) {
        text_of(t)
    } else {
        None
    }
}

/// The wiki-link names of a node: those of a text leaf's literal, and for a
/// container those of its children in order.
pub open spec fn links_of(t: MdTree) -> Seq<Seq<char>>
    decreases t, 1nat,
{
    if t.kind == MdKind::Text {
        link_names(t.value)
    } else if is_container(t.kind) {
        children_links(t, t.children.len() as int)
    } else {
        seq![]
    }
}

/// The wiki-link names of the first `k` children of `t`, concatenated.
pub open spec fn children_links(t: MdTree, k: int) -> Seq<Seq<char>>
    decreases t, 0nat, k,
{
    if k <= 0 || k > t.children.len() {
        seq![]
    } else {
        children_links(t, k - 1) + links_of(t.children[k - 1])
    }
}

/// The summary text a converted node keeps as raw content.
pub open spec fn raw_text(t: MdTree) -> Seq<char> {
    if t.kind == MdKind::Heading {
        "Heading level "@ + decimal(t.depth as nat)
    } else if t.kind == MdKind::Paragraph {
        "Paragraph content"@
    } else if t.kind == MdKind::List {
        if t.ordered {
            "Ordered list"@
        } else {
            "Unordered list"@
        }
    } else if t.kind == MdKind::ListItem {
        "List item"@
    } else if t.kind == MdKind::Text {
        t.value
    } else {
        seq![]
    }
}

/// `links` are unresolved, untyped references to `names`, in order.
pub open spec fn links_match(links: Seq<ResourceLink>, names: Seq<Seq<char>>) -> bool {
    &&& links.len() == names.len()
    &&& forall|i: int|
        0 <= i < links.len() ==> {
            &&& #[trigger] links[i].resource_name@ == names[i]
            &&& links[i].resource_type is None
            &&& !links[i].resolved
        }
}

/// `d` is the conversion of `t`, positioned at `line` and `column`.
pub open spec fn normalized(d: DokeNode, t: MdTree, line: usize, column: usize) -> bool
    decreases t,
{
    &&& d.node_type@ == "DokeNode"@
    &&& d.markdown_element@ == element_name(t.kind)
    &&& (d.content is Some <==> content_of(t) is Some)
    &&& (d.content is Some ==> d.content->0@ == content_of(t)->0)
    &&& d.raw_content@ == raw_text(t)
    &&& d.level == (if t.kind == MdKind::Heading { Some(t.depth as u32) } else { None })
    &&& d.ordered == (if t.kind == MdKind::List { Some(t.ordered) } else { None })
    &&& d.line == line
    &&& d.column == column
    &&& !d.resolved
    &&& links_match(d.wiki_links@, links_of(t))
    &&& if is_container(t.kind) {
        &&& d.children@.len() == t.children.len()
        &&& forall|i: int|
            0 <= i < t.children.len() ==> normalized(#[trigger] d.children@[i], t.children[i], line, column)
    } else {
        d.children@.len() == 0
    }
}

/// Every node of the tree under `d` is unresolved.
pub open spec fn all_unresolved(d: DokeNode) -> bool
    decreases d,
{
    &&& !d.resolved
    &&& forall|i: int| 0 <= i < d.children@.len() ==> all_unresolved(#[trigger] d.children@[i])
}

/// The children of a node's model are the models of its children.
proof fn lemma_child_view(node: &MdNode, i: int)
    requires
        0 <= i < node.children@.len(),
    ensures
        node.view().children.len() == node.children@.len(),
        node.view().children[i] == node.children@[i].view(),
{
}

/// The wiki links of a text, in order, as unresolved references.
pub fn extract_wiki_links_from_text(text: &str) -> (r: Vec<ResourceLink>)
    ensures
        links_match(r@, link_names(text@)),
{
    let names = wiki_link_names(text);
    let mut links: Vec<ResourceLink> = Vec::new();
    let mut i: usize = 0;
    while i < names.len()
        invariant
            names@.len() == link_names(text@).len(),
            forall|m: int| 0 <= m < names@.len() ==> names@[m]@ == link_names(text@)[m],
            i <= names@.len(),
            links_match(links@, link_names(text@).subrange(0, i as int)),
        decreases names@.len() - i,
    {
        links.push(ResourceLink { resource_type: None, resource_name: names[i].clone(), resolved: false });
        i = i + 1;
    }
    assert(link_names(text@).subrange(0, i as int) =~= link_names(text@));
    links
}

/// The text a node contributes (see `text_of`).
pub fn extract_text_content_from_node(node: &MdNode) -> (r: Option<String>)
    ensures
        r is Some <==> text_of(node.view()) is Some,
        r is Some ==> r->0@ == text_of(node.view())->0,
    decreases node,
{
    let ghost t = node.view();
    match node.kind {
        MdKind::Text => Some(display_string(node.value.as_str())),
        MdKind::InlineCode | MdKind::Image => Some(node.value.clone()),
        MdKind::Heading | MdKind::Paragraph | MdKind::List | MdKind::ListItem | MdKind::Strong
        | MdKind::Emphasis | MdKind::Link | MdKind::Delete => {
            let mut content = String::new();
            let mut i: usize = 0;
            while i < node.children.len()
                invariant
                    t == node.view(),
                    is_text_wrapper(t.kind),
                    i <= node.children@.len(),
                    content@ == children_text(t, i as int),
                decreases node.children@.len() - i,
            {
                proof {
                    lemma_child_view(node, i as int);
                }
                match extract_text_content_from_node(&node.children[i]) {
                    Some(s) => {
                        content.append(s.as_str());
                    },
                    None => {},
                }
                i = i + 1;
            }
            proof {
                lemma_child_view_len(node);
            }
            Some(content)
        },
        _ => None,
    }
}

proof fn lemma_child_view_len(node: &MdNode)
    ensures
        node.view().children.len() == node.children@.len(),
{
}

/// The wiki links of a node (see `links_of`).
pub fn extract_wiki_links(node: &MdNode) -> (r: Vec<ResourceLink>)
    ensures
        links_match(r@, links_of(node.view())),
    decreases node,
{
    let ghost t = node.view();
    match node.kind {
        MdKind::Text => extract_wiki_links_from_text(node.value.as_str()),
        MdKind::Heading | MdKind::Paragraph | MdKind::List | MdKind::ListItem => {
            let mut links: Vec<ResourceLink> = Vec::new();
            let mut i: usize = 0;
            while i < node.children.len()
                invariant
                    t == node.view(),
                    is_container(t.kind),
                    i <= node.children@.len(),
                    links_match(links@, children_links(t, i as int)),
                decreases node.children@.len() - i,
            {
                proof {
                    lemma_child_view(node, i as int);
                }
                let mut more = extract_wiki_links(&node.children[i]);
                let ghost before = links@;
                let ghost added = more@;
                links.append(&mut more);
                assert(children_links(t, i + 1) == children_links(t, i as int) + links_of(t.children[i as int]));
                assert forall|m: int| 0 <= m < links@.len() implies {
                    &&& #[trigger] links@[m].resource_name@ == children_links(t, i + 1)[m]
                    &&& links@[m].resource_type is None
                    &&& !links@[m].resolved
                } by {
                    if m >= before.len() {
                        assert(links@[m] == added[m - before.len()]);
                    }
                }
                assert(links_match(links@, children_links(t, i + 1)));
                i = i + 1;
            }
            proof {
                lemma_child_view_len(node);
            }
            links
        },
        _ => Vec::new(),
    }
}

/// The raw content a converted node keeps (see `raw_text`).
pub fn extract_raw_content(node: &MdNode) -> (r: String)
    ensures
        r@ == raw_text(node.view()),
{
    match node.kind {
        MdKind::Heading => {
            let mut s = "Heading level ".to_owned();
            let digits = decimal_string(node.depth as u64);
            s.append(digits.as_str());
            s
        },
        MdKind::Paragraph => "Paragraph content".to_owned(),
        MdKind::List => {
            if node.ordered {
                "Ordered list".to_owned()
            } else {
                "Unordered list".to_owned()
            }
        },
        MdKind::ListItem => "List item".to_owned(),
        MdKind::Text => node.value.clone(),
        _ => String::new(),
    }
}

/// Converts a generic Markdown node into a domain node positioned at `line`
/// and `column`: headings, paragraphs, lists, list items and text become
/// nodes of their own with their children converted in order; any other
/// kind becomes an empty `unknown` node, which keeps sibling order intact.
pub fn convert_mdast_node(node: &MdNode, line: usize, column: usize) -> (r: DokeNode)
    ensures
        normalized(r, node.view(), line, column),
    decreases node,
{
    let ghost t = node.view();
    let mut children: Vec<DokeNode> = Vec::new();
    let recognized = match node.kind {
        MdKind::Heading | MdKind::Paragraph | MdKind::List | MdKind::ListItem | MdKind::Text => true,
        _ => false,
    };
    if !recognized {
        return DokeNode {
            node_type: "DokeNode".to_owned(),
            markdown_element: "unknown".to_owned(),
            content: None,
            raw_content: String::new(),
            level: None,
            line,
            column,
            children,
            wiki_links: Vec::new(),
            ordered: None,
            resolved: false,
        };
    }
    if node.kind != MdKind::Text {
        let mut i: usize = 0;
        while i < node.children.len()
            invariant
                t == node.view(),
                is_container(t.kind),
                i <= node.children@.len(),
                children@.len() == i,
                forall|j: int| 0 <= j < i ==> normalized(#[trigger] children@[j], t.children[j], line, column),
            decreases node.children@.len() - i,
        {
            proof {
                lemma_child_view(node, i as int);
            }
            let c = convert_mdast_node(&node.children[i], line, column);
            children.push(c);
            i = i + 1;
        }
        proof {
            lemma_child_view_len(node);
        }
    }
    let element = match node.kind {
        MdKind::Heading => "heading".to_owned(),
        MdKind::Paragraph => "paragraph".to_owned(),
        MdKind::List => "list".to_owned(),
        MdKind::ListItem => "list_item".to_owned(),
        _ => "text".to_owned(),
    };
    let content = if node.kind == MdKind::Text {
        Some(node.value.clone())
    } else {
        extract_text_content_from_node(node)
    };
    let level = if node.kind == MdKind::Heading { Some(node.depth as u32) } else { None };
    let ordered = if node.kind == MdKind::List { Some(node.ordered) } else { None };
    DokeNode {
        node_type: "DokeNode".to_owned(),
        markdown_element: element,
        content,
        raw_content: extract_raw_content(node),
        level,
        line,
        column,
        children,
        wiki_links: extract_wiki_links(node),
        ordered,
        resolved: false,
    }
}

/// Every node that the normalizer produces, at any depth, is unresolved.
pub proof fn lemma_normalized_unresolved(d: DokeNode, t: MdTree, line: usize, column: usize)
    requires
        normalized(d, t, line, column),
    ensures
        all_unresolved(d),
    decreases t,
{
    assert forall|i: int| 0 <= i < d.children@.len() implies all_unresolved(#[trigger] d.children@[i]) by {
        lemma_normalized_unresolved(d.children@[i], t.children[i], line, column);
    }
}

} // verus!
