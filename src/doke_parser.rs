//! The combined parser: YAML metadata plus a normalized Markdown body.
use vstd::prelude::*;
use crate::error::{DokeError, DokeResult};
use crate::flatmap::{FlatMap, FlatModel, FlatValue};
use crate::frontmatter::{frontmatter_result, is_frontmatter_error, parse_frontmatter};
use crate::mdtree::{mdast_of, parse_markdown_tree, MdKind, MdTree};
use crate::normalize::{convert_mdast_node, normalized, DokeNode, ResourceLink};
use crate::parser_api::{DokeUserParser, ParserContext};

verus! {

/// `ds` are the conversions of the top-level nodes of the document `root`,
/// all positioned at line 1, column 1.
pub open spec fn body_normalized(ds: Seq<DokeNode>, root: MdTree) -> bool {
    if root.kind == MdKind::Root {
        &&& ds.len() == root.children.len()
        &&& forall|i: int| 0 <= i < ds.len() ==> normalized(#[trigger] ds[i], root.children[i], 1, 1)
    } else {
        ds.len() == 0
    }
}

/// Converts a Markdown body into domain nodes, one per top-level node of its
/// GFM mdast. Malformed Markdown is no error: the Markdown parser reads every
/// text. Should it ever report a failure, that becomes a `ValidationError`
/// naming the context's file and parser.
pub fn parse_markdown_body(content: &str, context: &ParserContext) -> (r: DokeResult<Vec<DokeNode>>)
    ensures
        r is Ok,
        body_normalized(r->Ok_0@, mdast_of(content@)),
{
    match parse_markdown_tree(content) {
        Err(e) => {
            let mut message = "Markdown parsing error: ".to_owned();
            message.append(e.as_str());
            Err(
                DokeError::ValidationError {
                    message,
                    file: context.current_file.clone(),
                    parser: context.parser_name.clone(),
                    span: None,
                    source: None,
                },
            )
        },
        Ok(root) => {
            let ghost t = root.view();
            let mut nodes: Vec<DokeNode> = Vec::new();
            if root.kind == MdKind::Root {
                let mut i: usize = 0;
                while i < root.children.len()
                    invariant
                        t == root.view(),
                        t.kind == MdKind::Root,
                        t.children.len() == root.children@.len(),
                        i <= root.children@.len(),
                        nodes@.len() == i,
                        forall|j: int| 0 <= j < i ==> normalized(#[trigger] nodes@[j], t.children[j], 1, 1),
                    decreases root.children@.len() - i,
                {
                    assert(t.children[i as int] == root.children@[i as int].view());
                    let node = convert_mdast_node(&root.children[i], 1, 1);
                    nodes.push(node);
                    i = i + 1;
                }
            }
            Ok(nodes)
        },
    }
}

/// The JSON-like form of an optional text.
pub open spec fn text_or_null(s: Option<String>) -> FlatModel {
    match s {
        Some(t) => FlatModel::Str(t@),
        None => FlatModel::Null,
    }
}

/// The JSON-like form of a reference.
pub open spec fn link_model(l: ResourceLink) -> Seq<(Seq<char>, FlatModel)> {
    seq![
        ("resource_type"@, text_or_null(l.resource_type)),
        ("resource_name"@, FlatModel::Str(l.resource_name@)),
        ("resolved"@, FlatModel::Bool(l.resolved)),
    ]
}

/// The JSON-like form of a node: one entry per field, in declaration order.
pub open spec fn node_model(d: DokeNode) -> Seq<(Seq<char>, FlatModel)>
    decreases d,
{
    seq![
        ("node_type"@, FlatModel::Str(d.node_type@)),
        ("markdown_element"@, FlatModel::Str(d.markdown_element@)),
        ("content"@, text_or_null(d.content)),
        ("raw_content"@, FlatModel::Str(d.raw_content@)),
        ("level"@, match d.level {
            Some(l) => FlatModel::Unsigned(l as u64),
            None => FlatModel::Null,
        }),
        ("line"@, FlatModel::Unsigned(d.line as u64)),
        ("column"@, FlatModel::Unsigned(d.column as u64)),
        ("children"@, FlatModel::Array(
            Seq::new(
                d.children@.len(),
                |i: int|
                    if 0 <= i < d.children@.len() {
                        node_model(d.children@[i])
                    } else {
                        arbitrary()
                    },
            ),
        )),
        ("wiki_links"@, FlatModel::Array(d.wiki_links@.map_values(|l: ResourceLink| link_model(l)))),
        ("ordered"@, match d.ordered {
            Some(b) => FlatModel::Bool(b),
            None => FlatModel::Null,
        }),
        ("resolved"@, FlatModel::Bool(d.resolved)),
    ]
}

fn text_value(s: &Option<String>) -> (r: FlatValue)
    ensures
        r.view() == text_or_null(*s),
{
    match s {
        Some(t) => FlatValue::Str(t.clone()),
        None => FlatValue::Null,
    }
}

fn link_to_map(l: &ResourceLink) -> (r: FlatMap)
    ensures
        r@ == link_model(*l),
{
    let mut entries: Vec<(String, FlatValue)> = Vec::new();
    entries.push(("resource_type".to_owned(), text_value(&l.resource_type)));
    entries.push(("resource_name".to_owned(), FlatValue::Str(l.resource_name.clone())));
    entries.push(("resolved".to_owned(), FlatValue::Bool(l.resolved)));
    let r = FlatMap { entries };
    assert(r@ =~= link_model(*l));
    r
}

/// The JSON-like form of a node (see `node_model`).
pub fn node_to_map(d: &DokeNode) -> (r: FlatMap)
    ensures
        r@ == node_model(*d),
    decreases d,
{
    let mut children: Vec<FlatMap> = Vec::new();
    let mut i: usize = 0;
    while i < d.children.len()
        invariant
            i <= d.children@.len(),
            children@.len() == i,
            forall|j: int| 0 <= j < i ==> #[trigger] children@[j]@ == node_model(d.children@[j]),
        decreases d.children@.len() - i,
    {
        let c = node_to_map(&d.children[i]);
        children.push(c);
        i = i + 1;
    }
    let mut links: Vec<FlatMap> = Vec::new();
    let mut k: usize = 0;
    while k < d.wiki_links.len()
        invariant
            k <= d.wiki_links@.len(),
            links@.len() == k,
            forall|j: int| 0 <= j < k ==> #[trigger] links@[j]@ == link_model(d.wiki_links@[j]),
        decreases d.wiki_links@.len() - k,
    {
        links.push(link_to_map(&d.wiki_links[k]));
        k = k + 1;
    }
    let ghost cv = children@;
    let ghost lv = links@;
    let children_value = FlatValue::Array(children);
    let links_value = FlatValue::Array(links);
    let ghost want_c = node_model(*d)[7].1->Array_0;
    let ghost want_l = node_model(*d)[8].1->Array_0;
    assert forall|j: int| 0 <= j < want_c.len() implies children_value.view()->Array_0[j] == want_c[j] by {
        assert(cv[j]@ == node_model(d.children@[j]));
    }
    assert forall|j: int| 0 <= j < want_l.len() implies links_value.view()->Array_0[j] == want_l[j] by {
        assert(lv[j]@ == link_model(d.wiki_links@[j]));
    }
    assert(children_value.view()->Array_0 =~= want_c);
    assert(links_value.view()->Array_0 =~= want_l);
    let mut entries: Vec<(String, FlatValue)> = Vec::new();
    entries.push(("node_type".to_owned(), FlatValue::Str(d.node_type.clone())));
    entries.push(("markdown_element".to_owned(), FlatValue::Str(d.markdown_element.clone())));
    entries.push(("content".to_owned(), text_value(&d.content)));
    entries.push(("raw_content".to_owned(), FlatValue::Str(d.raw_content.clone())));
    let level = match d.level {
        Some(l) => FlatValue::Unsigned(l as u64),
        None => FlatValue::Null,
    };
    entries.push(("level".to_owned(), level));
    entries.push(("line".to_owned(), FlatValue::Unsigned(d.line as u64)));
    entries.push(("column".to_owned(), FlatValue::Unsigned(d.column as u64)));
    entries.push(("children".to_owned(), children_value));
    entries.push(("wiki_links".to_owned(), links_value));
    let ordered = match d.ordered {
        Some(b) => FlatValue::Bool(b),
        None => FlatValue::Null,
    };
    entries.push(("ordered".to_owned(), ordered));
    entries.push(("resolved".to_owned(), FlatValue::Bool(d.resolved)));
    let r = FlatMap { entries };
    assert(r@ =~= node_model(*d));
    r
}

/// The output of the combined parser for a document whose metadata is `fm`
/// and whose body converts into the nodes `ds`.
pub open spec fn document_output(fm: Seq<(Seq<char>, FlatModel)>, ds: Seq<DokeNode>) -> Seq<(Seq<char>, FlatModel)> {
    seq![
        ("frontmatter"@, FlatModel::Object(fm)),
        ("body"@, FlatModel::Array(ds.map_values(|d: DokeNode| node_model(d)))),
    ]
}

/// Parses a document into its flattened metadata and its normalized body.
pub struct DokeMarkdownParser;

impl DokeUserParser for DokeMarkdownParser {
    open spec fn type_names(&self) -> Seq<Seq<char>> {
        seq!["Markdown"@, "Doke"@, "Generic"@]
    }

    /// `frontmatter` holds the flattened metadata, `body` the top-level
    /// nodes of the body. Malformed metadata fails with the error that
    /// `parse_frontmatter` gives; Markdown never fails.
    fn parse(&self, content: &str, context: &ParserContext) -> (r: DokeResult<FlatMap>)
        ensures
            r is Ok <==> frontmatter_result(content@) is Ok,
            r is Ok ==> exists|ds: Seq<DokeNode>|
                body_normalized(ds, mdast_of((frontmatter_result(content@)->Ok_0).1)) && r->Ok_0@
                    == document_output((frontmatter_result(content@)->Ok_0).0, ds),
            r is Err ==> is_frontmatter_error(r->Err_0, frontmatter_result(content@)->Err_0),
    {
        let (metadata, body) = match parse_frontmatter(content) {
            Ok(split) => split,
            Err(e) => {
                return Err(e);
            },
        };
        let nodes = match parse_markdown_body(body.as_str(), context) {
            Ok(nodes) => nodes,
            Err(e) => {
                return Err(e);
            },
        };
        let ghost ds = nodes@;
        let mut maps: Vec<FlatMap> = Vec::new();
        let mut i: usize = 0;
        while i < nodes.len()
            invariant
                ds == nodes@,
                i <= nodes@.len(),
                maps@.len() == i,
                forall|j: int| 0 <= j < i ==> #[trigger] maps@[j]@ == node_model(nodes@[j]),
            decreases nodes@.len() - i,
        {
            maps.push(node_to_map(&nodes[i]));
            i = i + 1;
        }
        let ghost mv = maps@;
        let body_value = FlatValue::Array(maps);
        let ghost want = ds.map_values(|d: DokeNode| node_model(d));
        assert forall|j: int| 0 <= j < want.len() implies body_value.view()->Array_0[j] == want[j] by {
            assert(mv[j]@ == node_model(ds[j]));
        }
        assert(body_value.view()->Array_0 =~= want);
        let mut entries: Vec<(String, FlatValue)> = Vec::new();
        entries.push(("frontmatter".to_owned(), FlatValue::Object(metadata)));
        entries.push(("body".to_owned(), body_value));
        let r = FlatMap { entries };
        assert(r@ =~= document_output((frontmatter_result(content@)->Ok_0).0, ds));
        Ok(r)
    }

    fn supported_types(&self) -> (r: Vec<String>) {
        let mut r: Vec<String> = Vec::new();
        r.push("Markdown".to_owned());
        r.push("Doke".to_owned());
        r.push("Generic".to_owned());
        r
    }

    fn version(&self) -> (r: String)
        ensures
            r@ == "1.0.0"@,
    {
        "1.0.0".to_owned()
    }
}

} // verus!
