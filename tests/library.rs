use dokedex::doke_parser::{node_to_map, parse_markdown_body, DokeMarkdownParser};
use dokedex::error::DokeError;
use dokedex::flatmap::{FlatMap, FlatValue};
use dokedex::frontmatter::{parse_frontmatter, split_frontmatter};
use dokedex::mdtree::{parse_markdown_tree, MdKind, MdNode};
use dokedex::normalize::{convert_mdast_node, extract_text_content_from_node, extract_wiki_links_from_text, DokeNode};
use dokedex::parser_api::{DefaultMarkdownParser, DokeUserParser, ParserContext, ParserRegistry};
use dokedex::position::{SourcePosition, SourceSpan};
use dokedex::text::{decimal_string, display_string, wiki_link_names};
use dokedex::error::DokeResult;

fn context() -> ParserContext {
    ParserContext::new("/dokedex", "/project", "Test", "test.md", "DokeMarkdownParser")
}

fn str_of(map: &FlatMap, key: &str) -> Option<String> {
    match map.get(key) {
        Some(FlatValue::Str(s)) => Some(s.clone()),
        _ => None,
    }
}

fn unsigned_of(map: &FlatMap, key: &str) -> Option<u64> {
    match map.get(key) {
        Some(FlatValue::Unsigned(u)) => Some(*u),
        _ => None,
    }
}

fn all_unresolved(node: &DokeNode) -> bool {
    !node.resolved && node.children.iter().all(all_unresolved)
}

fn leaf(kind: MdKind, value: &str) -> MdNode {
    MdNode { kind, depth: 0, ordered: false, value: value.to_string(), children: Vec::new() }
}

struct ItemParser {
    name: String,
}

impl DokeUserParser for ItemParser {
    fn parse(&self, content: &str, _context: &ParserContext) -> DokeResult<FlatMap> {
        let mut m = FlatMap::new();
        m.insert("content".to_string(), FlatValue::Str(content.to_string()));
        Ok(m)
    }

    fn supported_types(&self) -> Vec<String> {
        vec!["Item".to_string(), "Boot".to_string()]
    }

    fn version(&self) -> String {
        self.name.clone()
    }
}

#[test]
fn position_counts_lines_and_characters() {
    let p = SourcePosition::from_byte_offset("ab\ncd", 4);
    assert_eq!((p.line, p.column, p.byte_offset), (2, 2, 4));
    // "é" takes two bytes but one column.
    let q = SourcePosition::from_byte_offset("é!x", 3);
    assert_eq!((q.line, q.column, q.byte_offset), (1, 3, 3));
    let end = SourcePosition::from_byte_offset("a\n", 10);
    assert_eq!((end.line, end.column, end.byte_offset), (2, 1, 2));
    let d = SourcePosition::default();
    assert_eq!((d.line, d.column, d.byte_offset), (1, 1, 0));
    let span = SourceSpan::single_position(p);
    assert_eq!(span.start, span.end);
}

#[test]
fn wiki_links_in_order_and_unresolved() {
    let links = extract_wiki_links_from_text("[[A]] x [[B c]] y [[D]]");
    let names: Vec<&str> = links.iter().map(|l| l.resource_name.as_str()).collect();
    assert_eq!(names, vec!["A", "B c", "D"]);
    assert!(links.iter().all(|l| !l.resolved && l.resource_type.is_none()));
}

#[test]
fn wiki_link_edge_cases() {
    assert_eq!(wiki_link_names("[[[a]]"), vec!["[a".to_string()]);
    assert!(wiki_link_names("[[]]").is_empty());
    assert!(wiki_link_names("[[a]").is_empty());
    assert!(wiki_link_names("[[a]b]]").is_empty());
    assert!(wiki_link_names("").is_empty());
    assert_eq!(wiki_link_names("[[x]][[y]]"), vec!["x".to_string(), "y".to_string()]);
}

#[test]
fn display_text_unwraps_links() {
    assert_eq!(display_string("Body with [[Ref]]."), "Body with Ref.");
    assert_eq!(display_string("no links [x]"), "no links [x]");
    assert_eq!(decimal_string(0), "0");
    assert_eq!(decimal_string(1234), "1234");
}

#[test]
fn missing_delimiters_keep_the_whole_text() {
    for doc in [
        "--- not a delimiter\nname: X\n---\nBody",
        "---\nname: X\n---",
        "intro\n---\nname: X\n---\nBody",
        "---\n---\nBody",
        "",
    ] {
        let (meta, body) = parse_frontmatter(doc).unwrap();
        assert!(meta.is_empty());
        assert_eq!(body, doc);
    }
}

#[test]
fn frontmatter_name_and_body() {
    let (meta, body) = parse_frontmatter("---\nname: X\n---\nBody").unwrap();
    assert_eq!(meta.len(), 1);
    assert_eq!(str_of(&meta, "name"), Some("X".to_string()));
    assert_eq!(body, "Body");
    let split = split_frontmatter("---  \r\na: 1\nb: 2\n---\t\nrest\n").unwrap();
    assert_eq!(split.0, "a: 1\nb: 2");
    assert_eq!(split.1, "rest\n");
}

#[test]
fn nested_scalar_reads_back_dotted() {
    let (meta, _) = parse_frontmatter("---\nstats:\n  health: 7\n  tag: x\n  ok: true\n---\n").unwrap();
    assert!(matches!(meta.get("stats.health"), Some(FlatValue::Integer(7))));
    assert!(matches!(meta.get("stats.ok"), Some(FlatValue::Bool(true))));
    assert_eq!(str_of(&meta, "stats.tag"), Some("x".to_string()));
    assert!(meta.get("stats").is_none());
}

#[test]
fn malformed_or_empty_metadata_is_an_error() {
    let unterminated = parse_frontmatter("---\nname: \"X\nother: y\n---\nBody");
    assert!(matches!(unterminated, Err(DokeError::InvalidFrontmatter { .. })));
    let empty = parse_frontmatter("---\n\n---\nBody");
    assert!(matches!(empty, Err(DokeError::InvalidFrontmatter { .. })));
}

#[test]
fn metadata_value_kinds() {
    let doc = "---\nratio: 1.5\nbig: .inf\nnothing: ~\ntags: [a, b]\n---\n";
    let (meta, _) = parse_frontmatter(doc).unwrap();
    assert!(matches!(meta.get("ratio"), Some(FlatValue::Real(t)) if t == "1.5"));
    assert!(meta.get("big").is_none());
    assert!(matches!(meta.get("nothing"), Some(FlatValue::Null)));
    let tags = match meta.get("tags") {
        Some(FlatValue::Array(items)) => items,
        _ => panic!("tags is not an array"),
    };
    assert_eq!(tags.len(), 2);
    assert_eq!(str_of(&tags[0], ""), Some("a".to_string()));
    assert_eq!(str_of(&tags[1], ""), Some("b".to_string()));
}

#[test]
fn heading_and_paragraph_example() {
    let (meta, body) = parse_frontmatter("# Title\nBody with [[Ref]].").unwrap();
    assert!(meta.is_empty());
    let nodes = parse_markdown_body(&body, &context()).unwrap();
    assert_eq!(nodes.len(), 2);
    assert_eq!(nodes[0].markdown_element, "heading");
    assert_eq!(nodes[0].level, Some(1));
    assert_eq!(nodes[0].content.as_deref(), Some("Title"));
    assert!(nodes[0].wiki_links.is_empty());
    assert_eq!(nodes[1].markdown_element, "paragraph");
    assert_eq!(nodes[1].content.as_deref(), Some("Body with Ref."));
    assert_eq!(nodes[1].wiki_links.len(), 1);
    assert_eq!(nodes[1].wiki_links[0].resource_name, "Ref");
    assert_eq!(nodes[0].raw_content, "Heading level 1");
    assert_eq!(nodes[1].raw_content, "Paragraph content");
}

#[test]
fn ordered_list_example() {
    let nodes = parse_markdown_body("1. a\n2. b [[R]]\n3. c", &context()).unwrap();
    assert_eq!(nodes.len(), 1);
    assert_eq!(nodes[0].ordered, Some(true));
    assert_eq!(nodes[0].raw_content, "Ordered list");
    assert_eq!(nodes[0].children.len(), 3);
    assert_eq!(nodes[0].children[1].markdown_element, "list_item");
    assert_eq!(nodes[0].children[1].wiki_links.len(), 1);
    assert_eq!(nodes[0].children[1].wiki_links[0].resource_name, "R");
    assert_eq!(nodes[0].wiki_links.len(), 1);
}

#[test]
fn every_node_is_unresolved() {
    let doc = "# A [[x]]\n\n- one\n  - two [[y]]\n\n> quote\n\n`code`";
    let nodes = parse_markdown_body(doc, &context()).unwrap();
    assert!(!nodes.is_empty());
    assert!(nodes.iter().all(all_unresolved));
    assert_eq!(nodes.last().unwrap().markdown_element, "paragraph");
    let quote = &nodes[2];
    assert_eq!(quote.markdown_element, "unknown");
    assert!(quote.children.is_empty() && quote.content.is_none() && quote.raw_content.is_empty());
}

#[test]
fn converting_hand_built_nodes() {
    let unknown = convert_mdast_node(&leaf(MdKind::Other, "ignored"), 3, 4);
    assert_eq!(unknown.markdown_element, "unknown");
    assert_eq!((unknown.line, unknown.column), (3, 4));
    assert!(unknown.content.is_none());
    let heading = MdNode {
        kind: MdKind::Heading,
        depth: 2,
        ordered: false,
        value: String::new(),
        children: vec![
            leaf(MdKind::Text, "See [[Doc]] "),
            MdNode {
                kind: MdKind::Strong,
                depth: 0,
                ordered: false,
                value: String::new(),
                children: vec![leaf(MdKind::Text, "now")],
            },
            leaf(MdKind::InlineCode, "[[c]]"),
            leaf(MdKind::Image, "alt"),
        ],
    };
    let node = convert_mdast_node(&heading, 1, 1);
    assert_eq!(node.level, Some(2));
    assert_eq!(node.raw_content, "Heading level 2");
    assert_eq!(node.content.as_deref(), Some("See Doc now[[c]]alt"));
    assert_eq!(node.wiki_links.len(), 1);
    assert_eq!(node.children.len(), 4);
    assert_eq!(node.children[0].raw_content, "See [[Doc]] ");
    assert_eq!(node.children[1].markdown_element, "unknown");
    assert_eq!(extract_text_content_from_node(&leaf(MdKind::Other, "x")), None);
}

#[test]
fn markdown_tree_kinds() {
    let root = parse_markdown_tree("# T\n\n*e* and ~~d~~").unwrap();
    assert_eq!(root.kind, MdKind::Root);
    assert_eq!(root.children.len(), 2);
    assert_eq!(root.children[0].kind, MdKind::Heading);
    assert_eq!(root.children[0].depth, 1);
    let para = &root.children[1];
    assert_eq!(para.kind, MdKind::Paragraph);
    assert_eq!(para.children[0].kind, MdKind::Emphasis);
    assert_eq!(para.children[2].kind, MdKind::Delete);
}

#[test]
fn registry_is_case_insensitive() {
    let mut registry = ParserRegistry::new();
    registry.register(ItemParser { name: "items".to_string() });
    assert_eq!(registry.get_parser("item").unwrap().version(), "items");
    assert_eq!(registry.get_parser("BOOT").unwrap().version(), "items");
    assert!(registry.get_parser("unregistered").is_none());
    let mut types = registry.get_supported_types();
    types.sort();
    assert_eq!(types, vec!["boot".to_string(), "item".to_string()]);
    assert_eq!(registry.get_all_parsers().len(), 2);
    registry.register(ItemParser { name: "boots".to_string() });
    assert_eq!(registry.get_parser("Boot").unwrap().version(), "boots");
    assert_eq!(registry.get_supported_types().len(), 2);
}

#[test]
fn default_parser_sections() {
    let parser = DefaultMarkdownParser;
    let out = parser.parse("## Two  \r\n\n   \nplain  text \n#", &context()).unwrap();
    assert_eq!(str_of(&out, "type"), Some("markdown".to_string()));
    let sections = match out.get("sections") {
        Some(FlatValue::Array(items)) => items,
        _ => panic!("sections is not an array"),
    };
    assert_eq!(sections.len(), 3);
    assert_eq!(str_of(&sections[0], "type"), Some("heading".to_string()));
    assert_eq!(unsigned_of(&sections[0], "level"), Some(2));
    assert_eq!(str_of(&sections[0], "content"), Some("Two".to_string()));
    assert_eq!(unsigned_of(&sections[0], "line"), Some(1));
    assert_eq!(str_of(&sections[1], "type"), Some("paragraph".to_string()));
    assert_eq!(str_of(&sections[1], "content"), Some("plain  text".to_string()));
    assert_eq!(unsigned_of(&sections[1], "line"), Some(4));
    assert_eq!(str_of(&sections[2], "content"), Some(String::new()));
    assert_eq!(unsigned_of(&sections[2], "line"), Some(5));
    assert_eq!(parser.version(), "1.0.0");
    assert_eq!(parser.supported_types(), vec!["Markdown", "Text", "Note"]);
    assert!(parser.default_config().is_none());
    assert!(parser.validate_config(&FlatMap::new()).is_ok());
}

#[test]
fn combined_parser_output() {
    let parser = DokeMarkdownParser;
    let out = parser.parse("---\nname: X\n---\nHi [[Y]]", &context()).unwrap();
    let body = match out.get("body") {
        Some(FlatValue::Array(items)) => items,
        _ => panic!("body is not an array"),
    };
    assert_eq!(body.len(), 1);
    assert_eq!(str_of(&body[0], "markdown_element"), Some("paragraph".to_string()));
    assert_eq!(str_of(&body[0], "content"), Some("Hi Y".to_string()));
    assert!(matches!(body[0].get("level"), Some(FlatValue::Null)));
    assert_eq!(unsigned_of(&body[0], "line"), Some(1));
    let links = match body[0].get("wiki_links") {
        Some(FlatValue::Array(items)) => items,
        _ => panic!("wiki_links is not an array"),
    };
    assert_eq!(str_of(&links[0], "resource_name"), Some("Y".to_string()));
    let bad = parser.parse("---\n[unclosed\n---\nBody", &context());
    assert!(matches!(bad, Err(DokeError::InvalidFrontmatter { .. })));
    let nodes = parse_markdown_body("Hi", &context()).unwrap();
    let map = node_to_map(&nodes[0]);
    assert_eq!(map.len(), 11);
}

#[test]
fn context_children_and_metadata() {
    let parent = ParserContext::new("/d", "/p", "Item", "items/sword.md", "ItemParser");
    let child = parent.create_child("Effect");
    assert_eq!(child.resource_type, "Effect");
    assert_eq!(child.current_file, "items/sword.md");
    let state = child.parent_resource.as_ref().unwrap();
    assert_eq!(str_of(state, "resource_type"), Some("Item".to_string()));
    assert_eq!(str_of(state, "file"), Some("items/sword.md".to_string()));
    assert_eq!(str_of(state, "parser"), Some("ItemParser".to_string()));
    let with = child.with_metadata("depth", FlatValue::Integer(2));
    assert!(matches!(with.metadata.get("depth"), Some(FlatValue::Integer(2))));
}

#[test]
fn error_helpers() {
    let syntax = DokeError::syntax_error("bad token", 3, 7, "a.md", "P");
    assert_eq!(syntax.describe(), "Syntax error in a.md at line 3, column 7: bad token (parser: P)");
    assert_eq!(syntax.file_path(), Some("a.md"));
    let wrapped = syntax.with_source(DokeError::InternalError("inner".to_string()));
    match &wrapped {
        DokeError::SyntaxError { source: Some(inner), message, .. } => {
            assert_eq!(message, "bad token");
            assert_eq!(inner.describe(), "Internal error: inner");
        },
        _ => panic!("cause not attached"),
    }
    let internal = DokeError::InternalError("x".to_string()).with_source(DokeError::NotImplemented("y".to_string()));
    assert!(matches!(&internal, DokeError::InternalError(m) if m == "x"));
    assert_eq!(internal.file_path(), None);
    let validation = DokeError::validation_error("empty", "b.md", "Q");
    assert_eq!(validation.describe(), "Validation error in b.md: empty (parser: Q)");
    let config = DokeError::config_error("missing key", "c.toml");
    assert_eq!(config.describe(), "Configuration error in c.toml: missing key");
    let io = DokeError::io_error(std::io::Error::new(std::io::ErrorKind::NotFound, "gone"), "d.md");
    assert_eq!(io.file_path(), Some("d.md"));
    let front = parse_frontmatter("---\n\n---\nx").unwrap_err();
    assert_eq!(front.describe(), "Invalid frontmatter in unknown at line 0: Empty YAML frontmatter");
}

#[test]
fn list_text_covers_all_items() {
    let nodes = parse_markdown_body("1. a\n2. b [[R]]\n3. c", &context()).unwrap();
    assert_eq!(nodes[0].content.as_deref(), Some("ab Rc"));
    let nested = parse_markdown_body("- x\n  - y\n- z", &context()).unwrap();
    assert_eq!(nested[0].content.as_deref(), Some("xyz"));
    assert_eq!(nested[0].children[0].content.as_deref(), Some("xy"));
}

#[test]
fn delimiters_follow_any_white_space() {
    let (meta, body) = parse_frontmatter("---\u{b}\nname: X\n---  \n\n\nBody").unwrap();
    assert_eq!(str_of(&meta, "name"), Some("X".to_string()));
    assert_eq!(body, "Body");
    let (meta, body) = parse_frontmatter("---\n\nname: Y\n---\nrest").unwrap();
    assert_eq!(str_of(&meta, "name"), Some("Y".to_string()));
    assert_eq!(body, "rest");
    let empty = parse_frontmatter("---\n\n---\nBody");
    assert!(matches!(empty, Err(DokeError::InvalidFrontmatter { .. })));
}

#[test]
fn reals_that_convert_are_kept() {
    let (meta, _) = parse_frontmatter("---\na: .5\nb: +1.5\nc: 1e999\nd: .nan\n---\n").unwrap();
    assert!(matches!(meta.get("a"), Some(FlatValue::Real(t)) if t == ".5"));
    assert!(matches!(meta.get("b"), Some(FlatValue::Real(t)) if t == "+1.5"));
    assert!(meta.get("c").is_none());
    assert!(meta.get("d").is_none());
}

#[test]
fn frontmatter_error_messages() {
    match parse_frontmatter("---\n\n---\nBody") {
        Err(DokeError::InvalidFrontmatter { message, file, line }) => {
            assert_eq!(message, "Empty YAML frontmatter");
            assert_eq!(file, "unknown");
            assert_eq!(line, 0);
        },
        _ => panic!("expected an error"),
    }
    match DokeMarkdownParser.parse("---\nname: \"X\n---\nBody", &context()) {
        Err(DokeError::InvalidFrontmatter { message, .. }) => {
            assert!(message.starts_with("YAML parsing error: "));
        },
        _ => panic!("expected an error"),
    }
}

#[test]
fn supported_types_are_unique() {
    let mut registry = ParserRegistry::new();
    registry.register(DefaultMarkdownParser);
    registry.register(DefaultMarkdownParser);
    let mut types = registry.get_supported_types();
    types.sort();
    assert_eq!(types, vec!["markdown", "note", "text"]);
    assert_eq!(registry.get_parser("MARKDOWN").unwrap().version(), "1.0.0");
}

#[test]
fn text_nodes_keep_their_literal() {
    let nodes = parse_markdown_body("Body with [[Ref]].", &context()).unwrap();
    assert_eq!(nodes[0].content.as_deref(), Some("Body with Ref."));
    let text = &nodes[0].children[0];
    assert_eq!(text.markdown_element, "text");
    assert_eq!(text.content.as_deref(), Some("Body with [[Ref]]."));
    assert_eq!(text.raw_content, "Body with [[Ref]].");
    assert_eq!(text.wiki_links[0].resource_name, "Ref");
}

#[test]
fn registry_matches_mixed_case() {
    let mut registry = ParserRegistry::new();
    registry.register(ItemParser { name: "items".to_string() });
    assert!(registry.get_parser("iTeM").is_some());
    assert!(registry.get_parser("boot").is_some());
    assert!(registry.get_parser("Boots").is_none());
}
