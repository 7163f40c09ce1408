use dokedex::flatmap::FlatValue;
use dokedex::parser_api::{DefaultMarkdownParser, DokeUserParser, ParserContext, ParserRegistry};

#[test]
fn test_parser_context_creation() {
    let context = ParserContext::new(
        "/dokedex",
        "/project",
        "Item",
        "/dokedex/Items/sword.md",
        "ItemParser",
    );

    assert_eq!(context.resource_type, "Item");
    assert_eq!(context.parser_name, "ItemParser");
}

#[test]
fn test_default_markdown_parser() {
    let parser = DefaultMarkdownParser;
    let context = ParserContext::new(
        "/dokedex",
        "/project",
        "Markdown",
        "test.md",
        "DefaultMarkdownParser",
    );

    let content = "# Heading\nSome content";
    let result = parser.parse(content, &context).unwrap();

    assert!(result.contains_key("sections"));
    let sections = match result.get("sections") {
        Some(FlatValue::Array(items)) => items,
        _ => panic!("sections is not an array"),
    };
    assert_eq!(sections.len(), 2);
}

#[test]
fn test_parser_registry() {
    let mut registry = ParserRegistry::new();
    let parser = DefaultMarkdownParser;

    registry.register(parser);

    // Test that parser is registered for all supported types
    assert!(registry.get_parser("markdown").is_some());
    assert!(registry.get_parser("text").is_some());
    assert!(registry.get_parser("note").is_some());

    // Test that unknown types return None
    assert!(registry.get_parser("unknown").is_none());
}
