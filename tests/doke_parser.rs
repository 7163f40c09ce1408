use dokedex::doke_parser::{parse_markdown_body, DokeMarkdownParser};
use dokedex::error::DokeResult;
use dokedex::flatmap::{FlatMap, FlatValue};
use dokedex::frontmatter::parse_frontmatter;
use dokedex::normalize::{extract_wiki_links_from_text, DokeNode};
use dokedex::parser_api::{DokeUserParser, ParserContext};

fn create_test_context() -> ParserContext {
    ParserContext::new("/dokedex", "/project", "Test", "test.md", "DokeMarkdownParser")
}

fn str_of(map: &FlatMap, key: &str) -> Option<String> {
    match map.get(key) {
        Some(FlatValue::Str(s)) => Some(s.clone()),
        _ => None,
    }
}

fn int_of(map: &FlatMap, key: &str) -> Option<i64> {
    match map.get(key) {
        Some(FlatValue::Integer(i)) => Some(*i),
        _ => None,
    }
}

fn collect_links(node: &DokeNode, links: &mut Vec<String>) {
    for wiki_link in &node.wiki_links {
        links.push(wiki_link.resource_name.clone());
    }
    for child in &node.children {
        collect_links(child, links);
    }
}

#[test]
fn test_frontmatter_parsing() -> DokeResult<()> {
    let content = r#"---
id: test_001
name: "Test Item"
price: 100
tags: [common, test]
---
This is the body content"#;

    let (frontmatter, body) = parse_frontmatter(content)?;

    assert_eq!(str_of(&frontmatter, "id"), Some("test_001".to_string()));
    assert_eq!(str_of(&frontmatter, "name"), Some("Test Item".to_string()));
    assert_eq!(int_of(&frontmatter, "price"), Some(100));
    assert_eq!(body, "This is the body content");

    Ok(())
}

#[test]
fn test_no_frontmatter() -> DokeResult<()> {
    let content = "This is content without frontmatter";
    let (frontmatter, body) = parse_frontmatter(content)?;

    assert!(frontmatter.is_empty());
    assert_eq!(body, "This is content without frontmatter");

    Ok(())
}

#[test]
fn test_wiki_link_extraction() {
    let text = "This has [[WikiLink]] and [[Another Resource]] with some text";
    let links = extract_wiki_links_from_text(text);

    assert_eq!(links.len(), 2);
    assert_eq!(links[0].resource_name, "WikiLink");
    assert_eq!(links[1].resource_name, "Another Resource");
    assert!(!links[0].resolved);
    assert!(!links[1].resolved);
}

#[test]
fn test_ordered_list_parsing() -> DokeResult<()> {
    let content = r#"1. First item
2. Second item with [[Resource]]
3. Third item"#;

    let context = create_test_context();
    let nodes = parse_markdown_body(content, &context)?;

    assert_eq!(nodes.len(), 1);
    assert_eq!(nodes[0].markdown_element, "list");
    assert_eq!(nodes[0].ordered, Some(true));
    assert_eq!(nodes[0].children.len(), 3);
    assert_eq!(nodes[0].children[1].wiki_links.len(), 1);
    assert_eq!(nodes[0].children[1].wiki_links[0].resource_name, "Resource");

    Ok(())
}

#[test]
fn test_full_doke_parser() -> DokeResult<()> {
    let content = r#"---
id: test_full
name: "Full Test"
---
# Test Document

This is a test paragraph with [[TestResource]].

## Features
- Feature 1
- Feature 2 with [[FeatureResource]]
- [[StandaloneResource]]

## Steps
1. Step one
2. Step two with [[StepResource]]"#;

    let parser = DokeMarkdownParser;
    let context = create_test_context();
    let result = parser.parse(content, &context)?;

    // Check frontmatter
    let frontmatter = match result.get("frontmatter") {
        Some(FlatValue::Object(m)) => m,
        _ => panic!("frontmatter is not an object"),
    };
    assert_eq!(str_of(frontmatter, "id"), Some("test_full".to_string()));
    assert_eq!(str_of(frontmatter, "name"), Some("Full Test".to_string()));

    // Check body structure
    let body = match result.get("body") {
        Some(FlatValue::Array(items)) => items,
        _ => panic!("body is not an array"),
    };
    assert!(body.len() >= 3); // heading, paragraph, heading

    // Check resolved flags are all false
    for node in body {
        assert!(matches!(node.get("resolved"), Some(FlatValue::Bool(false))));
    }

    Ok(())
}

#[test]
fn test_complex_frontmatter() -> DokeResult<()> {
    let content = r#"---
name: "Complex Item"
stats:
  health: 100
  damage: 25
  defense: 10
tags: [weapon, melee, rare]
---
Body content"#;

    let (frontmatter, _) = parse_frontmatter(content)?;

    // Test flat properties
    assert_eq!(str_of(&frontmatter, "name"), Some("Complex Item".to_string()));

    // Test nested properties
    assert_eq!(int_of(&frontmatter, "stats.health"), Some(100));
    assert_eq!(int_of(&frontmatter, "stats.damage"), Some(25));
    assert_eq!(int_of(&frontmatter, "stats.defense"), Some(10));

    // Test array
    let tags = match frontmatter.get("tags") {
        Some(FlatValue::Array(items)) => items,
        _ => panic!("tags is not an array"),
    };
    assert_eq!(tags.len(), 3);

    Ok(())
}

#[test]
fn test_malformed_frontmatter() {
    let content = r#"---
name: "Test
unclosed: string
---
Body"#;

    let result = parse_frontmatter(content);
    assert!(result.is_err());
}

#[test]
fn test_empty_content() -> DokeResult<()> {
    let content = "";
    let (frontmatter, body) = parse_frontmatter(content)?;

    assert!(frontmatter.is_empty());
    assert_eq!(body, "");

    Ok(())
}

#[test]
fn test_text_content_extraction() -> DokeResult<()> {
    let content = r#"# Heading with **bold** and _italic_
        
Paragraph with [[Link]] and `code`."#;

    let context = create_test_context();
    let nodes = parse_markdown_body(content, &context)?;

    // Should extract text content properly
    let heading = &nodes[0];
    assert!(heading.content.as_ref().unwrap().contains("Heading with bold and italic"));

    let paragraph = &nodes[1];
    assert!(paragraph.content.as_ref().unwrap().contains("Paragraph with Link and code"));

    Ok(())
}

#[test]
fn test_parser_supported_types() {
    let parser = DokeMarkdownParser;
    let types = parser.supported_types();

    assert_eq!(types.len(), 3);
    assert!(types.contains(&"Markdown".to_string()));
    assert!(types.contains(&"Doke".to_string()));
    assert!(types.contains(&"Generic".to_string()));
}

#[test]
fn test_parser_version() {
    let parser = DokeMarkdownParser;
    assert_eq!(parser.version(), "1.0.0");
}

#[test]
fn test_mixed_markdown_elements() -> DokeResult<()> {
    let content = r#"# Mixed Elements

**Bold text** with [[BoldLink]].

*Italic text* with [[ItalicLink]].

`Code with [[CodeLink]]` but wiki link shouldn't parse here.

[Regular link](http://example.com) with [[RegularLink]]."#;

    let context = create_test_context();
    let nodes = parse_markdown_body(content, &context)?;

    // Should parse wiki links in appropriate contexts
    let mut found_links = Vec::new();
    for node in &nodes {
        collect_links(node, &mut found_links);
    }

    // Should find wiki links in text but not in code
    assert!(found_links.contains(&"BoldLink".to_string()));
    assert!(found_links.contains(&"ItalicLink".to_string()));
    assert!(found_links.contains(&"RegularLink".to_string()));
    assert!(!found_links.contains(&"CodeLink".to_string()));

    Ok(())
}

#[test]
fn test_error_handling() -> DokeResult<()> {
    // Test with invalid markdown that should still parse gracefully
    let content = r#"---
valid: frontmatter
---
# Valid content

[Unclosed link

- List with [[ValidLink]]"#;

    let parser = DokeMarkdownParser;
    let context = create_test_context();

    // Should still parse despite invalid markdown
    let result = parser.parse(content, &context);
    assert!(result.is_ok());

    let parsed = result.unwrap();
    assert!(parsed.contains_key("frontmatter"));
    assert!(parsed.contains_key("body"));

    Ok(())
}

#[test]
fn test_markdown_body_parsing() -> DokeResult<()> {
    let content = r#"# Heading 1
This is a paragraph with [[WikiLink]].

## Heading 2
- List item 1
- List item 2 with [[AnotherLink]]
- List item 3"#;

    let context = create_test_context();
    let nodes = parse_markdown_body(content, &context)?;

    // In the Markdown tree a list is a sibling of the heading above it, not
    // its child, so the body has four top-level nodes: heading, paragraph,
    // heading, list.
    assert_eq!(nodes.len(), 4);

    // First node should be heading
    assert_eq!(nodes[0].markdown_element, "heading");
    assert_eq!(nodes[0].level, Some(1));

    // Second node should be paragraph with wiki link
    assert_eq!(nodes[1].markdown_element, "paragraph");
    assert_eq!(nodes[1].wiki_links.len(), 1);
    assert_eq!(nodes[1].wiki_links[0].resource_name, "WikiLink");

    // Third node should be heading
    assert_eq!(nodes[2].markdown_element, "heading");
    assert_eq!(nodes[2].level, Some(2));
    assert_eq!(nodes[3].markdown_element, "list");

    Ok(())
}

#[test]
fn test_nested_structure() -> DokeResult<()> {
    let content = r#"# Main Heading

## Subheading
- Item 1
- Item 2
  - Nested item
  - Another nested with [[NestedResource]]
- Item 3"#;

    let context = create_test_context();
    let nodes = parse_markdown_body(content, &context)?;

    // Check nested structure
    let subheading = &nodes[1];
    assert_eq!(subheading.markdown_element, "heading");
    assert_eq!(subheading.level, Some(2));

    // The list follows the subheading as its sibling, not as its child.
    let list = &nodes[2];
    assert_eq!(list.markdown_element, "list");
    assert_eq!(list.children.len(), 3);

    // An item's children are its paragraph, then its nested list.
    let nested_list = &list.children[1].children[1];
    assert_eq!(nested_list.markdown_element, "list");
    assert_eq!(nested_list.children[1].wiki_links.len(), 1);
    assert_eq!(nested_list.children[1].wiki_links[0].resource_name, "NestedResource");

    Ok(())
}

#[test]
fn test_wiki_links_in_different_contexts() -> DokeResult<()> {
    let content = r#"# Heading with [[HeadingLink]]

Paragraph with [[ParagraphLink]].

- List item with [[ListItemLink]]
- [[StandaloneListLink]]

> Blockquote with [[BlockquoteLink]]"#;

    let context = create_test_context();
    let nodes = parse_markdown_body(content, &context)?;

    // Collect all wiki links
    let mut all_links = Vec::new();
    for node in &nodes {
        collect_links(node, &mut all_links);
    }

    // Should find all wiki links
    assert!(all_links.contains(&"HeadingLink".to_string()));
    assert!(all_links.contains(&"ParagraphLink".to_string()));
    assert!(all_links.contains(&"ListItemLink".to_string()));
    assert!(all_links.contains(&"StandaloneListLink".to_string()));
    // A blockquote is not a recognized kind: it becomes an empty `unknown`
    // node, so the link inside it is not collected.
    assert!(!all_links.contains(&"BlockquoteLink".to_string()));

    Ok(())
}
