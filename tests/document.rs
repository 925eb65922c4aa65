use biotite::ast::{Block, Inline};
use biotite::block::parse_document;
use biotite::document::parse_markdown;
use biotite::front_matter::parse_front_matter;

#[test]
fn test_parse_document() {
    let input = r#"
# Heading 1

This is a paragraph.

- List item 1
- List item 2

```rust
fn code() {}
```
"#;

    match parse_document(input) {
        Some((doc, rest)) => {
            assert_eq!(rest, "");
            assert_eq!(doc.blocks.len(), 4);
            match &doc.blocks[0] {
                Block::Heading { level: 1, .. } => {}
                _ => panic!("First block should be Heading"),
            }
            match &doc.blocks[1] {
                Block::Paragraph(_) => {}
                _ => panic!("Second block should be Paragraph"),
            }
            match &doc.blocks[2] {
                Block::List(_) => {}
                _ => panic!("Third block should be List"),
            }
            match &doc.blocks[3] {
                Block::FencedCodeBlock { .. } => {}
                _ => panic!("Fourth block should be CodeBlock"),
            }
        }
        _ => panic!("Document parsing failed"),
    }
}

#[test]
fn front_matter_round_trip() {
    let input = "---\ntitle: Hello\ntags:\n- a\n- b\n---\nBody text.\n";
    let (fm, body) = parse_front_matter(input);
    let fm = fm.expect("front matter");
    assert_eq!(fm.get("title"), Some(&"Hello".to_string()));
    assert_eq!(fm.get("tags"), Some(&"a, b".to_string()));
    assert_eq!(fm.get("missing"), None);
    assert_eq!(body, "Body text.\n");
}

#[test]
fn front_matter_absent_or_unclosed() {
    let (fm, body) = parse_front_matter("# Title\n");
    assert!(fm.is_none());
    assert_eq!(body, "# Title\n");
    let (fm, body) = parse_front_matter("---\ntitle: x\n");
    assert!(fm.is_none());
    assert_eq!(body, "---\ntitle: x\n");
}

#[test]
fn front_matter_values_are_trimmed_and_replaced() {
    let (fm, _) = parse_front_matter("---\n  slug:   my-page  \nnoise line\nslug: other\n---\n");
    let fm = fm.unwrap();
    assert_eq!(fm.get("slug"), Some(&"other".to_string()));
    assert_eq!(fm.entries.len(), 1);
}

#[test]
fn unterminated_strong_keeps_the_document() {
    match parse_document("**unterminated\n") {
        Some((doc, rest)) => {
            assert_eq!(rest, "\n");
            let text = |s: &str| Inline::Text(s.to_string());
            assert_eq!(doc.blocks, vec![Block::Paragraph(vec![text("*"), text("*"), text("unterminated")])]);
        }
        None => panic!("document parse failed"),
    }
}

#[test]
fn markdown_source_has_front_matter_and_body() {
    let doc = parse_markdown("notes/a.md".to_string(), "---\npublish: true\n---\n# A\n");
    assert_eq!(doc.path, "notes/a.md");
    assert_eq!(doc.front_matter.as_ref().unwrap().get("publish"), Some(&"true".to_string()));
    let body = doc.body.unwrap();
    assert_eq!(body.blocks, vec![Block::Heading { level: 1, content: vec![Inline::Text("A".to_string())] }]);
}
