use biotite::ast::{Block, Inline, ListType};
use biotite::block::{
    blank_line, parse_block, parse_blockquote, parse_fenced_code_block, parse_heading,
    parse_horizontal_rule, parse_line, parse_orderd_list, parse_paragraph, parse_unorderd_list,
    take_until,
};

fn text(s: &str) -> Inline {
    Inline::Text(s.to_string())
}

#[test]
fn test_parse_heading() {
    assert_eq!(
        parse_heading("# Title One\n"),
        Some((Block::Heading { level: 1, content: vec![text("Title One")] }, "".to_string()))
    );
    assert_eq!(
        parse_heading("### Title **Three**\n"),
        Some((
            Block::Heading { level: 3, content: vec![text("Title "), Inline::Strong(vec![text("Three")])] },
            "".to_string()
        ))
    );
}

#[test]
fn test_parse_horizontal_rule() {
    assert_eq!(parse_horizontal_rule("---\n"), Some((Block::HorizontalRule, "".to_string())));
    assert_eq!(parse_horizontal_rule("***\n"), Some((Block::HorizontalRule, "".to_string())));
    assert_eq!(parse_horizontal_rule("___\n"), Some((Block::HorizontalRule, "".to_string())));
}

#[test]
fn test_parse_fenced_code_block() {
    assert_eq!(
        parse_fenced_code_block("```rust\nfn main() {}\n```"),
        Some((
            Block::FencedCodeBlock { language: Some("rust".to_string()), code: "fn main() {}\n".to_string() },
            "".to_string()
        ))
    );
    assert_eq!(
        parse_fenced_code_block("```\nline 1\nline 2\n```"),
        Some((Block::FencedCodeBlock { language: None, code: "line 1\nline 2\n".to_string() }, "".to_string()))
    );
}

#[test]
fn test_parse_unordered_list() {
    match parse_unorderd_list("- Item 1\n- Item **2**\n") {
        Some((Block::List(ListType::Unordered(items)), rest)) => {
            assert_eq!(rest, "");
            assert_eq!(items.len(), 2);
            assert_eq!(items[0].content, vec![text("Item 1")]);
            match &items[1].content[1] {
                Inline::Strong(_) => assert!(true),
                _ => panic!("Expected Strong inline"),
            }
        }
        _ => panic!("Failed to parse unordered list"),
    }
}

#[test]
fn test_parse_ordered_list() {
    match parse_orderd_list("1. First\n2. Second\n") {
        Some((Block::List(ListType::Ordered(items)), rest)) => {
            assert_eq!(rest, "");
            assert_eq!(items.len(), 2);
            assert_eq!(items[0].content, vec![text("First")]);
        }
        _ => panic!("Failed to parse ordered list"),
    }
}

#[test]
fn test_parse_check_list() {
    match parse_unorderd_list("- [x] Done task\n- [ ] Pending task\n- Normal item\n") {
        Some((Block::List(ListType::Unordered(items)), rest)) => {
            assert_eq!(rest, "");
            assert_eq!(items.len(), 3);
            assert_eq!(items[0].checked, Some(true));
            assert_eq!(items[0].content[0], text("Done task"));
            assert_eq!(items[1].checked, Some(false));
            assert_eq!(items[1].content[0], text("Pending task"));
            assert_eq!(items[2].checked, None);
            assert_eq!(items[2].content[0], text("Normal item"));
        }
        _ => panic!("Failed to parse ordered list"),
    }
}

#[test]
fn test_parse_blockquote() {
    match parse_blockquote("> Simple quote\n") {
        Some((Block::Blockquote(blocks), rest)) => {
            assert_eq!(rest, "");
            assert_eq!(blocks.len(), 1);
            if let Block::Paragraph(inlines) = &blocks[0] {
                assert_eq!(inlines[0], text("Simple quote"));
            } else {
                panic!("Expected Paragraph inside Blockquote");
            }
        }
        _ => panic!("Failed to parse simple blockquote"),
    }

    match parse_blockquote("> # Heading inside\n> Normal text\n") {
        Some((Block::Blockquote(blocks), rest)) => {
            assert_eq!(rest, "");
            assert_eq!(blocks.len(), 2);
            if let Block::Heading { level, content } = &blocks[0] {
                assert_eq!(*level, 1);
                assert_eq!(content[0], text("Heading inside"));
            } else {
                panic!("Expected Heading as first block");
            }
            if let Block::Paragraph(inlines) = &blocks[1] {
                assert_eq!(inlines[0], text("Normal text"));
            } else {
                panic!("Expected Paragraph as second block");
            }
        }
        _ => panic!("Failed to parse nested blockquote"),
    }

    match parse_blockquote("> > Double nested\n") {
        Some((Block::Blockquote(outer_blocks), rest)) => {
            assert_eq!(rest, "");
            if let Block::Blockquote(inner_blocks) = &outer_blocks[0] {
                if let Block::Paragraph(inlines) = &inner_blocks[0] {
                    assert_eq!(inlines[0], text("Double nested"));
                } else {
                    panic!("Expected Paragraph inside inner Blockquote");
                }
            } else {
                panic!("Expected Blockquote inside Blockquote");
            }
        }
        _ => panic!("Failed to parse double nested blockquote"),
    }
}

#[test]
fn seven_hashes_make_a_paragraph() {
    assert_eq!(parse_heading("####### too many\n"), None);
    match parse_block("####### too many\n") {
        Some((Block::Paragraph(inlines), rest)) => {
            assert_eq!(rest, "\n");
            match &inlines[0] {
                Inline::Text(t) => assert!(t.starts_with('#')),
                _ => panic!("expected text"),
            }
        }
        _ => panic!("expected a paragraph"),
    }
}

#[test]
fn checkbox_tri_state() {
    match parse_block("- [x] done\n- [ ] todo\n- plain\n") {
        Some((Block::List(ListType::Unordered(items)), rest)) => {
            assert_eq!(rest, "");
            let checked: Vec<Option<bool>> = items.iter().map(|i| i.checked).collect();
            assert_eq!(checked, vec![Some(true), Some(false), None]);
        }
        _ => panic!("expected a list"),
    }
}

#[test]
fn list_items_keep_their_indent() {
    match parse_unorderd_list("- a\n  - b\n\t+ c\n") {
        Some((Block::List(ListType::Unordered(items)), rest)) => {
            assert_eq!(rest, "");
            let indents: Vec<usize> = items.iter().map(|i| i.indent).collect();
            assert_eq!(indents, vec![0, 2, 1]);
        }
        _ => panic!("expected a list"),
    }
}

#[test]
fn ordered_marker_overflow_is_no_match() {
    assert_eq!(parse_orderd_list("99999999999. x\n"), None);
    assert!(parse_orderd_list("12. x\n").is_some());
}

#[test]
fn block_priority() {
    assert_eq!(parse_block("***\n"), Some((Block::HorizontalRule, "".to_string())));
    assert_eq!(parse_block("---  \nrest"), Some((Block::HorizontalRule, "rest".to_string())));
    assert_eq!(parse_paragraph("plain"), Some((Block::Paragraph(vec![text("plain")]), "".to_string())));
    assert_eq!(parse_horizontal_rule("--\n"), None);
}

#[test]
fn fenced_code_keeps_the_line_break_after_the_fence() {
    assert_eq!(
        parse_fenced_code_block("```\n*x*\n```\nafter"),
        Some((Block::FencedCodeBlock { language: None, code: "*x*\n".to_string() }, "after".to_string()))
    );
    assert_eq!(parse_fenced_code_block("```\nno end"), None);
}

#[test]
fn line_helpers() {
    assert_eq!(parse_line("ab\ncd"), ("ab".to_string(), "cd".to_string()));
    assert_eq!(parse_line("ab"), ("ab".to_string(), "".to_string()));
    assert_eq!(blank_line("  \t\nx"), Some("x".to_string()));
    assert_eq!(blank_line(" x\n"), None);
    assert_eq!(take_until("abc**d", "**"), Some(("abc".to_string(), "**d".to_string())));
    assert_eq!(take_until("abc", "**"), None);
    assert_eq!(take_until("abc", ""), Some(("".to_string(), "abc".to_string())));
}

#[test]
fn every_quoted_line_is_kept() {
    assert_eq!(
        parse_blockquote("> a\n> b\n"),
        Some((
            Block::Blockquote(vec![Block::Paragraph(vec![text("a")]), Block::Paragraph(vec![text("b")])]),
            "".to_string()
        ))
    );
    assert_eq!(
        parse_blockquote("> a\n>\n> - b\n"),
        Some((
            Block::Blockquote(vec![
                Block::Paragraph(vec![text("a")]),
                Block::List(ListType::Unordered(vec![biotite::ast::ListItem { indent: 0, checked: None, content: vec![text("b")] }])),
            ]),
            "".to_string()
        ))
    );
    assert_eq!(parse_blockquote(">\n"), None);
}
