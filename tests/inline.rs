use biotite::ast::Inline;
use biotite::inline::{
    parse_bold_inline, parse_code_inline, parse_image_inline, parse_inlines, parse_italic_inline,
    parse_link_inline, parse_strikethru_inline, parse_symbol_as_text, parse_text_inline,
    parse_wikilink_inline, parse_autolink_inline, parse_text_context,
};

fn text(s: &str) -> Inline {
    Inline::Text(s.to_string())
}

#[test]
fn test_parse_text_inline() {
    assert_eq!(parse_text_inline("HelloRust"), Some((text("HelloRust"), "".to_string())));
    assert_eq!(parse_text_inline("Hello**World"), Some((text("Hello"), "**World".to_string())));
    assert_eq!(parse_text_inline("Line1\nLine2"), Some((text("Line1"), "\nLine2".to_string())));
    assert_eq!(parse_text_inline("**Bold"), None);
}

#[test]
fn test_parse_bold_inline() {
    assert_eq!(parse_bold_inline("**BoldText**"), Some((Inline::Strong(vec![text("BoldText")]), "".to_string())));
    assert_eq!(parse_bold_inline("**Rust** is cool"), Some((Inline::Strong(vec![text("Rust")]), " is cool".to_string())));
    assert_eq!(parse_bold_inline("**Unclosed"), None);

    match parse_bold_inline("**Bold and *Italic* mixed**") {
        Some((Inline::Strong(content), _)) => {
            assert_eq!(content.len(), 3);
            assert_eq!(content[0], text("Bold and "));
            match &content[1] {
                Inline::Italic(inner) => {
                    assert_eq!(inner[0], text("Italic"));
                }
                _ => panic!("Expected Emphasis inside Strong"),
            }
            assert_eq!(content[2], text(" mixed"));
        }
        _ => panic!("Recursive parse failed"),
    };

    assert_eq!(parse_bold_inline("NotBold"), None);
}

#[test]
fn test_parse_italic_inline() {
    assert_eq!(parse_italic_inline("*ItalicText*"), Some((Inline::Italic(vec![text("ItalicText")]), "".to_string())));
    assert_eq!(parse_italic_inline("*Rust* is cool"), Some((Inline::Italic(vec![text("Rust")]), " is cool".to_string())));
    assert_eq!(parse_italic_inline("*Unclosed"), None);
    assert_eq!(parse_italic_inline("NotItalic"), None);
}

#[test]
fn test_parse_code_inline() {
    assert_eq!(parse_code_inline("`let x = 5;`"), Some((Inline::Code("let x = 5;".to_string()), "".to_string())));
}

#[test]
fn test_parse_strikethru_inline() {
    assert_eq!(parse_strikethru_inline("~~deleted~~"), Some((Inline::Strikethrough(vec![text("deleted")]), "".to_string())));
}

#[test]
fn test_parse_image_inline() {
    assert_eq!(
        parse_image_inline("![Rust Logo](https://rust-lang.org/logo.png)"),
        Some((
            Inline::Image { alt: "Rust Logo".to_string(), url: "https://rust-lang.org/logo.png".to_string() },
            "".to_string()
        ))
    );
}

#[test]
fn test_parse_link_inline() {
    assert_eq!(
        parse_link_inline("[Click here](https://google.com)"),
        Some((Inline::Link { text: vec![text("Click here")], url: "https://google.com".to_string() }, "".to_string()))
    );
}

#[test]
fn test_parse_wikilink_inline() {
    assert_eq!(
        parse_wikilink_inline("[[Obsidian Note]]"),
        Some((Inline::Link { text: vec![text("Obsidian Note")], url: "Obsidian Note".to_string() }, "".to_string()))
    );
    assert_eq!(
        parse_wikilink_inline("[[File Name|Custom Label]]"),
        Some((Inline::Link { text: vec![text("Custom Label")], url: "File Name".to_string() }, "".to_string()))
    );
}

#[test]
fn test_parse_symbol_inline() {
    assert_eq!(parse_symbol_as_text("!"), Some((text("!"), "".to_string())));
}

#[test]
fn test_parse_inlines() {
    assert_eq!(
        parse_inlines("Hello! **Bold** and `code`"),
        Some((
            vec![
                text("Hello"),
                text("!"),
                text(" "),
                Inline::Strong(vec![text("Bold")]),
                text(" and "),
                Inline::Code("code".to_string()),
            ],
            "".to_string()
        ))
    );
    assert_eq!(parse_inlines(r"This is \*not bold\*"), Some((vec![text("This is *not bold*")], "".to_string())));
}

#[test]
fn escape_takes_any_character_literally() {
    for c in ['*', '\\', '[', '`', 'a', '!', '~', 'あ'] {
        let input = format!("\\{}", c);
        assert_eq!(parse_text_inline(&input), Some((Inline::Text(c.to_string()), "".to_string())));
    }
}

#[test]
fn bold_is_one_strong_node() {
    assert_eq!(parse_inlines("**bold**"), Some((vec![Inline::Strong(vec![text("bold")])], "".to_string())));
}

#[test]
fn lone_delimiters_make_progress() {
    assert_eq!(parse_inlines("*"), Some((vec![text("*")], "".to_string())));
    assert_eq!(parse_inlines("["), Some((vec![text("[")], "".to_string())));
    assert_eq!(parse_inlines("*abc"), Some((vec![text("*"), text("abc")], "".to_string())));
    assert_eq!(parse_inlines("[abc"), Some((vec![text("["), text("abc")], "".to_string())));
    assert_eq!(parse_inlines("\n"), None);
}

#[test]
fn unterminated_strong_does_not_fail() {
    assert_eq!(
        parse_inlines("**unterminated"),
        Some((vec![text("*"), text("*"), text("unterminated")], "".to_string()))
    );
    assert_eq!(parse_inlines("**"), Some((vec![text("*"), text("*")], "".to_string())));
    assert_eq!(parse_italic_inline("**x"), None);
}

#[test]
fn emphasis_content_with_line_break_is_literal() {
    assert_eq!(parse_bold_inline("**a\nb**"), Some((Inline::Strong(vec![text("a\nb")]), "".to_string())));
}

#[test]
fn autolink_trims_trailing_punctuation() {
    assert_eq!(
        parse_autolink_inline("https://example.com/a.?! rest"),
        Some((
            Inline::Link { text: vec![text("https://example.com/a.?!")], url: "https://example.com/a".to_string() },
            " rest".to_string()
        ))
    );
    assert_eq!(
        parse_inlines("(http://x.org."),
        Some((
            vec![text("("), Inline::Link { text: vec![text("http://x.org.")], url: "http://x.org".to_string() }],
            "".to_string()
        ))
    );
    assert_eq!(parse_autolink_inline("ftp://x"), None);
    assert_eq!(parse_inlines("see http://x.org."), Some((vec![text("see http://x.org.")], "".to_string())));
}

#[test]
fn wikilink_with_empty_label_fails() {
    assert_eq!(parse_wikilink_inline("[[a|]]"), None);
}

#[test]
fn text_context_stops_at_symbols() {
    assert_eq!(parse_text_context("ab(c"), Some((vec!['a', 'b'], "(c".to_string())));
    assert_eq!(parse_text_context("(c"), None);
}
