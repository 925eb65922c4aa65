use biotite::ast::{Block, Document, Inline, ListItem, ListType};
use biotite::document::parse_markdown;
use biotite::html::{escape_html, ToHtml};
use biotite::page::{is_markdown_file, is_published, md_to_html, wrap_template, PAGE_HEAD, PAGE_MIDDLE, PAGE_TAIL};
use biotite::serve::{html_candidate, html_candidate_decoded};

fn item(indent: usize, text: &str) -> ListItem {
    ListItem { indent, checked: None, content: vec![Inline::Text(text.to_string())] }
}

#[test]
fn list_indent_opens_and_closes_a_sub_list() {
    let opening = ListType::Unordered(vec![item(0, "a"), item(2, "b")]);
    assert_eq!(opening.to_html(), "<ul><li>a\n</li>\n<ul><li>b\n</li></ul>");
    let closing = ListType::Unordered(vec![item(2, "a"), item(0, "b")]);
    assert_eq!(closing.to_html(), "<ul><li>a\n</li></ul><li>b\n</li></ul>");
    let both = ListType::Ordered(vec![item(0, "a"), item(2, "b"), item(0, "c")]);
    let html = both.to_html();
    assert_eq!(html.matches("<ol>").count(), html.matches("</ol>").count());
    assert_eq!(ListType::Ordered(vec![]).to_html(), "");
}

#[test]
fn escapes_special_characters() {
    assert_eq!(escape_html("a<b>&\"c'"), "a&lt;b&gt;&amp;&quot;c&#39;");
    assert_eq!(escape_html("plain"), "plain");
}

#[test]
fn renders_inlines_and_blocks() {
    let link = Inline::Link { text: vec![Inline::Strong(vec![Inline::Text("x".to_string())])], url: "a&b".to_string() };
    assert_eq!(link.to_html(), "<a href=\"a&amp;b\"><strong>x</strong></a>");
    let img = Inline::Image { alt: "<alt>".to_string(), url: "p.png".to_string() };
    assert_eq!(img.to_html(), "<img src=\"p.png\" alt=\"&lt;alt&gt;\" />");
    let doc = Document {
        blocks: vec![
            Block::Heading { level: 2, content: vec![Inline::Text("T".to_string())] },
            Block::Blockquote(vec![Block::Paragraph(vec![Inline::Code("<x>".to_string())])]),
            Block::FencedCodeBlock { language: Some("rust".to_string()), code: "a<b\n".to_string() },
            Block::HorizontalRule,
            Block::List(ListType::Unordered(vec![ListItem { indent: 0, checked: Some(true), content: vec![] }])),
        ],
    };
    assert_eq!(
        doc.to_html(),
        "<h2>T</h2><blockquote><p><code>&lt;x&gt;</code></p></blockquote>\
<pre><code class=\"language-rust\">a&lt;b\n</code></pre><hr />\
<ul><li><input type=\"checkbox\" checked disabled> \n</li></ul>"
    );
    assert_eq!(Block::Heading { level: 12, content: vec![] }.to_html(), "<h12></h12>");
}

#[test]
fn page_uses_front_matter() {
    let doc = parse_markdown(
        "notes/first-post.md".to_string(),
        "---\npublish: true\nslug: hello\ntitle: Hello\ntags:\n- a\n- b\n---\n# Hi\n",
    );
    let page = md_to_html(&doc);
    assert_eq!(page.path, "hello");
    assert_eq!(page.title, "Hello");
    assert_eq!(page.tags, Some(vec!["a".to_string(), "b".to_string()]));
    assert_eq!(page.content, wrap_template("Hello", "<h1>Hi</h1>"));
    assert_eq!(page.content, format!("{}{}{}{}{}", PAGE_HEAD, "Hello", PAGE_MIDDLE, "<h1>Hi</h1>", PAGE_TAIL));
}

#[test]
fn page_falls_back_to_file_stem() {
    let doc = parse_markdown("notes/first-post.md".to_string(), "---\ntitle:\n---\ntext\n");
    let page = md_to_html(&doc);
    assert_eq!(page.path, "first-post");
    assert_eq!(page.title, "first-post");
    assert_eq!(page.tags, None);
}

#[test]
fn markdown_files_by_extension() {
    assert!(is_markdown_file("a/b.md"));
    assert!(is_markdown_file("b.markdown"));
    assert!(!is_markdown_file("b.txt"));
    assert!(!is_markdown_file("md"));
}

#[test]
fn request_paths_without_extension_map_to_pages() {
    assert_eq!(html_candidate_decoded("/posts/hello"), Some("posts/hello".to_string()));
    assert_eq!(html_candidate_decoded("/style.css"), None);
    assert_eq!(html_candidate_decoded("/posts/"), None);
    assert_eq!(html_candidate_decoded("/a.b/c"), Some("a.b/c".to_string()));
    assert_eq!(html_candidate("/caf%C3%A9"), Some("café".to_string()));
    assert_eq!(html_candidate("/x%2Ehtml"), None);
}

#[test]
fn empty_slug_falls_back_to_file_stem() {
    let doc = parse_markdown("notes/first-post.md".to_string(), "---\nslug:\ntitle: T\n---\ntext\n");
    let page = md_to_html(&doc);
    assert_eq!(page.path, "first-post");
    assert_eq!(page.title, "T");
}

#[test]
fn published_only_when_publish_is_true() {
    assert!(is_published(&parse_markdown("a.md".to_string(), "---\npublish: true\n---\nx\n")));
    assert!(!is_published(&parse_markdown("a.md".to_string(), "---\npublish: yes\n---\nx\n")));
    assert!(!is_published(&parse_markdown("a.md".to_string(), "x\n")));
}
