use biotite::ast::{Block, Document, Inline, ListItem, ListType};
use biotite::images::{copied_image_url, image_source, image_urls, with_image_urls, ImageSource};

fn img(url: &str) -> Inline {
    Inline::Image { alt: "a".to_string(), url: url.to_string() }
}

fn sample() -> Document {
    Document {
        blocks: vec![
            Block::Paragraph(vec![img("one.png"), Inline::Link { text: vec![img("two.png")], url: "x.png".to_string() }]),
            Block::Blockquote(vec![Block::Heading { level: 1, content: vec![Inline::Strong(vec![img("three.png")])] }]),
            Block::List(ListType::Ordered(vec![ListItem { indent: 0, checked: None, content: vec![img("four.png")] }])),
            Block::FencedCodeBlock { language: None, code: "![a](no.png)".to_string() },
        ],
    }
}

#[test]
fn image_urls_in_document_order() {
    assert_eq!(image_urls(&sample()), vec!["one.png", "two.png", "three.png", "four.png"]);
}

#[test]
fn image_urls_are_replaced_in_order() {
    let urls = vec!["/images/1".to_string(), "/images/2".to_string(), "/images/3".to_string()];
    let doc = with_image_urls(&sample(), &urls);
    assert_eq!(image_urls(&doc), vec!["/images/1", "/images/2", "/images/3", "four.png"]);
    match &doc.blocks[0] {
        Block::Paragraph(v) => match &v[1] {
            Inline::Link { url, .. } => assert_eq!(url, "x.png"),
            _ => panic!("expected a link"),
        },
        _ => panic!("expected a paragraph"),
    }
}

#[test]
fn image_sources_by_prefix() {
    assert_eq!(image_source("https://a/b.png"), ImageSource::Remote);
    assert_eq!(image_source("http://a/b.png"), ImageSource::Remote);
    assert_eq!(image_source("/abs/b.png"), ImageSource::Absolute("/abs/b.png".to_string()));
    assert_eq!(image_source("~/pics/b.png"), ImageSource::Home("pics/b.png".to_string()));
    assert_eq!(image_source("pics/b.png"), ImageSource::Relative("pics/b.png".to_string()));
    assert_eq!(copied_image_url("b.png"), "/images/b.png");
}

#[test]
fn rewriting_with_every_url_reads_back() {
    let urls: Vec<String> = (1..=4).map(|i| format!("/images/{}.png", i)).collect();
    let doc = with_image_urls(&sample(), &urls);
    assert_eq!(image_urls(&doc), urls);
}
