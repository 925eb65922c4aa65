use vstd::prelude::*;
use crate::ast::{Document, blocks_view};
use crate::block::parse_document;
use crate::block_spec::document;
use crate::front_matter::{FrontMatter, fm_close, fm_lines, parse_front_matter};

verus! {

/// A parsed source file: where it came from, its front matter, and its
/// body.
#[derive(Debug, PartialEq)]
pub struct MdDocument {
    pub path: String,
    pub front_matter: Option<FrontMatter>,
    pub body: Option<Document>,
}

/// The body that follows the front matter, if any.
pub open spec fn body_of(c: Seq<char>) -> Seq<char> {
    match fm_close(c) {
        Some(p) => c.subrange(p + 4, c.len() as int),
        None => c,
    }
}

/// Parses the text of a source file: its front matter, then its body as
/// blocks.
pub fn parse_markdown(path: String, content: &str) -> (r: MdDocument)
    ensures
        r.path == path,
        match fm_close(content@) {
            Some(p) => r.front_matter matches Some(fm) && fm.view() == fm_lines(content@, 4, p, Seq::empty(), None),
            None => r.front_matter is None,
        },
        r.body matches Some(d) && blocks_view(d.blocks@) == document(body_of(content@), 0, body_of(content@).len() as int).0,
{
    let (front_matter, body) = parse_front_matter(content);
    let doc = match parse_document(body.as_str()) {
        Some((d, _)) => Some(d),
        None => None,
    };
    MdDocument { path, front_matter, body: doc }
}

} // verus!
