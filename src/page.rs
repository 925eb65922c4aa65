use vstd::prelude::*;
use crate::ast::blocks_view;
use crate::document::MdDocument;
use crate::front_matter::{FrontMatter, key_index};
use crate::html::{ToHtml, blocks_html};
use crate::scan::find_seq;
use crate::text::{chars_of, push_str, string_of};

verus! {

pub const PAGE_HEAD: &'static str = "<!DOCTYPE html>\n<html lang=\"ja\">\n<head>\n    <meta charset=\"UTF-8\">\n    <meta name=\"viewport\" content=\"width=device-width, initial-scale=1.0\">\n    <title>";

pub const PAGE_MIDDLE: &'static str = "</title>\n    <style>\n        body {\n            font-family: -apple-system, BlinkMacSystemFont, \"Segoe UI\", Helvetica, Arial, sans-serif;\n            line-height: 1.6;\n            color: #333;\n            max-width: 800px;\n            margin: 0 auto;\n            padding: 20px;\n        }\n        pre {\n            background-color: #f6f8fa;\n            padding: 16px;\n            border-radius: 6px;\n            overflow: auto;\n        }\n        code {\n            font-family: \"SFMono-Regular\", Consolas, \"Liberation Mono\", Menlo, Courier, monospace;\n            background-color: #f6f8fa;\n            padding: 0.2em 0.4em;\n            border-radius: 3px;\n        }\n        pre code {\n            padding: 0; /* preの中のcodeはpaddingなし */\n        }\n        blockquote {\n            margin: 0;\n            padding-left: 1em;\n            border-left: 4px solid #dfe2e5;\n            color: #6a737d;\n        }\n        table {\n            border-collapse: collapse;\n            width: 100%;\n        }\n        th, td {\n            border: 1px solid #dfe2e5;\n            padding: 6px 13px;\n        }\n        hr {\n            border: none;\n            border-bottom: 1px solid #dfe2e5;\n        }\n        input[type=\"checkbox\"] {\n            margin-right: 0.5em;\n        }\n        ul.task-list {\n            list-style-type: none;\n            padding-left: 0;\n        }\n    </style>\n</head>\n<body>\n";

pub const PAGE_TAIL: &'static str = "\n</body>\n</html>";

/// A complete HTML page with `title` and `body_content`.
pub fn wrap_template(title: &str, body_content: &str) -> (r: String)
    ensures
        r@ == PAGE_HEAD@ + title@ + PAGE_MIDDLE@ + body_content@ + PAGE_TAIL@,
{
    let mut r = String::new();
    push_str(&mut r, PAGE_HEAD);
    push_str(&mut r, title);
    push_str(&mut r, PAGE_MIDDLE);
    push_str(&mut r, body_content);
    push_str(&mut r, PAGE_TAIL);
    assert(r@ =~= PAGE_HEAD@ + title@ + PAGE_MIDDLE@ + body_content@ + PAGE_TAIL@);
    r
}

/// The file stem of a path, as `std::path::Path::file_stem` gives it.
pub uninterp spec fn path_stem(p: Seq<char>) -> Option<Seq<char>>;

/// The extension of a path, as `std::path::Path::extension` gives it.
pub uninterp spec fn path_extension(p: Seq<char>) -> Option<Seq<char>>;

/// Relies on `std::path::Path::file_stem`: the stem depends on the path
/// text alone.
#[verifier::external_body]
fn file_stem(path: &str) -> (r: Option<String>)
    ensures
        match r {
            Some(s) => path_stem(path@) == Some(s@),
            None => path_stem(path@) is None,
        },
{
    match std::path::Path::new(path).file_stem() {
        Some(s) => match s.to_str() {
            Some(t) => Some(t.to_string()),
            None => None,
        },
        None => None,
    }
}

/// Relies on `std::path::Path::extension`: the extension depends on the
/// path text alone.
#[verifier::external_body]
fn file_extension(path: &str) -> (r: Option<String>)
    ensures
        match r {
            Some(s) => path_extension(path@) == Some(s@),
            None => path_extension(path@) is None,
        },
{
    match std::path::Path::new(path).extension() {
        Some(s) => match s.to_str() {
            Some(t) => Some(t.to_string()),
            None => None,
        },
        None => None,
    }
}

fn same_text(a: &str, b: &str) -> (r: bool)
    ensures
        r == (a@ == b@),
{
    let x = chars_of(a);
    let y = chars_of(b);
    if x.len() != y.len() {
        return false;
    }
    let mut i: usize = 0;
    while i < x.len()
        invariant
            i <= x.len() == y.len(),
            x@ == a@,
            y@ == b@,
            forall|j: int| 0 <= j < i ==> x@[j] == y@[j],
        decreases x.len() - i,
    {
        if x[i] != y[i] {
            assert(x@[i as int] != y@[i as int]);
            return false;
        }
        i = i + 1;
    }
    assert(x@ =~= y@);
    true
}

/// Whether the path names a markdown file: its extension is `md` or
/// `markdown`.
pub fn is_markdown_file(path: &str) -> (r: bool)
    ensures
        r == (path_extension(path@) == Some("md"@) || path_extension(path@) == Some("markdown"@)),
{
    match file_extension(path) {
        Some(e) => same_text(e.as_str(), "md") || same_text(e.as_str(), "markdown"),
        None => false,
    }
}

/// The pieces of `s[pos..]` between occurrences of `sep`.
pub open spec fn split_from(s: Seq<char>, pos: int, sep: Seq<char>) -> Seq<Seq<char>>
    decreases s.len() - pos,
{
    match find_seq(s, pos, s.len() as int, sep) {
        Some(k) => if 0 <= pos <= k && k + sep.len() <= s.len() && sep.len() > 0 {
            seq![s.subrange(pos, k)] + split_from(s, k + sep.len(), sep)
        } else {
            seq![s.subrange(pos, s.len() as int)]
        },
        None => seq![s.subrange(pos, s.len() as int)],
    }
}

pub open spec fn strings_view(v: Seq<String>) -> Seq<Seq<char>> {
    v.map_values(|x: String| x@)
}

/// The pieces of `s` between occurrences of `, `.
pub fn split_list(s: &str) -> (r: Vec<String>)
    ensures
        strings_view(r@) == split_from(s@, 0, seq![',', ' ']),
{
    let v = chars_of(s);
    let sep = vec![',', ' '];
    assert(sep@ == seq![',', ' ']);
    let mut out: Vec<String> = Vec::new();
    let mut pos: usize = 0;
    assert(strings_view(out@) + split_from(v@, 0, sep@) =~= split_from(v@, 0, sep@));
    loop
        invariant
            pos <= v.len(),
            v@ == s@,
            sep@ == seq![',', ' '],
            strings_view(out@) + split_from(v@, pos as int, sep@) == split_from(v@, 0, sep@),
        decreases v.len() - pos,
    {
        match crate::scan::find_lit(&v, pos, v.len(), &sep) {
            Some(k) => {
                proof { crate::scan::lemma_find_seq_bounds(v@, pos as int, v.len() as int, sep@); }
                let piece = string_of(&v, pos, k);
                let ghost pv = piece@;
                let ghost before = out@;
                out.push(piece);
                proof {
                    assert(out@.drop_last() =~= before);
                    assert(strings_view(out@) =~= strings_view(before).push(pv));
                    assert(strings_view(before) + split_from(v@, pos as int, sep@)
                        =~= strings_view(out@) + split_from(v@, k + 2, sep@));
                }
                pos = k + 2;
            },
            None => {
                let piece = string_of(&v, pos, v.len());
                let ghost pv = piece@;
                let ghost before = out@;
                out.push(piece);
                assert(out@.drop_last() =~= before);
                assert(strings_view(out@) =~= strings_view(before).push(pv));
                assert(crate::scan::find_seq(v@, pos as int, v@.len() as int, sep@) is None);
                assert(split_from(v@, pos as int, sep@) == seq![v@.subrange(pos as int, v@.len() as int)]);
                assert(split_from(v@, pos as int, sep@) == seq![pv]);
                assert(strings_view(out@) =~= strings_view(before) + split_from(v@, pos as int, sep@));
                return out;
            },
        }
    }
}

/// A rendered page: where it goes, its title and tags, and its markup.
#[derive(Debug, PartialEq)]
pub struct HTMLDocument {
    pub path: String,
    pub title: String,
    pub tags: Option<Vec<String>>,
    pub content: String,
}

/// The value stored under `k`, where there is front matter and it holds `k`.
pub open spec fn fm_value(fm: Option<FrontMatter>, k: Seq<char>) -> Option<Seq<char>> {
    match fm {
        Some(f) => if key_index(f.view(), k) >= 0 {
            Some(f.view()[key_index(f.view(), k)].1)
        } else {
            None
        },
        None => None,
    }
}

/// A value that is there and not empty.
pub open spec fn non_empty(v: Option<Seq<char>>) -> Option<Seq<char>> {
    match v {
        Some(s) => if s.len() > 0 { Some(s) } else { None },
        None => None,
    }
}

pub open spec fn stem_or_empty(p: Seq<char>) -> Seq<char> {
    match path_stem(p) {
        Some(s) => s,
        None => Seq::empty(),
    }
}

fn lookup(fm: &Option<FrontMatter>, key: &str) -> (r: Option<String>)
    ensures
        match r {
            Some(v) => fm_value(*fm, key@) == Some(v@),
            None => fm_value(*fm, key@) is None,
        },
{
    match fm {
        Some(f) => match f.get(key) {
            Some(v) => Some(v.clone()),
            None => None,
        },
        None => None,
    }
}

/// Renders a parsed document as a page. Its path is a non-empty `slug`
/// entry, or else the file stem; its title is a non-empty `title` entry, or else the
/// file stem; its tags are a non-empty `tags` entry split on `, `.
pub fn md_to_html(md_doc: &MdDocument) -> (r: HTMLDocument)
    requires
        md_doc.body is Some,
    ensures
        r.path@ == match non_empty(fm_value(md_doc.front_matter, "slug"@)) {
            Some(s) => s,
            None => stem_or_empty(md_doc.path@),
        },
        r.title@ == match non_empty(fm_value(md_doc.front_matter, "title"@)) {
            Some(s) => s,
            None => stem_or_empty(md_doc.path@),
        },
        match non_empty(fm_value(md_doc.front_matter, "tags"@)) {
            Some(s) => r.tags matches Some(t) && strings_view(t@) == split_from(s, 0, seq![',', ' ']),
            None => r.tags is None,
        },
        md_doc.body matches Some(b) && r.content@ == PAGE_HEAD@ + r.title@ + PAGE_MIDDLE@ + blocks_html(blocks_view(b.blocks@)) + PAGE_TAIL@,
{
    let stem = match file_stem(md_doc.path.as_str()) {
        Some(s) => s,
        None => String::new(),
    };
    let path = match lookup(&md_doc.front_matter, "slug") {
        Some(s) => if s.as_str().is_empty() { stem.clone() } else { s },
        None => stem.clone(),
    };
    let title = match lookup(&md_doc.front_matter, "title") {
        Some(t) => if t.as_str().is_empty() { stem.clone() } else { t },
        None => stem.clone(),
    };
    let tags = match lookup(&md_doc.front_matter, "tags") {
        Some(t) => if t.as_str().is_empty() { None } else { Some(split_list(t.as_str())) },
        None => None,
    };
    let body = match &md_doc.body {
        Some(b) => b.to_html(),
        None => String::new(),
    };
    let content = wrap_template(title.as_str(), body.as_str());
    HTMLDocument { path, title, tags, content }
}

/// A document is published where its `publish` entry is exactly `true`
/// and its body was parsed.
pub fn is_published(doc: &MdDocument) -> (r: bool)
    ensures
        r == (fm_value(doc.front_matter, "publish"@) == Some("true"@) && doc.body is Some),
{
    match lookup(&doc.front_matter, "publish") {
        Some(v) => same_text(v.as_str(), "true") && doc.body.is_some(),
        None => false,
    }
}

} // verus!
