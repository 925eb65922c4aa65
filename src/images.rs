use vstd::prelude::*;
use crate::ast::{Block, BlockModel, Document, Inline, InlineModel, ItemModel, ListItem, ListType, block_view, blocks_view, inline_view, inlines_view, items_view};
use crate::scan::{lit_at, lit_at_spec};
use crate::text::{chars_of, push_str, string_of};

verus! {

broadcast use {vstd::std_specs::vec::axiom_vec_index_decreases, vstd::seq::axiom_seq_index_decreases};

/// The image URLs of inline content, in document order. Link text is
/// searched, link targets are not.
pub open spec fn inline_images(m: InlineModel) -> Seq<Seq<char>>
    decreases m,
{
    match m {
        InlineModel::Image { alt, url } => seq![url],
        InlineModel::Strong(v) => inlines_images(v),
        InlineModel::Italic(v) => inlines_images(v),
        InlineModel::Strikethrough(v) => inlines_images(v),
        InlineModel::Link { text, url } => inlines_images(text),
        _ => Seq::empty(),
    }
}

pub open spec fn inlines_images(v: Seq<InlineModel>) -> Seq<Seq<char>>
    decreases v,
{
    if v.len() == 0 {
        Seq::empty()
    } else {
        inlines_images(v.drop_last()) + inline_images(v.last())
    }
}

pub open spec fn items_images(v: Seq<ItemModel>) -> Seq<Seq<char>>
    decreases v.len(),
{
    if v.len() == 0 {
        Seq::empty()
    } else {
        items_images(v.drop_last()) + inlines_images(v.last().content)
    }
}

pub open spec fn block_images(b: BlockModel) -> Seq<Seq<char>>
    decreases b,
{
    match b {
        BlockModel::Heading { level, content } => inlines_images(content),
        BlockModel::Paragraph(c) => inlines_images(c),
        BlockModel::Blockquote(bs) => blocks_images(bs),
        BlockModel::List { ordered, items } => items_images(items),
        _ => Seq::empty(),
    }
}

pub open spec fn blocks_images(v: Seq<BlockModel>) -> Seq<Seq<char>>
    decreases v,
{
    if v.len() == 0 {
        Seq::empty()
    } else {
        blocks_images(v.drop_last()) + block_images(v.last())
    }
}

pub open spec fn strings_view(v: Seq<String>) -> Seq<Seq<char>> {
    v.map_values(|x: String| x@)
}

proof fn lemma_strings_push(v: Seq<String>, x: String)
    ensures
        strings_view(v.push(x)) == strings_view(v).push(x@),
{
    assert(v.push(x).map_values(|x: String| x@) =~= v.map_values(|x: String| x@).push(x@));
}

fn collect_inline(i: &Inline, out: &mut Vec<String>)
    ensures
        strings_view(final(out)@) == strings_view(old(out)@) + inline_images(inline_view(*i)),
    decreases i,
{
    match i {
        Inline::Image { url, .. } => {
            let ghost before = out@;
            out.push(url.clone());
            assert(strings_view(out@) =~= strings_view(before) + seq![url@]) by {
                lemma_strings_push(before, out@.last());
            }
        },
        Inline::Strong(v) => collect_inlines(v, out),
        Inline::Italic(v) => collect_inlines(v, out),
        Inline::Strikethrough(v) => collect_inlines(v, out),
        Inline::Link { text, .. } => collect_inlines(text, out),
        _ => {
            assert(strings_view(out@) =~= strings_view(out@) + Seq::<Seq<char>>::empty());
        },
    }
}

fn collect_inlines(v: &Vec<Inline>, out: &mut Vec<String>)
    ensures
        strings_view(final(out)@) == strings_view(old(out)@) + inlines_images(inlines_view(v@)),
    decreases v,
{
    let mut j: usize = 0;
    assert(inlines_view(v@.subrange(0, 0)) =~= Seq::<InlineModel>::empty());
    assert(strings_view(out@) =~= strings_view(old(out)@) + Seq::<Seq<char>>::empty());
    while j < v.len()
        invariant
            j <= v.len(),
            strings_view(out@) == strings_view(old(out)@) + inlines_images(inlines_view(v@.subrange(0, j as int))),
        decreases v.len() - j,
    {
        let ghost before = out@;
        collect_inline(&v[j], out);
        proof {
            assert(v@.subrange(0, j + 1) =~= v@.subrange(0, j as int).push(v@[j as int]));
            crate::ast::lemma_inlines_view_push(v@.subrange(0, j as int), v@[j as int]);
            let w = inlines_view(v@.subrange(0, j + 1));
            assert(w.drop_last() =~= inlines_view(v@.subrange(0, j as int)));
            assert(strings_view(out@) =~= strings_view(old(out)@) + inlines_images(inlines_view(v@.subrange(0, j + 1))));
        }
        j = j + 1;
    }
    assert(v@.subrange(0, v@.len() as int) =~= v@);
}

fn collect_items(v: &Vec<ListItem>, out: &mut Vec<String>)
    ensures
        strings_view(final(out)@) == strings_view(old(out)@) + items_images(items_view(v@)),
{
    let mut j: usize = 0;
    assert(items_view(v@.subrange(0, 0)) =~= Seq::<ItemModel>::empty());
    assert(strings_view(out@) =~= strings_view(old(out)@) + Seq::<Seq<char>>::empty());
    while j < v.len()
        invariant
            j <= v.len(),
            strings_view(out@) == strings_view(old(out)@) + items_images(items_view(v@.subrange(0, j as int))),
        decreases v.len() - j,
    {
        collect_inlines(&v[j].content, out);
        proof {
            assert(v@.subrange(0, j + 1) =~= v@.subrange(0, j as int).push(v@[j as int]));
            crate::ast::lemma_items_view_push(v@.subrange(0, j as int), v@[j as int]);
            let w = items_view(v@.subrange(0, j + 1));
            assert(w.drop_last() =~= items_view(v@.subrange(0, j as int)));
            assert(strings_view(out@) =~= strings_view(old(out)@) + items_images(items_view(v@.subrange(0, j + 1))));
        }
        j = j + 1;
    }
    assert(v@.subrange(0, v@.len() as int) =~= v@);
}

fn collect_block(b: &Block, out: &mut Vec<String>)
    ensures
        strings_view(final(out)@) == strings_view(old(out)@) + block_images(block_view(*b)),
    decreases b,
{
    match b {
        Block::Heading { content, .. } => collect_inlines(content, out),
        Block::Paragraph(c) => collect_inlines(c, out),
        Block::Blockquote(bs) => collect_blocks(bs, out),
        Block::List(ListType::Unordered(items)) => collect_items(items, out),
        Block::List(ListType::Ordered(items)) => collect_items(items, out),
        _ => {
            assert(strings_view(out@) =~= strings_view(out@) + Seq::<Seq<char>>::empty());
        },
    }
}

fn collect_blocks(v: &Vec<Block>, out: &mut Vec<String>)
    ensures
        strings_view(final(out)@) == strings_view(old(out)@) + blocks_images(blocks_view(v@)),
    decreases v,
{
    let mut j: usize = 0;
    assert(blocks_view(v@.subrange(0, 0)) =~= Seq::<BlockModel>::empty());
    assert(strings_view(out@) =~= strings_view(old(out)@) + Seq::<Seq<char>>::empty());
    while j < v.len()
        invariant
            j <= v.len(),
            strings_view(out@) == strings_view(old(out)@) + blocks_images(blocks_view(v@.subrange(0, j as int))),
        decreases v.len() - j,
    {
        collect_block(&v[j], out);
        proof {
            assert(v@.subrange(0, j + 1) =~= v@.subrange(0, j as int).push(v@[j as int]));
            crate::ast::lemma_blocks_view_push(v@.subrange(0, j as int), v@[j as int]);
            let w = blocks_view(v@.subrange(0, j + 1));
            assert(w.drop_last() =~= blocks_view(v@.subrange(0, j as int)));
            assert(strings_view(out@) =~= strings_view(old(out)@) + blocks_images(blocks_view(v@.subrange(0, j + 1))));
        }
        j = j + 1;
    }
    assert(v@.subrange(0, v@.len() as int) =~= v@);
}

/// The URLs of the document's images, in document order.
pub fn image_urls(doc: &Document) -> (r: Vec<String>)
    ensures
        strings_view(r@) == blocks_images(blocks_view(doc.blocks@)),
{
    let mut out: Vec<String> = Vec::new();
    collect_blocks(&doc.blocks, &mut out);
    assert(strings_view(out@) =~= blocks_images(blocks_view(doc.blocks@)));
    out
}

/// The URL that the image met when `k` images have been met before takes,
/// and the count after it: the `k`-th of `urls`, or its own where `urls`
/// has run out.
pub open spec fn next_url(url: Seq<char>, urls: Seq<Seq<char>>, k: int) -> (Seq<char>, int) {
    if 0 <= k < urls.len() {
        (urls[k], k + 1)
    } else {
        (url, k)
    }
}

pub open spec fn inline_rewrite(m: InlineModel, urls: Seq<Seq<char>>, k: int) -> (InlineModel, int)
    decreases m,
{
    match m {
        InlineModel::Image { alt, url } => {
            let (u, k2) = next_url(url, urls, k);
            (InlineModel::Image { alt, url: u }, k2)
        },
        InlineModel::Strong(v) => {
            let (w, k2) = inlines_rewrite(v, urls, k);
            (InlineModel::Strong(w), k2)
        },
        InlineModel::Italic(v) => {
            let (w, k2) = inlines_rewrite(v, urls, k);
            (InlineModel::Italic(w), k2)
        },
        InlineModel::Strikethrough(v) => {
            let (w, k2) = inlines_rewrite(v, urls, k);
            (InlineModel::Strikethrough(w), k2)
        },
        InlineModel::Link { text, url } => {
            let (w, k2) = inlines_rewrite(text, urls, k);
            (InlineModel::Link { text: w, url }, k2)
        },
        _ => (m, k),
    }
}

pub open spec fn inlines_rewrite(v: Seq<InlineModel>, urls: Seq<Seq<char>>, k: int) -> (Seq<InlineModel>, int)
    decreases v,
{
    if v.len() == 0 {
        (Seq::empty(), k)
    } else {
        let (a, k1) = inlines_rewrite(v.drop_last(), urls, k);
        let (x, k2) = inline_rewrite(v.last(), urls, k1);
        (a.push(x), k2)
    }
}

pub open spec fn items_rewrite(v: Seq<ItemModel>, urls: Seq<Seq<char>>, k: int) -> (Seq<ItemModel>, int)
    decreases v.len(),
{
    if v.len() == 0 {
        (Seq::empty(), k)
    } else {
        let (a, k1) = items_rewrite(v.drop_last(), urls, k);
        let i = v.last();
        let (c, k2) = inlines_rewrite(i.content, urls, k1);
        (a.push(ItemModel { indent: i.indent, checked: i.checked, content: c }), k2)
    }
}

pub open spec fn block_rewrite(b: BlockModel, urls: Seq<Seq<char>>, k: int) -> (BlockModel, int)
    decreases b,
{
    match b {
        BlockModel::Heading { level, content } => {
            let (c, k2) = inlines_rewrite(content, urls, k);
            (BlockModel::Heading { level, content: c }, k2)
        },
        BlockModel::Paragraph(content) => {
            let (c, k2) = inlines_rewrite(content, urls, k);
            (BlockModel::Paragraph(c), k2)
        },
        BlockModel::Blockquote(bs) => {
            let (c, k2) = blocks_rewrite(bs, urls, k);
            (BlockModel::Blockquote(c), k2)
        },
        BlockModel::List { ordered, items } => {
            let (c, k2) = items_rewrite(items, urls, k);
            (BlockModel::List { ordered, items: c }, k2)
        },
        _ => (b, k),
    }
}

pub open spec fn blocks_rewrite(v: Seq<BlockModel>, urls: Seq<Seq<char>>, k: int) -> (Seq<BlockModel>, int)
    decreases v,
{
    if v.len() == 0 {
        (Seq::empty(), k)
    } else {
        let (a, k1) = blocks_rewrite(v.drop_last(), urls, k);
        let (x, k2) = block_rewrite(v.last(), urls, k1);
        (a.push(x), k2)
    }
}

fn rewrite_inline(i: &Inline, urls: &Vec<String>, k: &mut usize) -> (r: Inline)
    requires
        *old(k) <= urls.len(),
    ensures
        (inline_view(r), *final(k) as int) == inline_rewrite(inline_view(*i), strings_view(urls@), *old(k) as int),
        *final(k) <= urls.len(),
    decreases i,
{
    match i {
        Inline::Image { alt, url } => {
            if *k < urls.len() {
                let u = urls[*k].clone();
                *k = *k + 1;
                Inline::Image { alt: alt.clone(), url: u }
            } else {
                Inline::Image { alt: alt.clone(), url: url.clone() }
            }
        },
        Inline::Strong(v) => Inline::Strong(rewrite_inlines(v, urls, k)),
        Inline::Italic(v) => Inline::Italic(rewrite_inlines(v, urls, k)),
        Inline::Strikethrough(v) => Inline::Strikethrough(rewrite_inlines(v, urls, k)),
        Inline::Link { text, url } => {
            let t = rewrite_inlines(text, urls, k);
            Inline::Link { text: t, url: url.clone() }
        },
        Inline::Text(s) => Inline::Text(s.clone()),
        Inline::Code(s) => Inline::Code(s.clone()),
    }
}

fn rewrite_inlines(v: &Vec<Inline>, urls: &Vec<String>, k: &mut usize) -> (r: Vec<Inline>)
    requires
        *old(k) <= urls.len(),
    ensures
        (inlines_view(r@), *final(k) as int) == inlines_rewrite(inlines_view(v@), strings_view(urls@), *old(k) as int),
        *final(k) <= urls.len(),
    decreases v,
{
    let ghost u = strings_view(urls@);
    let ghost k0 = *k as int;
    let mut out: Vec<Inline> = Vec::new();
    let mut j: usize = 0;
    assert(inlines_view(v@.subrange(0, 0)) =~= Seq::<InlineModel>::empty());
    assert(inlines_view(out@) =~= Seq::<InlineModel>::empty());
    while j < v.len()
        invariant
            j <= v.len(),
            *k <= urls.len(),
            u == strings_view(urls@),
            (inlines_view(out@), *k as int) == inlines_rewrite(inlines_view(v@.subrange(0, j as int)), u, k0),
        decreases v.len() - j,
    {
        let x = rewrite_inline(&v[j], urls, k);
        proof {
            assert(v@.subrange(0, j + 1) =~= v@.subrange(0, j as int).push(v@[j as int]));
            crate::ast::lemma_inlines_view_push(v@.subrange(0, j as int), v@[j as int]);
            let w = inlines_view(v@.subrange(0, j + 1));
            assert(w.drop_last() =~= inlines_view(v@.subrange(0, j as int)));
            crate::ast::lemma_inlines_view_push(out@, x);
        }
        out.push(x);
        j = j + 1;
    }
    assert(v@.subrange(0, v@.len() as int) =~= v@);
    out
}

fn rewrite_items(v: &Vec<ListItem>, urls: &Vec<String>, k: &mut usize) -> (r: Vec<ListItem>)
    requires
        *old(k) <= urls.len(),
    ensures
        (items_view(r@), *final(k) as int) == items_rewrite(items_view(v@), strings_view(urls@), *old(k) as int),
        *final(k) <= urls.len(),
{
    let ghost u = strings_view(urls@);
    let ghost k0 = *k as int;
    let mut out: Vec<ListItem> = Vec::new();
    let mut j: usize = 0;
    assert(items_view(v@.subrange(0, 0)) =~= Seq::<ItemModel>::empty());
    assert(items_view(out@) =~= Seq::<ItemModel>::empty());
    while j < v.len()
        invariant
            j <= v.len(),
            *k <= urls.len(),
            u == strings_view(urls@),
            (items_view(out@), *k as int) == items_rewrite(items_view(v@.subrange(0, j as int)), u, k0),
        decreases v.len() - j,
    {
        let it = &v[j];
        let content = rewrite_inlines(&it.content, urls, k);
        let x = ListItem { indent: it.indent, checked: it.checked, content };
        proof {
            assert(v@.subrange(0, j + 1) =~= v@.subrange(0, j as int).push(v@[j as int]));
            crate::ast::lemma_items_view_push(v@.subrange(0, j as int), v@[j as int]);
            let w = items_view(v@.subrange(0, j + 1));
            assert(w.drop_last() =~= items_view(v@.subrange(0, j as int)));
            crate::ast::lemma_items_view_push(out@, x);
        }
        out.push(x);
        j = j + 1;
    }
    assert(v@.subrange(0, v@.len() as int) =~= v@);
    out
}

fn rewrite_block(b: &Block, urls: &Vec<String>, k: &mut usize) -> (r: Block)
    requires
        *old(k) <= urls.len(),
    ensures
        (block_view(r), *final(k) as int) == block_rewrite(block_view(*b), strings_view(urls@), *old(k) as int),
        *final(k) <= urls.len(),
    decreases b,
{
    match b {
        Block::Heading { level, content } => Block::Heading { level: *level, content: rewrite_inlines(content, urls, k) },
        Block::Paragraph(c) => Block::Paragraph(rewrite_inlines(c, urls, k)),
        Block::Blockquote(bs) => Block::Blockquote(rewrite_blocks(bs, urls, k)),
        Block::List(ListType::Unordered(items)) => Block::List(ListType::Unordered(rewrite_items(items, urls, k))),
        Block::List(ListType::Ordered(items)) => Block::List(ListType::Ordered(rewrite_items(items, urls, k))),
        Block::FencedCodeBlock { language, code } => {
            let l = match language {
                Some(s) => Some(s.clone()),
                None => None,
            };
            Block::FencedCodeBlock { language: l, code: code.clone() }
        },
        Block::HorizontalRule => Block::HorizontalRule,
    }
}

fn rewrite_blocks(v: &Vec<Block>, urls: &Vec<String>, k: &mut usize) -> (r: Vec<Block>)
    requires
        *old(k) <= urls.len(),
    ensures
        (blocks_view(r@), *final(k) as int) == blocks_rewrite(blocks_view(v@), strings_view(urls@), *old(k) as int),
        *final(k) <= urls.len(),
    decreases v,
{
    let ghost u = strings_view(urls@);
    let ghost k0 = *k as int;
    let mut out: Vec<Block> = Vec::new();
    let mut j: usize = 0;
    assert(blocks_view(v@.subrange(0, 0)) =~= Seq::<BlockModel>::empty());
    assert(blocks_view(out@) =~= Seq::<BlockModel>::empty());
    while j < v.len()
        invariant
            j <= v.len(),
            *k <= urls.len(),
            u == strings_view(urls@),
            (blocks_view(out@), *k as int) == blocks_rewrite(blocks_view(v@.subrange(0, j as int)), u, k0),
        decreases v.len() - j,
    {
        let x = rewrite_block(&v[j], urls, k);
        proof {
            assert(v@.subrange(0, j + 1) =~= v@.subrange(0, j as int).push(v@[j as int]));
            crate::ast::lemma_blocks_view_push(v@.subrange(0, j as int), v@[j as int]);
            let w = blocks_view(v@.subrange(0, j + 1));
            assert(w.drop_last() =~= blocks_view(v@.subrange(0, j as int)));
            crate::ast::lemma_blocks_view_push(out@, x);
        }
        out.push(x);
        j = j + 1;
    }
    assert(v@.subrange(0, v@.len() as int) =~= v@);
    out
}

/// The document with its images' URLs replaced, in document order, by
/// those of `urls`; images past the end of `urls` keep theirs.
pub fn with_image_urls(doc: &Document, urls: &Vec<String>) -> (r: Document)
    ensures
        blocks_view(r.blocks@) == blocks_rewrite(blocks_view(doc.blocks@), strings_view(urls@), 0).0,
{
    let mut k: usize = 0;
    let blocks = rewrite_blocks(&doc.blocks, urls, &mut k);
    Document { blocks }
}

/// Where an image's file is to be found.
#[derive(Debug, PartialEq)]
pub enum ImageSource {
    /// An `http://` or `https://` URL: nothing to copy.
    Remote,
    /// An absolute path.
    Absolute(String),
    /// A path under the home directory, given without its `~/`.
    Home(String),
    /// A path relative to the document's directory.
    Relative(String),
}

/// Classifies an image URL by its prefix.
pub fn image_source(url: &str) -> (r: ImageSource)
    ensures
        lit_at_spec(url@, 0, url@.len() as int, "http://"@) || lit_at_spec(url@, 0, url@.len() as int, "https://"@) ==> r == ImageSource::Remote,
        !(lit_at_spec(url@, 0, url@.len() as int, "http://"@) || lit_at_spec(url@, 0, url@.len() as int, "https://"@)) ==> match r {
            ImageSource::Absolute(p) => url@.len() > 0 && url@[0] == '/' && p@ == url@,
            ImageSource::Home(p) => !(url@.len() > 0 && url@[0] == '/') && lit_at_spec(url@, 0, url@.len() as int, "~/"@)
                && p@ == url@.subrange(2, url@.len() as int),
            ImageSource::Relative(p) => !(url@.len() > 0 && url@[0] == '/') && !lit_at_spec(url@, 0, url@.len() as int, "~/"@) && p@ == url@,
            ImageSource::Remote => false,
        },
{
    let s = chars_of(url);
    let http = chars_of("http://");
    let https = chars_of("https://");
    let home = chars_of("~/");
    if lit_at(&s, 0, s.len(), &http) || lit_at(&s, 0, s.len(), &https) {
        ImageSource::Remote
    } else if s.len() > 0 && s[0] == '/' {
        ImageSource::Absolute(url.to_owned())
    } else if lit_at(&s, 0, s.len(), &home) {
        proof { reveal_strlit("~/"); }
        ImageSource::Home(string_of(&s, 2, s.len()))
    } else {
        ImageSource::Relative(url.to_owned())
    }
}

/// The URL under which a copied image is served.
pub fn copied_image_url(file_name: &str) -> (r: String)
    ensures
        r@ == "/images/"@ + file_name@,
{
    let mut r = String::new();
    push_str(&mut r, "/images/");
    push_str(&mut r, file_name);
    r
}

proof fn lemma_inline_round_trip(m: InlineModel, urls: Seq<Seq<char>>, k: int)
    requires
        0 <= k,
        k + inline_images(m).len() <= urls.len(),
    ensures
        inline_rewrite(m, urls, k).1 == k + inline_images(m).len(),
        inline_images(inline_rewrite(m, urls, k).0) == urls.subrange(k, k + inline_images(m).len()),
    decreases m,
{
    match m {
        InlineModel::Image { alt, url } => {
            assert(urls.subrange(k, k + 1) =~= seq![urls[k]]);
        },
        InlineModel::Strong(v) => lemma_inlines_round_trip(v, urls, k),
        InlineModel::Italic(v) => lemma_inlines_round_trip(v, urls, k),
        InlineModel::Strikethrough(v) => lemma_inlines_round_trip(v, urls, k),
        InlineModel::Link { text, url } => lemma_inlines_round_trip(text, urls, k),
        _ => {
            assert(urls.subrange(k, k) =~= Seq::<Seq<char>>::empty());
        },
    }
}

proof fn lemma_inlines_round_trip(v: Seq<InlineModel>, urls: Seq<Seq<char>>, k: int)
    requires
        0 <= k,
        k + inlines_images(v).len() <= urls.len(),
    ensures
        inlines_rewrite(v, urls, k).1 == k + inlines_images(v).len(),
        inlines_images(inlines_rewrite(v, urls, k).0) == urls.subrange(k, k + inlines_images(v).len()),
    decreases v,
{
    if v.len() == 0 {
        assert(urls.subrange(k, k) =~= Seq::<Seq<char>>::empty());
    } else {
        lemma_inlines_round_trip(v.drop_last(), urls, k);
        let (a, k1) = inlines_rewrite(v.drop_last(), urls, k);
        lemma_inline_round_trip(v.last(), urls, k1);
        let (x, k2) = inline_rewrite(v.last(), urls, k1);
        assert(a.push(x).drop_last() =~= a);
        assert(urls.subrange(k, k1) + urls.subrange(k1, k2) =~= urls.subrange(k, k2));
    }
}

proof fn lemma_items_round_trip(v: Seq<ItemModel>, urls: Seq<Seq<char>>, k: int)
    requires
        0 <= k,
        k + items_images(v).len() <= urls.len(),
    ensures
        items_rewrite(v, urls, k).1 == k + items_images(v).len(),
        items_images(items_rewrite(v, urls, k).0) == urls.subrange(k, k + items_images(v).len()),
    decreases v.len(),
{
    if v.len() == 0 {
        assert(urls.subrange(k, k) =~= Seq::<Seq<char>>::empty());
    } else {
        lemma_items_round_trip(v.drop_last(), urls, k);
        let (a, k1) = items_rewrite(v.drop_last(), urls, k);
        let i = v.last();
        lemma_inlines_round_trip(i.content, urls, k1);
        let (c, k2) = inlines_rewrite(i.content, urls, k1);
        let x = ItemModel { indent: i.indent, checked: i.checked, content: c };
        assert(a.push(x).drop_last() =~= a);
        assert(urls.subrange(k, k1) + urls.subrange(k1, k2) =~= urls.subrange(k, k2));
    }
}

proof fn lemma_block_round_trip(b: BlockModel, urls: Seq<Seq<char>>, k: int)
    requires
        0 <= k,
        k + block_images(b).len() <= urls.len(),
    ensures
        block_rewrite(b, urls, k).1 == k + block_images(b).len(),
        block_images(block_rewrite(b, urls, k).0) == urls.subrange(k, k + block_images(b).len()),
    decreases b,
{
    match b {
        BlockModel::Heading { level, content } => lemma_inlines_round_trip(content, urls, k),
        BlockModel::Paragraph(c) => lemma_inlines_round_trip(c, urls, k),
        BlockModel::Blockquote(bs) => lemma_blocks_round_trip(bs, urls, k),
        BlockModel::List { ordered, items } => lemma_items_round_trip(items, urls, k),
        _ => {
            assert(urls.subrange(k, k) =~= Seq::<Seq<char>>::empty());
        },
    }
}

proof fn lemma_blocks_round_trip(v: Seq<BlockModel>, urls: Seq<Seq<char>>, k: int)
    requires
        0 <= k,
        k + blocks_images(v).len() <= urls.len(),
    ensures
        blocks_rewrite(v, urls, k).1 == k + blocks_images(v).len(),
        blocks_images(blocks_rewrite(v, urls, k).0) == urls.subrange(k, k + blocks_images(v).len()),
    decreases v,
{
    if v.len() == 0 {
        assert(urls.subrange(k, k) =~= Seq::<Seq<char>>::empty());
    } else {
        lemma_blocks_round_trip(v.drop_last(), urls, k);
        let (a, k1) = blocks_rewrite(v.drop_last(), urls, k);
        lemma_block_round_trip(v.last(), urls, k1);
        let (x, k2) = block_rewrite(v.last(), urls, k1);
        assert(a.push(x).drop_last() =~= a);
        assert(urls.subrange(k, k1) + urls.subrange(k1, k2) =~= urls.subrange(k, k2));
    }
}

/// Rewriting a document with exactly as many URLs as it has images gives
/// it those images, in that order: what `with_image_urls` writes is what
/// `image_urls` then reads.
pub proof fn lemma_rewritten_images(blocks: Seq<BlockModel>, urls: Seq<Seq<char>>)
    requires
        urls.len() == blocks_images(blocks).len(),
    ensures
        blocks_images(blocks_rewrite(blocks, urls, 0).0) == urls,
{
    lemma_blocks_round_trip(blocks, urls, 0);
    assert(urls.subrange(0, urls.len() as int) =~= urls);
}

} // verus!
