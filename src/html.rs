use vstd::prelude::*;
use crate::ast::{Block, BlockModel, Document, Inline, InlineModel, ItemModel, ListItem, ListType, block_view, blocks_view, inline_view, inlines_view, item_view, items_view};
use crate::text::{chars_of, push_char, push_str};

verus! {

broadcast use {vstd::std_specs::vec::axiom_vec_index_decreases, vstd::seq::axiom_seq_index_decreases};

/// `c` with the five HTML-special characters written as entities.
pub open spec fn escape_char(c: char) -> Seq<char> {
    if c == '&' {
        "&amp;"@
    } else if c == '<' {
        "&lt;"@
    } else if c == '>' {
        "&gt;"@
    } else if c == '"' {
        "&quot;"@
    } else if c == '\'' {
        "&#39;"@
    } else {
        seq![c]
    }
}

pub open spec fn escape(s: Seq<char>) -> Seq<char>
    decreases s.len(),
{
    if s.len() == 0 {
        Seq::empty()
    } else {
        escape(s.drop_last()) + escape_char(s.last())
    }
}

/// Writes `&`, `<`, `>`, `"` and `'` as entities.
pub fn escape_html(s: &str) -> (r: String)
    ensures
        r@ == escape(s@),
{
    let v = chars_of(s);
    let mut r = String::new();
    let mut i: usize = 0;
    while i < v.len()
        invariant
            i <= v.len(),
            r@ == escape(v@.subrange(0, i as int)),
        decreases v.len() - i,
    {
        let c = v[i];
        if c == '&' {
            push_str(&mut r, "&amp;");
        } else if c == '<' {
            push_str(&mut r, "&lt;");
        } else if c == '>' {
            push_str(&mut r, "&gt;");
        } else if c == '"' {
            push_str(&mut r, "&quot;");
        } else if c == '\'' {
            push_str(&mut r, "&#39;");
        } else {
            push_char(&mut r, c);
            assert(r@ =~= escape(v@.subrange(0, i as int)) + seq![c]);
        }
        assert(v@.subrange(0, i + 1).drop_last() =~= v@.subrange(0, i as int));
        i = i + 1;
    }
    assert(v@.subrange(0, v@.len() as int) =~= v@);
    r
}

pub open spec fn inline_html(m: InlineModel) -> Seq<char>
    decreases m,
{
    match m {
        InlineModel::Text(s) => escape(s),
        InlineModel::Strong(v) => "<strong>"@ + inlines_html(v) + "</strong>"@,
        InlineModel::Italic(v) => "<em>"@ + inlines_html(v) + "</em>"@,
        InlineModel::Strikethrough(v) => "<del>"@ + inlines_html(v) + "</del>"@,
        InlineModel::Code(s) => "<code>"@ + escape(s) + "</code>"@,
        InlineModel::Link { text, url } => "<a href=\""@ + escape(url) + "\">"@ + inlines_html(text) + "</a>"@,
        InlineModel::Image { alt, url } => "<img src=\""@ + escape(url) + "\" alt=\""@ + escape(alt) + "\" />"@,
    }
}

pub open spec fn inlines_html(v: Seq<InlineModel>) -> Seq<char>
    decreases v,
{
    if v.len() == 0 {
        Seq::empty()
    } else {
        inlines_html(v.drop_last()) + inline_html(v.last())
    }
}

fn render_inline(i: &Inline) -> (r: String)
    ensures
        r@ == inline_html(inline_view(*i)),
    decreases i,
{
    match i {
        Inline::Text(s) => escape_html(s.as_str()),
        Inline::Strong(v) => wrap("<strong>", render_inlines(v), "</strong>"),
        Inline::Italic(v) => wrap("<em>", render_inlines(v), "</em>"),
        Inline::Strikethrough(v) => wrap("<del>", render_inlines(v), "</del>"),
        Inline::Code(s) => wrap("<code>", escape_html(s.as_str()), "</code>"),
        Inline::Link { text, url } => {
            let mut r = String::new();
            push_str(&mut r, "<a href=\"");
            push_str(&mut r, escape_html(url.as_str()).as_str());
            push_str(&mut r, "\">");
            push_str(&mut r, render_inlines(text).as_str());
            push_str(&mut r, "</a>");
            r
        },
        Inline::Image { alt, url } => {
            let mut r = String::new();
            push_str(&mut r, "<img src=\"");
            push_str(&mut r, escape_html(url.as_str()).as_str());
            push_str(&mut r, "\" alt=\"");
            push_str(&mut r, escape_html(alt.as_str()).as_str());
            push_str(&mut r, "\" />");
            r
        },
    }
}

fn render_inlines(v: &Vec<Inline>) -> (r: String)
    ensures
        r@ == inlines_html(inlines_view(v@)),
    decreases v,
{
    let mut r = String::new();
    let mut j: usize = 0;
    while j < v.len()
        invariant
            j <= v.len(),
            r@ == inlines_html(inlines_view(v@.subrange(0, j as int))),
        decreases v.len() - j,
    {
        let h = render_inline(&v[j]);
        proof {
            assert(v@.subrange(0, j + 1) =~= v@.subrange(0, j as int).push(v@[j as int]));
            crate::ast::lemma_inlines_view_push(v@.subrange(0, j as int), v@[j as int]);
            let w = inlines_view(v@.subrange(0, j + 1));
            assert(w.drop_last() =~= inlines_view(v@.subrange(0, j as int)));
        }
        push_str(&mut r, h.as_str());
        j = j + 1;
    }
    assert(v@.subrange(0, v@.len() as int) =~= v@);
    r
}

fn wrap(open: &str, body: String, close: &str) -> (r: String)
    ensures
        r@ == open@ + body@ + close@,
{
    let mut r = String::new();
    push_str(&mut r, open);
    push_str(&mut r, body.as_str());
    push_str(&mut r, close);
    assert(r@ =~= open@ + body@ + close@);
    r
}

pub open spec fn digit_char(d: nat) -> char {
    if d == 0 { '0' } else if d == 1 { '1' } else if d == 2 { '2' } else if d == 3 { '3' }
    else if d == 4 { '4' } else if d == 5 { '5' } else if d == 6 { '6' } else if d == 7 { '7' }
    else if d == 8 { '8' } else { '9' }
}

/// `n` in decimal.
pub open spec fn decimal(n: nat) -> Seq<char>
    decreases n,
{
    if n < 10 {
        seq![digit_char(n)]
    } else {
        decimal(n / 10) + seq![digit_char(n % 10)]
    }
}

fn push_decimal(r: &mut String, n: u8)
    ensures
        final(r)@ == old(r)@ + decimal(n as nat),
    decreases n,
{
    if n >= 10 {
        push_decimal(r, n / 10);
    }
    let d = n % 10;
    let c = if d == 0 { '0' } else if d == 1 { '1' } else if d == 2 { '2' } else if d == 3 { '3' }
    else if d == 4 { '4' } else if d == 5 { '5' } else if d == 6 { '6' } else if d == 7 { '7' }
    else if d == 8 { '8' } else { '9' };
    push_char(r, c);
    assert(final(r)@ =~= old(r)@ + decimal(n as nat));
}

pub open spec fn checkbox_html(checked: Option<bool>) -> Seq<char> {
    match checked {
        Some(true) => "<input type=\"checkbox\" checked disabled> "@,
        Some(false) => "<input type=\"checkbox\" disabled> "@,
        None => Seq::empty(),
    }
}

pub open spec fn item_html(i: ItemModel) -> Seq<char> {
    "<li>"@ + checkbox_html(i.checked) + inlines_html(i.content) + "\n</li>"@
}

pub open spec fn list_tag(ordered: bool) -> Seq<char> {
    if ordered { "ol"@ } else { "ul"@ }
}

/// The items from the front, each preceded by an opening tag where its
/// indent is deeper than `last` and a closing tag where it is shallower.
pub open spec fn items_html(items: Seq<ItemModel>, last: nat, ordered: bool) -> Seq<char>
    decreases items.len(),
{
    if items.len() == 0 {
        Seq::empty()
    } else {
        let i = items[0];
        let sep = if i.indent > last {
            "\n<"@ + list_tag(ordered) + ">"@
        } else if i.indent < last {
            "</"@ + list_tag(ordered) + ">"@
        } else {
            Seq::empty()
        };
        sep + item_html(i) + items_html(items.subrange(1, items.len() as int), i.indent, ordered)
    }
}

pub open spec fn list_html(ordered: bool, items: Seq<ItemModel>) -> Seq<char> {
    if items.len() == 0 {
        Seq::empty()
    } else {
        "<"@ + list_tag(ordered) + ">"@ + items_html(items, items[0].indent, ordered) + "</"@ + list_tag(ordered) + ">"@
    }
}

pub open spec fn block_html(b: BlockModel) -> Seq<char>
    decreases b,
{
    match b {
        BlockModel::Heading { level, content } => "<h"@ + decimal(level) + ">"@ + inlines_html(content) + "</h"@ + decimal(level) + ">"@,
        BlockModel::Paragraph(c) => "<p>"@ + inlines_html(c) + "</p>"@,
        BlockModel::Blockquote(bs) => "<blockquote>"@ + blocks_html(bs) + "</blockquote>"@,
        BlockModel::List { ordered, items } => list_html(ordered, items),
        BlockModel::FencedCodeBlock { language, code } => "<pre><code"@ + match language {
            Some(l) => " class=\"language-"@ + escape(l) + "\""@,
            None => Seq::empty(),
        } + ">"@ + escape(code) + "</code></pre>"@,
        BlockModel::HorizontalRule => "<hr />"@,
    }
}

pub open spec fn blocks_html(v: Seq<BlockModel>) -> Seq<char>
    decreases v,
{
    if v.len() == 0 {
        Seq::empty()
    } else {
        blocks_html(v.drop_last()) + block_html(v.last())
    }
}

fn render_item(i: &ListItem) -> (r: String)
    ensures
        r@ == item_html(item_view(*i)),
{
    let mut r = String::new();
    push_str(&mut r, "<li>");
    match i.checked {
        Some(true) => push_str(&mut r, "<input type=\"checkbox\" checked disabled> "),
        Some(false) => push_str(&mut r, "<input type=\"checkbox\" disabled> "),
        None => {},
    }
    push_str(&mut r, render_inlines(&i.content).as_str());
    push_str(&mut r, "\n</li>");
    assert(r@ =~= item_html(item_view(*i)));
    r
}

fn render_list(items: &Vec<ListItem>, ordered: bool) -> (r: String)
    ensures
        r@ == list_html(ordered, items_view(items@)),
{
    if items.len() == 0 {
        return String::new();
    }
    let tag = if ordered { "ol" } else { "ul" };
    let ghost iv = items_view(items@);
    let mut r = String::new();
    push_str(&mut r, "<");
    push_str(&mut r, tag);
    push_str(&mut r, ">");
    let mut last = items[0].indent;
    let mut j: usize = 0;
    assert(iv.subrange(0, iv.len() as int) =~= iv);
    while j < items.len()
        invariant
            j <= items.len(),
            iv == items_view(items@),
            tag@ == list_tag(ordered),
            r@ + items_html(iv.subrange(j as int, iv.len() as int), last as nat, ordered)
                == "<"@ + list_tag(ordered) + ">"@ + items_html(iv, iv[0].indent, ordered),
        decreases items.len() - j,
    {
        let ghost before = r@;
        let ghost rest = iv.subrange(j as int, iv.len() as int);
        let it = &items[j];
        if it.indent > last {
            push_str(&mut r, "\n<");
            push_str(&mut r, tag);
            push_str(&mut r, ">");
        } else if it.indent < last {
            push_str(&mut r, "</");
            push_str(&mut r, tag);
            push_str(&mut r, ">");
        }
        push_str(&mut r, render_item(it).as_str());
        proof {
            assert(rest[0] == item_view(*it));
            assert(rest.subrange(1, rest.len() as int) =~= iv.subrange(j + 1, iv.len() as int));
            assert(r@ + items_html(iv.subrange(j + 1, iv.len() as int), it.indent as nat, ordered)
                =~= before + items_html(rest, last as nat, ordered));
        }
        last = it.indent;
        j = j + 1;
    }
    push_str(&mut r, "</");
    push_str(&mut r, tag);
    push_str(&mut r, ">");
    assert(iv.subrange(iv.len() as int, iv.len() as int) =~= Seq::<ItemModel>::empty());
    assert(r@ =~= list_html(ordered, iv));
    r
}

fn render_block(b: &Block) -> (r: String)
    ensures
        r@ == block_html(block_view(*b)),
    decreases b,
{
    match b {
        Block::Heading { level, content } => {
            let mut r = String::new();
            push_str(&mut r, "<h");
            push_decimal(&mut r, *level);
            push_str(&mut r, ">");
            push_str(&mut r, render_inlines(content).as_str());
            push_str(&mut r, "</h");
            push_decimal(&mut r, *level);
            push_str(&mut r, ">");
            assert(r@ =~= block_html(block_view(*b)));
            r
        },
        Block::Paragraph(c) => wrap("<p>", render_inlines(c), "</p>"),
        Block::Blockquote(bs) => wrap("<blockquote>", render_blocks(bs), "</blockquote>"),
        Block::List(ListType::Unordered(items)) => render_list(items, false),
        Block::List(ListType::Ordered(items)) => render_list(items, true),
        Block::FencedCodeBlock { language, code } => {
            let mut r = String::new();
            push_str(&mut r, "<pre><code");
            match language {
                Some(l) => {
                    push_str(&mut r, " class=\"language-");
                    push_str(&mut r, escape_html(l.as_str()).as_str());
                    push_str(&mut r, "\"");
                },
                None => {},
            }
            push_str(&mut r, ">");
            push_str(&mut r, escape_html(code.as_str()).as_str());
            push_str(&mut r, "</code></pre>");
            assert(r@ =~= block_html(block_view(*b)));
            r
        },
        Block::HorizontalRule => {
            let mut r = String::new();
            push_str(&mut r, "<hr />");
            assert(r@ =~= block_html(block_view(*b)));
            r
        },
    }
}

fn render_blocks(v: &Vec<Block>) -> (r: String)
    ensures
        r@ == blocks_html(blocks_view(v@)),
    decreases v,
{
    let mut r = String::new();
    let mut j: usize = 0;
    while j < v.len()
        invariant
            j <= v.len(),
            r@ == blocks_html(blocks_view(v@.subrange(0, j as int))),
        decreases v.len() - j,
    {
        let h = render_block(&v[j]);
        proof {
            assert(v@.subrange(0, j + 1) =~= v@.subrange(0, j as int).push(v@[j as int]));
            crate::ast::lemma_blocks_view_push(v@.subrange(0, j as int), v@[j as int]);
            let w = blocks_view(v@.subrange(0, j + 1));
            assert(w.drop_last() =~= blocks_view(v@.subrange(0, j as int)));
        }
        push_str(&mut r, h.as_str());
        j = j + 1;
    }
    assert(v@.subrange(0, v@.len() as int) =~= v@);
    r
}

/// Rendering to HTML markup.
pub trait ToHtml {
    spec fn html(&self) -> Seq<char>;

    fn to_html(&self) -> (r: String)
        ensures
            r@ == self.html(),
    ;
}

impl ToHtml for Inline {
    open spec fn html(&self) -> Seq<char> {
        inline_html(inline_view(*self))
    }

    fn to_html(&self) -> (r: String) {
        render_inline(self)
    }
}

impl ToHtml for Vec<Inline> {
    open spec fn html(&self) -> Seq<char> {
        inlines_html(inlines_view(self@))
    }

    fn to_html(&self) -> (r: String) {
        render_inlines(self)
    }
}

impl ToHtml for ListItem {
    open spec fn html(&self) -> Seq<char> {
        item_html(item_view(*self))
    }

    fn to_html(&self) -> (r: String) {
        render_item(self)
    }
}

impl ToHtml for ListType {
    open spec fn html(&self) -> Seq<char> {
        match self {
            ListType::Unordered(items) => list_html(false, items_view(items@)),
            ListType::Ordered(items) => list_html(true, items_view(items@)),
        }
    }

    fn to_html(&self) -> (r: String) {
        match self {
            ListType::Unordered(items) => render_list(items, false),
            ListType::Ordered(items) => render_list(items, true),
        }
    }
}

impl ToHtml for Block {
    open spec fn html(&self) -> Seq<char> {
        block_html(block_view(*self))
    }

    fn to_html(&self) -> (r: String) {
        render_block(self)
    }
}

impl ToHtml for Document {
    open spec fn html(&self) -> Seq<char> {
        blocks_html(blocks_view(self.blocks@))
    }

    fn to_html(&self) -> (r: String) {
        render_blocks(&self.blocks)
    }
}

} // verus!
