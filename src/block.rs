use vstd::prelude::*;
use crate::ast::{Document, Block, BlockModel, ItemModel, ListItem, ListType, block_result, block_view, blocks_view, item_view, items_view};
use crate::block_spec::{is_space, is_indent_char, not_newline, is_hash, triple, line_end, span_measure, horizontal_rule, fence, fenced_code, heading, quote_content, blockquote, marker_end, checkbox, list_item, list_items, list, paragraph, block_one, blank_line_end, skip_blanks, document};
use crate::inline::{char_at, inlines_at, run_end_at};
use crate::lex::digits_at;
use crate::scan::{at, find_char, find_lit, lit_at};
use crate::text::{chars_of, string_of};

verus! {

fn triple_at(s: &Vec<char>, pos: usize, end: usize, c: char) -> (r: bool)
    requires
        end <= s.len(),
    ensures
        r == triple(s@, pos as int, end as int, c),
{
    char_at(s, pos, end, c) && pos < end && char_at(s, pos + 1, end, c) && pos + 1 < end && char_at(s, pos + 2, end, c)
}

fn line_end_at(s: &Vec<char>, from: usize, end: usize) -> (r: (usize, usize))
    requires
        from <= end <= s.len(),
    ensures
        line_end(s@, from as int, end as int) == (r.0 as int, r.1 as int),
        from <= r.0 <= r.1 <= end,
{
    match find_char(s, from, end, '\n') {
        Some(k) => {
            proof { crate::scan::lemma_find1_bounds(s@, from as int, end as int, '\n'); }
            (k, k + 1)
        },
        None => (end, end),
    }
}

pub fn horizontal_rule_at(s: &Vec<char>, pos: usize, end: usize) -> (r: Option<(Block, usize)>)
    requires
        pos <= end <= s.len(),
    ensures
        block_result(r, horizontal_rule(s@, pos as int, end as int), end),
{
    if triple_at(s, pos, end, '-') || triple_at(s, pos, end, '*') || triple_at(s, pos, end, '_') {
        let e = run_end_at(s, pos + 3, end, |c: char| -> (b: bool) ensures b == is_space(c) { c == ' ' }, Ghost(|c| is_space(c)));
        if char_at(s, e, end, '\n') {
            Some((Block::HorizontalRule, e + 1))
        } else {
            None
        }
    } else {
        None
    }
}

pub fn fenced_code_at(s: &Vec<char>, pos: usize, end: usize) -> (r: Option<(Block, usize)>)
    requires
        pos <= end <= s.len(),
    ensures
        block_result(r, fenced_code(s@, pos as int, end as int), end),
{
    let marker = vec!['`', '`', '`'];
    assert(marker@ == fence());
    if lit_at(s, pos, end, &marker) {
        let l = run_end_at(s, pos + 3, end, |c: char| -> (b: bool) ensures b == not_newline(c) { c != '\n' }, Ghost(|c| not_newline(c)));
        if char_at(s, l, end, '\n') {
            match find_lit(s, l + 1, end, &marker) {
                Some(k) => {
                    proof { crate::scan::lemma_find_seq_bounds(s@, (l + 1) as int, end as int, fence()); }
                    let language = if l > pos + 3 {
                        Some(string_of(s, pos + 3, l))
                    } else {
                        None
                    };
                    let e = if k + 3 < end && char_at(s, k + 3, end, '\n') {
                        k + 4
                    } else {
                        k + 3
                    };
                    let code = string_of(s, l + 1, k);
                    Some((Block::FencedCodeBlock { language, code }, e))
                },
                None => None,
            }
        } else {
            None
        }
    } else {
        None
    }
}

pub fn heading_at(s: &Vec<char>, pos: usize, end: usize) -> (r: Option<(Block, usize)>)
    requires
        pos <= end <= s.len(),
    ensures
        block_result(r, heading(s@, pos as int, end as int), end),
{
    let h = run_end_at(s, pos, end, |c: char| -> (b: bool) ensures b == is_hash(c) { c == '#' }, Ghost(|c| is_hash(c)));
    if 1 <= h - pos && h - pos <= 6 && char_at(s, h, end, ' ') {
        let (le, next) = line_end_at(s, h + 1, end);
        match inlines_at(s, h + 1, le) {
            Some((v, _)) => Some((Block::Heading { level: (h - pos) as u8, content: v }, next)),
            None => None,
        }
    } else {
        None
    }
}

pub(crate) fn append_range(v: &mut Vec<char>, s: &Vec<char>, a: usize, b: usize)
    requires
        a <= b <= s.len(),
    ensures
        final(v)@ == old(v)@ + s@.subrange(a as int, b as int),
{
    let mut i = a;
    while i < b
        invariant
            a <= i <= b <= s.len(),
            v@ == old(v)@ + s@.subrange(a as int, i as int),
        decreases b - i,
    {
        v.push(s[i]);
        assert(s@.subrange(a as int, i + 1) =~= s@.subrange(a as int, i as int).push(s@[i as int]));
        assert(old(v)@ + s@.subrange(a as int, i + 1) =~= (old(v)@ + s@.subrange(a as int, i as int)).push(s@[i as int]));
        i = i + 1;
    }
}

fn quote_content_at(s: &Vec<char>, pos: usize, end: usize) -> (r: (Vec<char>, usize))
    requires
        pos <= end <= s.len(),
    ensures
        quote_content(s@, pos as int, end as int) == (r.0@, r.1 as int),
        pos <= r.1 <= end,
{
    let mut acc: Vec<char> = Vec::new();
    let mut i = pos;
    assert(acc@ + quote_content(s@, pos as int, end as int).0 =~= quote_content(s@, pos as int, end as int).0);
    loop
        invariant
            pos <= i <= end <= s.len(),
            quote_content(s@, pos as int, end as int) == (acc@ + quote_content(s@, i as int, end as int).0, quote_content(s@, i as int, end as int).1),
        decreases end - i,
    {
        if !char_at(s, i, end, '>') {
            assert(acc@ + Seq::<char>::empty() =~= acc@);
            return (acc, i);
        }
        let q = run_end_at(s, i + 1, end, |c: char| -> (b: bool) ensures b == is_space(c) { c == ' ' }, Ghost(|c| is_space(c)));
        let (le, next) = line_end_at(s, q, end);
        let ghost old_acc = acc@;
        append_range(&mut acc, s, q, le);
        acc.push('\n');
        proof {
            let (c, e) = quote_content(s@, next as int, end as int);
            assert(old_acc + (s@.subrange(q as int, le as int).push('\n') + c) =~= acc@ + c);
        }
        i = next;
    }
}

fn checkbox_at(s: &Vec<char>, pos: usize, end: usize) -> (r: (Option<bool>, usize))
    requires
        pos <= end <= s.len(),
    ensures
        checkbox(s@, pos as int, end as int) == (r.0, r.1 as int),
        pos <= r.1 <= end,
{
    let checked = vec!['[', 'x', ']', ' '];
    let unchecked = vec!['[', ' ', ']', ' '];
    assert(checked@ == seq!['[', 'x', ']', ' ']);
    assert(unchecked@ == seq!['[', ' ', ']', ' ']);
    if lit_at(s, pos, end, &checked) {
        (Some(true), pos + 4)
    } else if lit_at(s, pos, end, &unchecked) {
        (Some(false), pos + 4)
    } else {
        (None, pos)
    }
}

fn marker_end_at(s: &Vec<char>, i: usize, end: usize, ordered: bool) -> (r: Option<usize>)
    requires
        i <= end <= s.len(),
    ensures
        match r {
            Some(m) => marker_end(s@, i as int, end as int, ordered) == Some(m as int) && m <= end,
            None => marker_end(s@, i as int, end as int, ordered) is None,
        },
{
    if ordered {
        match digits_at(s, i, end) {
            Some((_, d)) => if char_at(s, d, end, '.') {
                Some(d + 1)
            } else {
                None
            },
            None => None,
        }
    } else if char_at(s, i, end, '*') || char_at(s, i, end, '-') || char_at(s, i, end, '+') {
        Some(i + 1)
    } else {
        None
    }
}

pub open spec fn item_result(r: Option<(ListItem, usize)>, m: Option<(ItemModel, int)>, end: usize) -> bool {
    match r {
        Some((x, e)) => m == Some((item_view(x), e as int)) && e <= end,
        None => m is None,
    }
}

pub fn list_item_at(s: &Vec<char>, pos: usize, end: usize, ordered: bool) -> (r: Option<(ListItem, usize)>)
    requires
        pos <= end <= s.len(),
    ensures
        item_result(r, list_item(s@, pos as int, end as int, ordered), end),
{
    let i = run_end_at(s, pos, end, |c: char| -> (b: bool) ensures b == is_indent_char(c) { c == ' ' || c == '\t' }, Ghost(|c| is_indent_char(c)));
    match marker_end_at(s, i, end, ordered) {
        Some(m) => if char_at(s, m, end, ' ') {
            let (checked, c) = checkbox_at(s, m + 1, end);
            match inlines_at(s, c, end) {
                Some((v, e)) => if char_at(s, e, end, '\n') {
                    Some((ListItem { indent: i - pos, checked, content: v }, e + 1))
                } else {
                    None
                },
                None => None,
            }
        } else {
            None
        },
        None => None,
    }
}

pub fn list_at(s: &Vec<char>, pos: usize, end: usize, ordered: bool) -> (r: Option<(Block, usize)>)
    requires
        pos <= end <= s.len(),
    ensures
        block_result(r, list(s@, pos as int, end as int, ordered), end),
{
    if list_item_at(s, pos, end, ordered).is_none() {
        return None;
    }
    let mut acc: Vec<ListItem> = Vec::new();
    let mut i = pos;
    assert(items_view(acc@) + list_items(s@, pos as int, end as int, ordered).0 =~= list_items(s@, pos as int, end as int, ordered).0);
    loop
        invariant
            pos <= i <= end <= s.len(),
            list_item(s@, pos as int, end as int, ordered) is Some,
            list_items(s@, pos as int, end as int, ordered) == (items_view(acc@) + list_items(s@, i as int, end as int, ordered).0, list_items(s@, i as int, end as int, ordered).1),
        decreases end - i,
    {
        match list_item_at(s, i, end, ordered) {
            Some((x, p)) => {
                if i < p && p <= end {
                    proof {
                        let (r, e) = list_items(s@, p as int, end as int, ordered);
                        crate::ast::lemma_items_view_push(acc@, x);
                        assert(items_view(acc@) + (seq![item_view(x)] + r) =~= items_view(acc@).push(item_view(x)) + r);
                    }
                    acc.push(x);
                    i = p;
                } else {
                    assert(items_view(acc@) + Seq::<ItemModel>::empty() =~= items_view(acc@));
                    assert(list_items(s@, i as int, end as int, ordered) == (Seq::<ItemModel>::empty(), i as int));
                    return Some((list_block(acc, ordered), i));
                }
            },
            None => {
                assert(items_view(acc@) + Seq::<ItemModel>::empty() =~= items_view(acc@));
                assert(list_items(s@, i as int, end as int, ordered) == (Seq::<ItemModel>::empty(), i as int));
                return Some((list_block(acc, ordered), i));
            },
        }
    }
}

fn list_block(items: Vec<ListItem>, ordered: bool) -> (b: Block)
    ensures
        block_view(b) == (BlockModel::List { ordered, items: items_view(items@) }),
{
    if ordered {
        Block::List(ListType::Ordered(items))
    } else {
        Block::List(ListType::Unordered(items))
    }
}

pub fn paragraph_at(s: &Vec<char>, pos: usize, end: usize) -> (r: Option<(Block, usize)>)
    requires
        pos <= end <= s.len(),
    ensures
        block_result(r, paragraph(s@, pos as int, end as int), end),
{
    match inlines_at(s, pos, end) {
        Some((v, e)) => Some((Block::Paragraph(v), e)),
        None => None,
    }
}

fn span_measure_at(s: &Vec<char>, pos: usize, end: usize) -> (r: u128)
    requires
        pos <= end <= s.len(),
    ensures
        r as int == span_measure(s@, pos as int, end as int),
{
    let flag: u128 = if pos < end && s[end - 1] != '\n' {
        1
    } else {
        0
    };
    2 * ((end - pos) as u128) + flag
}

pub fn blockquote_at(s: &Vec<char>, pos: usize, end: usize) -> (r: Option<(Block, usize)>)
    requires
        pos <= end <= s.len(),
    ensures
        block_result(r, blockquote(s@, pos as int, end as int), end),
    decreases span_measure(s@, pos as int, end as int), 0int,
{
    if char_at(s, pos, end, '>') {
        let (c, e) = quote_content_at(s, pos, end);
        if span_measure_at(&c, 0, c.len()) < span_measure_at(s, pos, end) {
            let (bs, _) = document_at(&c, 0, c.len());
            if bs.len() > 0 {
                Some((Block::Blockquote(bs), e))
            } else {
                None
            }
        } else {
            None
        }
    } else {
        None
    }
}

/// One block at `pos`: the first alternative, in priority order, that
/// matches.
pub fn block_one_at(s: &Vec<char>, pos: usize, end: usize) -> (r: Option<(Block, usize)>)
    requires
        pos <= end <= s.len(),
    ensures
        block_result(r, block_one(s@, pos as int, end as int), end),
    decreases span_measure(s@, pos as int, end as int), 1int,
{
    let r = horizontal_rule_at(s, pos, end);
    if r.is_some() {
        return r;
    }
    let r = fenced_code_at(s, pos, end);
    if r.is_some() {
        return r;
    }
    let r = heading_at(s, pos, end);
    if r.is_some() {
        return r;
    }
    let r = blockquote_at(s, pos, end);
    if r.is_some() {
        return r;
    }
    let r = list_at(s, pos, end, false);
    if r.is_some() {
        return r;
    }
    let r = list_at(s, pos, end, true);
    if r.is_some() {
        return r;
    }
    paragraph_at(s, pos, end)
}

fn blank_line_at(s: &Vec<char>, pos: usize, end: usize) -> (r: Option<usize>)
    requires
        pos <= end <= s.len(),
    ensures
        match r {
            Some(b) => blank_line_end(s@, pos as int, end as int) == Some(b as int) && b <= end,
            None => blank_line_end(s@, pos as int, end as int) is None,
        },
{
    let w = run_end_at(s, pos, end, |c: char| -> (b: bool) ensures b == is_indent_char(c) { c == ' ' || c == '\t' }, Ghost(|c| is_indent_char(c)));
    if char_at(s, w, end, '\n') {
        Some(w + 1)
    } else {
        None
    }
}

fn skip_blanks_at(s: &Vec<char>, pos: usize, end: usize) -> (r: usize)
    requires
        pos <= end <= s.len(),
    ensures
        r as int == skip_blanks(s@, pos as int, end as int),
        pos <= r <= end,
{
    let mut i = pos;
    loop
        invariant
            pos <= i <= end <= s.len(),
            skip_blanks(s@, pos as int, end as int) == skip_blanks(s@, i as int, end as int),
        decreases end - i,
    {
        match blank_line_at(s, i, end) {
            Some(b) => if i < b && b <= end {
                i = b;
            } else {
                return i;
            },
            None => return i,
        }
    }
}

/// Blocks from `pos`, each after any blank lines, for as long as one
/// matches; where the blocks end.
pub fn document_at(s: &Vec<char>, pos: usize, end: usize) -> (r: (Vec<Block>, usize))
    requires
        pos <= end <= s.len(),
    ensures
        document(s@, pos as int, end as int) == (blocks_view(r.0@), r.1 as int),
        pos <= r.1 <= end,
    decreases span_measure(s@, pos as int, end as int), 2int,
{
    let mut acc: Vec<Block> = Vec::new();
    let mut i = pos;
    assert(blocks_view(acc@) + document(s@, pos as int, end as int).0 =~= document(s@, pos as int, end as int).0);
    loop
        invariant
            pos <= i <= end <= s.len(),
            span_measure(s@, i as int, end as int) <= span_measure(s@, pos as int, end as int),
            document(s@, pos as int, end as int) == (blocks_view(acc@) + document(s@, i as int, end as int).0, document(s@, i as int, end as int).1),
        decreases end - i,
    {
        let b = skip_blanks_at(s, i, end);
        match block_one_at(s, b, end) {
            Some((x, p)) => {
                if i < p && p <= end {
                    proof {
                        let (r, e) = document(s@, p as int, end as int);
                        crate::ast::lemma_blocks_view_push(acc@, x);
                        assert(blocks_view(acc@) + (seq![block_view(x)] + r) =~= blocks_view(acc@).push(block_view(x)) + r);
                    }
                    acc.push(x);
                    i = p;
                } else {
                    assert(blocks_view(acc@) + Seq::<BlockModel>::empty() =~= blocks_view(acc@));
                    return (acc, i);
                }
            },
            None => {
                assert(blocks_view(acc@) + Seq::<BlockModel>::empty() =~= blocks_view(acc@));
                return (acc, i);
            },
        }
    }
}

/// How a block parse of a whole string stands to its model: the block,
/// and the input that is left.
pub open spec fn block_parsed(r: Option<(Block, String)>, s: Seq<char>, m: Option<(BlockModel, int)>) -> bool {
    match r {
        Some((b, rest)) => m matches Some((mb, e)) && block_view(b) == mb && rest@ == s.subrange(e, s.len() as int),
        None => m is None,
    }
}

fn finish_block(s: &Vec<char>, r: Option<(Block, usize)>, Ghost(m): Ghost<Option<(BlockModel, int)>>) -> (o: Option<(Block, String)>)
    requires
        block_result(r, m, s.len()),
    ensures
        block_parsed(o, s@, m),
{
    match r {
        Some((b, e)) => Some((b, string_of(s, e, s.len()))),
        None => None,
    }
}

/// `---`, `***` or `___` on a line of its own.
pub fn parse_horizontal_rule(input: &str) -> (r: Option<(Block, String)>)
    ensures
        block_parsed(r, input@, horizontal_rule(input@, 0, input@.len() as int)),
{
    let s = chars_of(input);
    finish_block(&s, horizontal_rule_at(&s, 0, s.len()), Ghost(horizontal_rule(s@, 0, s@.len() as int)))
}

/// A fenced code block.
pub fn parse_fenced_code_block(input: &str) -> (r: Option<(Block, String)>)
    ensures
        block_parsed(r, input@, fenced_code(input@, 0, input@.len() as int)),
{
    let s = chars_of(input);
    finish_block(&s, fenced_code_at(&s, 0, s.len()), Ghost(fenced_code(s@, 0, s@.len() as int)))
}

/// A heading of level one to six.
pub fn parse_heading(input: &str) -> (r: Option<(Block, String)>)
    ensures
        block_parsed(r, input@, heading(input@, 0, input@.len() as int)),
{
    let s = chars_of(input);
    finish_block(&s, heading_at(&s, 0, s.len()), Ghost(heading(s@, 0, s@.len() as int)))
}

/// A quote, whose content is parsed again as a document.
pub fn parse_blockquote(input: &str) -> (r: Option<(Block, String)>)
    ensures
        block_parsed(r, input@, blockquote(input@, 0, input@.len() as int)),
{
    let s = chars_of(input);
    finish_block(&s, blockquote_at(&s, 0, s.len()), Ghost(blockquote(s@, 0, s@.len() as int)))
}

/// A list whose markers are `*`, `-` or `+`.
pub fn parse_unorderd_list(input: &str) -> (r: Option<(Block, String)>)
    ensures
        block_parsed(r, input@, list(input@, 0, input@.len() as int, false)),
{
    let s = chars_of(input);
    finish_block(&s, list_at(&s, 0, s.len(), false), Ghost(list(s@, 0, s@.len() as int, false)))
}

/// A list whose markers are numbers followed by `.`.
pub fn parse_orderd_list(input: &str) -> (r: Option<(Block, String)>)
    ensures
        block_parsed(r, input@, list(input@, 0, input@.len() as int, true)),
{
    let s = chars_of(input);
    finish_block(&s, list_at(&s, 0, s.len(), true), Ghost(list(s@, 0, s@.len() as int, true)))
}

/// A run of inline content.
pub fn parse_paragraph(input: &str) -> (r: Option<(Block, String)>)
    ensures
        block_parsed(r, input@, paragraph(input@, 0, input@.len() as int)),
{
    let s = chars_of(input);
    finish_block(&s, paragraph_at(&s, 0, s.len()), Ghost(paragraph(s@, 0, s@.len() as int)))
}

/// One block: horizontal rule, fenced code, heading, blockquote,
/// unordered list, ordered list or paragraph, the first that matches.
pub fn parse_block(input: &str) -> (r: Option<(Block, String)>)
    ensures
        block_parsed(r, input@, block_one(input@, 0, input@.len() as int)),
{
    let s = chars_of(input);
    finish_block(&s, block_one_at(&s, 0, s.len()), Ghost(block_one(s@, 0, s@.len() as int)))
}

/// The blocks of a document body, each after any blank lines. This never
/// fails: it stops where no further block matches.
pub fn parse_document(input: &str) -> (r: Option<(Document, String)>)
    ensures
        r matches Some((d, rest)) && document(input@, 0, input@.len() as int) matches (m, e)
            && blocks_view(d.blocks@) == m && rest@ == input@.subrange(e, input@.len() as int),
{
    let s = chars_of(input);
    let (blocks, e) = document_at(&s, 0, s.len());
    Some((Document { blocks }, string_of(&s, e, s.len())))
}

/// Spaces and tabs, then a line break: what is left after it.
pub fn blank_line(input: &str) -> (r: Option<String>)
    ensures
        match r {
            Some(rest) => crate::block_spec::blank_line_end(input@, 0, input@.len() as int) matches Some(e)
                && rest@ == input@.subrange(e, input@.len() as int),
            None => crate::block_spec::blank_line_end(input@, 0, input@.len() as int) is None,
        },
{
    let s = chars_of(input);
    match blank_line_at(&s, 0, s.len()) {
        Some(e) => Some(string_of(&s, e, s.len())),
        None => None,
    }
}

/// The line up to its line break, and what follows the break; the whole
/// input where there is none.
pub fn parse_line(input: &str) -> (r: (String, String))
    ensures
        line_end(input@, 0, input@.len() as int) matches (le, next) && r.0@ == input@.subrange(0, le)
            && r.1@ == input@.subrange(next, input@.len() as int),
{
    let s = chars_of(input);
    let (le, next) = line_end_at(&s, 0, s.len());
    (string_of(&s, 0, le), string_of(&s, next, s.len()))
}

/// The input up to the first occurrence of `target`, and the rest from
/// that occurrence on.
pub fn take_until(input: &str, target: &str) -> (r: Option<(String, String)>)
    ensures
        match r {
            Some((before, rest)) => crate::scan::find_seq(input@, 0, input@.len() as int, target@) matches Some(k)
                && before@ == input@.subrange(0, k) && rest@ == input@.subrange(k, input@.len() as int),
            None => crate::scan::find_seq(input@, 0, input@.len() as int, target@) is None,
        },
{
    let s = chars_of(input);
    let t = chars_of(target);
    if t.len() == 0 {
        assert(s@.subrange(0, 0) =~= t@);
        assert(s@.subrange(0, s@.len() as int) =~= s@);
        return Some((String::new(), input.to_owned()));
    }
    match find_lit(&s, 0, s.len(), &t) {
        Some(k) => Some((string_of(&s, 0, k), string_of(&s, k, s.len()))),
        None => None,
    }
}

} // verus!
