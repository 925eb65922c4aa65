use vstd::prelude::*;
use crate::ast::{BlockModel, ItemModel};
use crate::inline_spec::{inlines, run_end};
use crate::lex::digits;
use crate::scan::{at, find1, find_seq, lit_at_spec};

verus! {

pub open spec fn is_space(c: char) -> bool {
    c == ' '
}

pub open spec fn is_indent_char(c: char) -> bool {
    c == ' ' || c == '\t'
}

pub open spec fn not_newline(c: char) -> bool {
    c != '\n'
}

pub open spec fn is_hash(c: char) -> bool {
    c == '#'
}

pub open spec fn triple(s: Seq<char>, pos: int, end: int, c: char) -> bool {
    at(s, pos, end, c) && at(s, pos + 1, end, c) && at(s, pos + 2, end, c)
}

/// The end of the line that starts at `from`, and where the next line
/// starts.
pub open spec fn line_end(s: Seq<char>, from: int, end: int) -> (int, int) {
    match find1(s, from, end, '\n') {
        Some(k) => (k, k + 1),
        None => (end, end),
    }
}

/// A measure that every nested block parse decreases: twice the length of
/// the span, plus one where the span does not end in a line break.
pub open spec fn span_measure(s: Seq<char>, pos: int, end: int) -> int {
    2 * (end - pos) + if 0 <= pos < end <= s.len() && s[end - 1] != '\n' {
        1int
    } else {
        0int
    }
}

/// `---`, `***` or `___`, then spaces, then a line break.
pub open spec fn horizontal_rule(s: Seq<char>, pos: int, end: int) -> Option<(BlockModel, int)> {
    if triple(s, pos, end, '-') || triple(s, pos, end, '*') || triple(s, pos, end, '_') {
        let e = run_end(s, pos + 3, end, |c| is_space(c));
        if at(s, e, end, '\n') {
            Some((BlockModel::HorizontalRule, e + 1))
        } else {
            None
        }
    } else {
        None
    }
}

pub open spec fn fence() -> Seq<char> {
    seq!['`', '`', '`']
}

/// A fence, an optional language tag, a line break, then the raw text up
/// to the next fence.
pub open spec fn fenced_code(s: Seq<char>, pos: int, end: int) -> Option<(BlockModel, int)> {
    if lit_at_spec(s, pos, end, fence()) {
        let l = run_end(s, pos + 3, end, |c| not_newline(c));
        if at(s, l, end, '\n') {
            match find_seq(s, l + 1, end, fence()) {
                Some(k) => {
                    let language = if l > pos + 3 {
                        Some(s.subrange(pos + 3, l))
                    } else {
                        None
                    };
                    let e = if at(s, k + 3, end, '\n') {
                        k + 4
                    } else {
                        k + 3
                    };
                    Some((BlockModel::FencedCodeBlock { language, code: s.subrange(l + 1, k) }, e))
                },
                None => None,
            }
        } else {
            None
        }
    } else {
        None
    }
}

/// One to six `#`, one space, then the rest of the line as inline content.
pub open spec fn heading(s: Seq<char>, pos: int, end: int) -> Option<(BlockModel, int)> {
    let h = run_end(s, pos, end, |c| is_hash(c));
    if 1 <= h - pos <= 6 && at(s, h, end, ' ') {
        let (le, next) = line_end(s, h + 1, end);
        match inlines(s, h + 1, le) {
            Some((v, _)) => Some((BlockModel::Heading { level: (h - pos) as nat, content: v }, next)),
            None => None,
        }
    } else {
        None
    }
}

/// The lines of a quote from `pos`, each stripped of `>` and the spaces
/// after it and ended by a line break, and where the quote ends.
pub open spec fn quote_content(s: Seq<char>, pos: int, end: int) -> (Seq<char>, int)
    decreases end - pos,
{
    if at(s, pos, end, '>') {
        let q = run_end(s, pos + 1, end, |c| is_space(c));
        let (le, next) = line_end(s, q, end);
        if pos < next <= end {
            let (c, e) = quote_content(s, next, end);
            (s.subrange(q, le).push('\n') + c, e)
        } else {
            (Seq::empty(), pos)
        }
    } else {
        (Seq::empty(), pos)
    }
}

/// Lines that start with `>`: their content is parsed again as a
/// document, and the quote holds every block found there.
pub open spec fn blockquote(s: Seq<char>, pos: int, end: int) -> Option<(BlockModel, int)>
    decreases span_measure(s, pos, end), 0int,
{
    if at(s, pos, end, '>') {
        let (c, e) = quote_content(s, pos, end);
        if span_measure(c, 0, c.len() as int) < span_measure(s, pos, end) {
            let (bs, _) = document(c, 0, c.len() as int);
            if bs.len() > 0 {
                Some((BlockModel::Blockquote(bs), e))
            } else {
                None
            }
        } else {
            None
        }
    } else {
        None
    }
}

/// Where the marker of a list item that starts its text at `i` ends.
pub open spec fn marker_end(s: Seq<char>, i: int, end: int, ordered: bool) -> Option<int> {
    if ordered {
        match digits(s, i, end) {
            Some((_, d)) => if at(s, d, end, '.') {
                Some(d + 1)
            } else {
                None
            },
            None => None,
        }
    } else if at(s, i, end, '*') || at(s, i, end, '-') || at(s, i, end, '+') {
        Some(i + 1)
    } else {
        None
    }
}

/// `[x] `, `[ ] `, or no checkbox at all.
pub open spec fn checkbox(s: Seq<char>, pos: int, end: int) -> (Option<bool>, int) {
    if lit_at_spec(s, pos, end, seq!['[', 'x', ']', ' ']) {
        (Some(true), pos + 4)
    } else if lit_at_spec(s, pos, end, seq!['[', ' ', ']', ' ']) {
        (Some(false), pos + 4)
    } else {
        (None, pos)
    }
}

/// Indent, marker, one space, an optional checkbox, inline content, and a
/// line break.
pub open spec fn list_item(s: Seq<char>, pos: int, end: int, ordered: bool) -> Option<(ItemModel, int)> {
    let i = run_end(s, pos, end, |c| is_indent_char(c));
    match marker_end(s, i, end, ordered) {
        Some(m) => if at(s, m, end, ' ') {
            let (checked, c) = checkbox(s, m + 1, end);
            match inlines(s, c, end) {
                Some((v, e)) => if at(s, e, end, '\n') {
                    Some((ItemModel { indent: (i - pos) as nat, checked, content: v }, e + 1))
                } else {
                    None
                },
                None => None,
            }
        } else {
            None
        },
        None => None,
    }
}

pub open spec fn list_items(s: Seq<char>, pos: int, end: int, ordered: bool) -> (Seq<ItemModel>, int)
    decreases end - pos,
{
    match list_item(s, pos, end, ordered) {
        Some((x, p)) => if pos < p <= end {
            let (r, e) = list_items(s, p, end, ordered);
            (seq![x] + r, e)
        } else {
            (Seq::empty(), pos)
        },
        None => (Seq::empty(), pos),
    }
}

/// One or more consecutive items of one kind.
pub open spec fn list(s: Seq<char>, pos: int, end: int, ordered: bool) -> Option<(BlockModel, int)> {
    if list_item(s, pos, end, ordered) is Some {
        let (items, e) = list_items(s, pos, end, ordered);
        Some((BlockModel::List { ordered, items }, e))
    } else {
        None
    }
}

pub open spec fn paragraph(s: Seq<char>, pos: int, end: int) -> Option<(BlockModel, int)> {
    match inlines(s, pos, end) {
        Some((v, e)) => Some((BlockModel::Paragraph(v), e)),
        None => None,
    }
}

/// One block: the first alternative, in priority order, that matches.
pub open spec fn block_one(s: Seq<char>, pos: int, end: int) -> Option<(BlockModel, int)>
    decreases span_measure(s, pos, end), 1int,
{
    if horizontal_rule(s, pos, end) is Some {
        horizontal_rule(s, pos, end)
    } else if fenced_code(s, pos, end) is Some {
        fenced_code(s, pos, end)
    } else if heading(s, pos, end) is Some {
        heading(s, pos, end)
    } else if blockquote(s, pos, end) is Some {
        blockquote(s, pos, end)
    } else if list(s, pos, end, false) is Some {
        list(s, pos, end, false)
    } else if list(s, pos, end, true) is Some {
        list(s, pos, end, true)
    } else {
        paragraph(s, pos, end)
    }
}

/// Spaces and tabs, then a line break.
pub open spec fn blank_line_end(s: Seq<char>, pos: int, end: int) -> Option<int> {
    let w = run_end(s, pos, end, |c| is_indent_char(c));
    if at(s, w, end, '\n') {
        Some(w + 1)
    } else {
        None
    }
}

pub open spec fn skip_blanks(s: Seq<char>, pos: int, end: int) -> int
    decreases end - pos,
{
    match blank_line_end(s, pos, end) {
        Some(b) => if pos < b <= end {
            skip_blanks(s, b, end)
        } else {
            pos
        },
        None => pos,
    }
}

/// Blocks, each after any blank lines, for as long as one matches.
pub open spec fn document(s: Seq<char>, pos: int, end: int) -> (Seq<BlockModel>, int)
    decreases span_measure(s, pos, end), 2int,
{
    let b = skip_blanks(s, pos, end);
    if pos <= b <= end {
        match block_one(s, b, end) {
            Some((x, p)) => if pos < p <= end {
                let (r, e) = document(s, p, end);
                (seq![x] + r, e)
            } else {
                (Seq::empty(), pos)
            },
            None => (Seq::empty(), pos),
        }
    } else {
        (Seq::empty(), pos)
    }
}

} // verus!
