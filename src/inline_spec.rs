use vstd::prelude::*;
use crate::ast::InlineModel;
use crate::scan::{at, find1, find2};

verus! {

/// A character that a plain text run may hold unescaped.
pub open spec fn is_text_char(c: char) -> bool {
    c != '\\' && c != '\n' && c != '*' && c != '`' && c != '~' && c != '[' && c != ']'
        && c != '(' && c != ')' && c != '!'
}

/// One unit of a text run: an escaped character, or a plain one.
pub open spec fn text_unit(s: Seq<char>, pos: int, end: int) -> Option<(char, int)> {
    if at(s, pos, end, '\\') && pos + 1 < end {
        Some((s[pos + 1], pos + 2))
    } else if 0 <= pos < end && end <= s.len() && is_text_char(s[pos]) {
        Some((s[pos], pos + 1))
    } else {
        None
    }
}

/// The longest run of text units from `pos`, and where it ends.
pub open spec fn text_run(s: Seq<char>, pos: int, end: int) -> (Seq<char>, int)
    decreases end - pos,
{
    match text_unit(s, pos, end) {
        Some((c, p)) => {
            let (r, e) = text_run(s, p, end);
            (seq![c] + r, e)
        },
        None => (Seq::empty(), pos),
    }
}

/// A non-empty text run.
pub open spec fn text_context(s: Seq<char>, pos: int, end: int) -> Option<(Seq<char>, int)> {
    if text_unit(s, pos, end) is Some {
        Some(text_run(s, pos, end))
    } else {
        None
    }
}

/// A character that a bare URL may hold.
pub open spec fn is_url_char(c: char) -> bool {
    !is_whitespace(c) && c != '<' && c != '>' && c != '(' && c != ')' && c != '[' && c != ']'
        && c != '{' && c != '}' && c != '"' && c != '\''
}

/// The Unicode `White_Space` property.
pub open spec fn is_whitespace(c: char) -> bool {
    ('\t' <= c <= '\r') || c == ' ' || c == '\u{85}' || c == '\u{a0}' || c == '\u{1680}'
        || ('\u{2000}' <= c <= '\u{200a}') || c == '\u{2028}' || c == '\u{2029}'
        || c == '\u{202f}' || c == '\u{205f}' || c == '\u{3000}'
}

/// Punctuation that is dropped from the end of a bare URL.
pub open spec fn is_trailing_punct(c: char) -> bool {
    c == '.' || c == ',' || c == ';' || c == ':' || c == '!' || c == '?'
}

/// `u` without its trailing punctuation.
pub open spec fn trim_punct(u: Seq<char>) -> Seq<char>
    decreases u.len(),
{
    if u.len() > 0 && is_trailing_punct(u.last()) {
        trim_punct(u.drop_last())
    } else {
        u
    }
}

/// The end of the longest run from `pos` of characters that satisfy `p`.
pub open spec fn run_end(s: Seq<char>, pos: int, end: int, p: spec_fn(char) -> bool) -> int
    decreases end - pos,
{
    if 0 <= pos < end && end <= s.len() && p(s[pos]) {
        run_end(s, pos + 1, end, p)
    } else {
        pos
    }
}

pub open spec fn not_close_paren(c: char) -> bool {
    c != ')'
}

pub open spec fn is_wiki_char(c: char) -> bool {
    c != '|' && c != ']' && c != '\n'
}

/// `![alt](url)`: the alt text is a text run, the URL runs up to `)`.
pub open spec fn image(s: Seq<char>, pos: int, end: int) -> Option<(InlineModel, int)> {
    if at(s, pos, end, '!') && at(s, pos + 1, end, '[') {
        match text_context(s, pos + 2, end) {
            Some((alt, p)) => {
                if at(s, p, end, ']') && at(s, p + 1, end, '(') {
                    let u = run_end(s, p + 2, end, |c| not_close_paren(c));
                    if u > p + 2 && at(s, u, end, ')') {
                        Some((InlineModel::Image { alt, url: s.subrange(p + 2, u) }, u + 1))
                    } else {
                        None
                    }
                } else {
                    None
                }
            },
            None => None,
        }
    } else {
        None
    }
}

/// `[[target]]` or `[[target|label]]`.
pub open spec fn wikilink(s: Seq<char>, pos: int, end: int) -> Option<(InlineModel, int)> {
    if at(s, pos, end, '[') && at(s, pos + 1, end, '[') {
        let t = run_end(s, pos + 2, end, |c| is_wiki_char(c));
        if t > pos + 2 {
            let target = s.subrange(pos + 2, t);
            let l = run_end(s, t + 1, end, |c| is_wiki_char(c));
            if at(s, t, end, '|') && l > t + 1 {
                if at(s, l, end, ']') && at(s, l + 1, end, ']') {
                    Some((InlineModel::Link { text: seq![InlineModel::Text(s.subrange(t + 1, l))], url: target }, l + 2))
                } else {
                    None
                }
            } else if at(s, t, end, ']') && at(s, t + 1, end, ']') {
                Some((InlineModel::Link { text: seq![InlineModel::Text(target)], url: target }, t + 2))
            } else {
                None
            }
        } else {
            None
        }
    } else {
        None
    }
}

/// `http://` or `https://` followed by a run of URL characters; the target
/// drops trailing punctuation, the displayed text keeps it.
pub open spec fn autolink(s: Seq<char>, pos: int, end: int) -> Option<(InlineModel, int)> {
    let p = if pos + 8 <= end && end <= s.len() && s.subrange(pos, pos + 8) == seq!['h', 't', 't', 'p', 's', ':', '/', '/'] {
        pos + 8
    } else if pos + 7 <= end && end <= s.len() && s.subrange(pos, pos + 7) == seq!['h', 't', 't', 'p', ':', '/', '/'] {
        pos + 7
    } else {
        pos
    };
    if p > pos {
        let e = run_end(s, p, end, |c| is_url_char(c));
        if e > p {
            let raw = s.subrange(pos, e);
            let url = s.subrange(pos, p) + trim_punct(s.subrange(p, e));
            Some((InlineModel::Link { text: seq![InlineModel::Text(raw)], url }, e))
        } else {
            None
        }
    } else {
        None
    }
}

/// `` `code` ``: a text run between backticks, with no markup inside.
pub open spec fn code(s: Seq<char>, pos: int, end: int) -> Option<(InlineModel, int)> {
    if at(s, pos, end, '`') {
        match text_context(s, pos + 1, end) {
            Some((t, p)) => if at(s, p, end, '`') {
                Some((InlineModel::Code(t), p + 1))
            } else {
                None
            },
            None => None,
        }
    } else {
        None
    }
}

/// A plain text run.
pub open spec fn text(s: Seq<char>, pos: int, end: int) -> Option<(InlineModel, int)> {
    match text_context(s, pos, end) {
        Some((t, p)) => Some((InlineModel::Text(t), p)),
        None => None,
    }
}

/// Any one character but a line break, as text.
pub open spec fn symbol(s: Seq<char>, pos: int, end: int) -> Option<(InlineModel, int)> {
    if 0 <= pos < end && end <= s.len() && s[pos] != '\n' {
        Some((InlineModel::Text(seq![s[pos]]), pos + 1))
    } else {
        None
    }
}

/// The inline content of `a..b`: its parse where that takes the whole
/// span, else the span as one literal text.
pub open spec fn content_or_text(s: Seq<char>, a: int, b: int) -> Seq<InlineModel>
    decreases b - a, 4int,
{
    if a <= b {
        match inlines(s, a, b) {
            Some((v, e)) => if e == b {
                v
            } else {
                seq![InlineModel::Text(s.subrange(a, b))]
            },
            None => seq![InlineModel::Text(s.subrange(a, b))],
        }
    } else {
        Seq::empty()
    }
}

/// `**strong**`, closed by the first following `**`.
pub open spec fn bold(s: Seq<char>, pos: int, end: int) -> Option<(InlineModel, int)>
    decreases end - pos, 0int,
{
    if at(s, pos, end, '*') && at(s, pos + 1, end, '*') {
        match find2(s, pos + 2, end, '*', '*') {
            Some(k) => if pos + 2 <= k && k + 2 <= end {
                Some((InlineModel::Strong(content_or_text(s, pos + 2, k)), k + 2))
            } else {
                None
            },
            None => None,
        }
    } else {
        None
    }
}

/// `~~struck~~`, closed by the first following `~~`.
pub open spec fn strike(s: Seq<char>, pos: int, end: int) -> Option<(InlineModel, int)>
    decreases end - pos, 0int,
{
    if at(s, pos, end, '~') && at(s, pos + 1, end, '~') {
        match find2(s, pos + 2, end, '~', '~') {
            Some(k) => if pos + 2 <= k && k + 2 <= end {
                Some((InlineModel::Strikethrough(content_or_text(s, pos + 2, k)), k + 2))
            } else {
                None
            },
            None => None,
        }
    } else {
        None
    }
}

/// `*italic*`, closed by the first following `*`, with at least one
/// character between the two.
pub open spec fn italic(s: Seq<char>, pos: int, end: int) -> Option<(InlineModel, int)>
    decreases end - pos, 0int,
{
    if at(s, pos, end, '*') {
        match find1(s, pos + 1, end, '*') {
            Some(k) => if pos + 1 < k && k + 1 <= end {
                Some((InlineModel::Italic(content_or_text(s, pos + 1, k)), k + 1))
            } else {
                None
            },
            None => None,
        }
    } else {
        None
    }
}

/// `[text](url)`: the text ends at the first following `](`.
pub open spec fn link(s: Seq<char>, pos: int, end: int) -> Option<(InlineModel, int)>
    decreases end - pos, 0int,
{
    if at(s, pos, end, '[') {
        match find2(s, pos + 1, end, ']', '(') {
            Some(k) => if pos + 1 <= k && k + 2 <= end {
                let u = run_end(s, k + 2, end, |c| not_close_paren(c));
                if u > k + 2 && at(s, u, end, ')') {
                    Some((InlineModel::Link { text: content_or_text(s, pos + 1, k), url: s.subrange(k + 2, u) }, u + 1))
                } else {
                    None
                }
            } else {
                None
            },
            None => None,
        }
    } else {
        None
    }
}

/// One inline element: the first of the alternatives, in priority order,
/// that matches at `pos`.
pub open spec fn inline_one(s: Seq<char>, pos: int, end: int) -> Option<(InlineModel, int)>
    decreases end - pos, 1int,
{
    if image(s, pos, end) is Some {
        image(s, pos, end)
    } else if wikilink(s, pos, end) is Some {
        wikilink(s, pos, end)
    } else if link(s, pos, end) is Some {
        link(s, pos, end)
    } else if autolink(s, pos, end) is Some {
        autolink(s, pos, end)
    } else if bold(s, pos, end) is Some {
        bold(s, pos, end)
    } else if strike(s, pos, end) is Some {
        strike(s, pos, end)
    } else if italic(s, pos, end) is Some {
        italic(s, pos, end)
    } else if code(s, pos, end) is Some {
        code(s, pos, end)
    } else if text(s, pos, end) is Some {
        text(s, pos, end)
    } else {
        symbol(s, pos, end)
    }
}

/// Inline elements repeated from `pos` for as long as one matches.
pub open spec fn inline_many(s: Seq<char>, pos: int, end: int) -> (Seq<InlineModel>, int)
    decreases end - pos, 2int,
{
    match inline_one(s, pos, end) {
        Some((x, p)) => if pos < p <= end {
            let (r, e) = inline_many(s, p, end);
            (seq![x] + r, e)
        } else {
            (Seq::empty(), pos)
        },
        None => (Seq::empty(), pos),
    }
}

/// One or more inline elements from `pos`.
pub open spec fn inlines(s: Seq<char>, pos: int, end: int) -> Option<(Seq<InlineModel>, int)>
    decreases end - pos, 3int,
{
    if inline_one(s, pos, end) is Some {
        Some(inline_many(s, pos, end))
    } else {
        None
    }
}

} // verus!
