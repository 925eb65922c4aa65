use vstd::prelude::*;
use crate::ast::{Inline, InlineModel, inline_view, inlines_view, inline_result, single};
use crate::inline_spec::{is_text_char, is_whitespace, is_url_char, is_wiki_char, not_close_paren, text_unit, text_run, text_context, run_end, trim_punct, is_trailing_punct, image, wikilink, autolink, code, text, symbol, content_or_text, bold, strike, italic, link, inline_one, inline_many, inlines};
use crate::scan::{at, find_char, find_pair, lit_at};
use crate::text::{chars_of, string_of};

verus! {

pub fn text_char(c: char) -> (r: bool)
    ensures
        r == is_text_char(c),
{
    c != '\\' && c != '\n' && c != '*' && c != '`' && c != '~' && c != '[' && c != ']'
        && c != '(' && c != ')' && c != '!'
}

pub fn whitespace(c: char) -> (r: bool)
    ensures
        r == is_whitespace(c),
{
    ('\t' <= c && c <= '\r') || c == ' ' || c == '\u{85}' || c == '\u{a0}' || c == '\u{1680}'
        || ('\u{2000}' <= c && c <= '\u{200a}') || c == '\u{2028}' || c == '\u{2029}'
        || c == '\u{202f}' || c == '\u{205f}' || c == '\u{3000}'
}

fn url_char(c: char) -> (r: bool)
    ensures
        r == is_url_char(c),
{
    !whitespace(c) && c != '<' && c != '>' && c != '(' && c != ')' && c != '[' && c != ']'
        && c != '{' && c != '}' && c != '"' && c != '\''
}

fn wiki_char(c: char) -> (r: bool)
    ensures
        r == is_wiki_char(c),
{
    c != '|' && c != ']' && c != '\n'
}

fn close_paren_free(c: char) -> (r: bool)
    ensures
        r == not_close_paren(c),
{
    c != ')'
}

/// `s[i] == c`, with `i` inside `0..end`.
pub fn char_at(s: &Vec<char>, i: usize, end: usize, c: char) -> (r: bool)
    requires
        end <= s.len(),
    ensures
        r == at(s@, i as int, end as int, c),
{
    i < end && s[i] == c
}

/// The end of the longest run from `pos` of characters that `f` accepts.
pub(crate) fn run_end_at<F: Fn(char) -> bool>(s: &Vec<char>, pos: usize, end: usize, f: F, Ghost(p): Ghost<spec_fn(char) -> bool>) -> (r: usize)
    requires
        pos <= end <= s.len(),
        forall|c: char| f.requires((c,)),
        forall|c: char, b: bool| f.ensures((c,), b) ==> b == p(c),
    ensures
        r as int == run_end(s@, pos as int, end as int, p),
        pos <= r <= end,
{
    let mut i = pos;
    while i < end && f(s[i])
        invariant
            pos <= i <= end <= s.len(),
            forall|c: char| f.requires((c,)),
            forall|c: char, b: bool| f.ensures((c,), b) ==> b == p(c),
            run_end(s@, pos as int, end as int, p) == run_end(s@, i as int, end as int, p),
        decreases end - i,
    {
        i = i + 1;
    }
    i
}

pub fn text_unit_at(s: &Vec<char>, pos: usize, end: usize) -> (r: Option<(char, usize)>)
    requires
        pos <= end <= s.len(),
    ensures
        match r {
            Some((c, p)) => text_unit(s@, pos as int, end as int) == Some((c, p as int)),
            None => text_unit(s@, pos as int, end as int) is None,
        },
{
    if char_at(s, pos, end, '\\') && pos + 1 < end {
        Some((s[pos + 1], pos + 2))
    } else if pos < end && text_char(s[pos]) {
        Some((s[pos], pos + 1))
    } else {
        None
    }
}

/// The longest text run from `pos`: its characters, and where it ends.
pub fn text_run_at(s: &Vec<char>, pos: usize, end: usize) -> (r: (Vec<char>, usize))
    requires
        pos <= end <= s.len(),
    ensures
        text_run(s@, pos as int, end as int) == (r.0@, r.1 as int),
        pos <= r.1 <= end,
{
    let mut acc: Vec<char> = Vec::new();
    let mut i = pos;
    loop
        invariant
            pos <= i <= end <= s.len(),
            text_run(s@, pos as int, end as int) == (acc@ + text_run(s@, i as int, end as int).0, text_run(s@, i as int, end as int).1),
        decreases end - i,
    {
        match text_unit_at(s, i, end) {
            Some((c, p)) => {
                proof {
                    let (r, e) = text_run(s@, p as int, end as int);
                    assert(acc@ + (seq![c] + r) =~= acc@.push(c) + r);
                }
                acc.push(c);
                i = p;
            },
            None => {
                assert(acc@ + Seq::<char>::empty() =~= acc@);
                return (acc, i);
            },
        }
    }
}

pub fn text_context_at(s: &Vec<char>, pos: usize, end: usize) -> (r: Option<(Vec<char>, usize)>)
    requires
        pos <= end <= s.len(),
    ensures
        match r {
            Some((t, p)) => text_context(s@, pos as int, end as int) == Some((t@, p as int)) && p <= end,
            None => text_context(s@, pos as int, end as int) is None,
        },
{
    if text_unit_at(s, pos, end).is_some() {
        Some(text_run_at(s, pos, end))
    } else {
        None
    }
}

fn chars_to_string(v: &Vec<char>) -> (r: String)
    ensures
        r@ == v@,
{
    let r = string_of(v, 0, v.len());
    assert(v@.subrange(0, v@.len() as int) =~= v@);
    r
}

pub fn image_at(s: &Vec<char>, pos: usize, end: usize) -> (r: Option<(Inline, usize)>)
    requires
        pos <= end <= s.len(),
    ensures
        inline_result(r, image(s@, pos as int, end as int), end),
{
    if char_at(s, pos, end, '!') && char_at(s, pos + 1, end, '[') {
        match text_context_at(s, pos + 2, end) {
            Some((alt, p)) => {
                if char_at(s, p, end, ']') && char_at(s, p + 1, end, '(') {
                    let u = run_end_at(s, p + 2, end, |c: char| -> (b: bool) ensures b == not_close_paren(c) { close_paren_free(c) }, Ghost(|c| not_close_paren(c)));
                    if u > p + 2 && char_at(s, u, end, ')') {
                        let alt_s = chars_to_string(&alt);
                        let url = string_of(s, p + 2, u);
                        Some((Inline::Image { alt: alt_s, url }, u + 1))
                    } else {
                        None
                    }
                } else {
                    None
                }
            },
            None => None,
        }
    } else {
        None
    }
}

pub fn wikilink_at(s: &Vec<char>, pos: usize, end: usize) -> (r: Option<(Inline, usize)>)
    requires
        pos <= end <= s.len(),
    ensures
        inline_result(r, wikilink(s@, pos as int, end as int), end),
{
    if char_at(s, pos, end, '[') && char_at(s, pos + 1, end, '[') {
        let t = run_end_at(s, pos + 2, end, |c: char| -> (b: bool) ensures b == is_wiki_char(c) { wiki_char(c) }, Ghost(|c| is_wiki_char(c)));
        if t > pos + 2 {
            let is_pipe = char_at(s, t, end, '|');
            if is_pipe {
                let l = run_end_at(s, t + 1, end, |c: char| -> (b: bool) ensures b == is_wiki_char(c) { wiki_char(c) }, Ghost(|c| is_wiki_char(c)));
                if l > t + 1 {
                    if char_at(s, l, end, ']') && char_at(s, l + 1, end, ']') {
                        let label = string_of(s, t + 1, l);
                        let target = string_of(s, pos + 2, t);
                        return Some((Inline::Link { text: single(Inline::Text(label)), url: target }, l + 2));
                    } else {
                        return None;
                    }
                }
            }
            if char_at(s, t, end, ']') && char_at(s, t + 1, end, ']') {
                let label = string_of(s, pos + 2, t);
                let target = string_of(s, pos + 2, t);
                Some((Inline::Link { text: single(Inline::Text(label)), url: target }, t + 2))
            } else {
                None
            }
        } else {
            None
        }
    } else {
        None
    }
}

pub fn autolink_at(s: &Vec<char>, pos: usize, end: usize) -> (r: Option<(Inline, usize)>)
    requires
        pos <= end <= s.len(),
    ensures
        inline_result(r, autolink(s@, pos as int, end as int), end),
{
    let https = vec!['h', 't', 't', 'p', 's', ':', '/', '/'];
    let http = vec!['h', 't', 't', 'p', ':', '/', '/'];
    let p = if lit_at(s, pos, end, &https) {
        pos + 8
    } else if lit_at(s, pos, end, &http) {
        pos + 7
    } else {
        pos
    };
    if p > pos {
        let e = run_end_at(s, p, end, |c: char| -> (b: bool) ensures b == is_url_char(c) { url_char(c) }, Ghost(|c| is_url_char(c)));
        if e > p {
            let mut k = e;
            while k > p && is_punct(s[k - 1])
                invariant
                    pos < p <= k <= e <= end <= s.len(),
                    trim_punct(s@.subrange(p as int, e as int)) == trim_punct(s@.subrange(p as int, k as int)),
                decreases k,
            {
                assert(s@.subrange(p as int, k as int).drop_last() =~= s@.subrange(p as int, k - 1));
                k = k - 1;
            }
            assert(s@.subrange(pos as int, p as int) + s@.subrange(p as int, k as int) =~= s@.subrange(pos as int, k as int));
            let raw = string_of(s, pos, e);
            let url = string_of(s, pos, k);
            Some((Inline::Link { text: single(Inline::Text(raw)), url }, e))
        } else {
            None
        }
    } else {
        None
    }
}

fn is_punct(c: char) -> (r: bool)
    ensures
        r == is_trailing_punct(c),
{
    c == '.' || c == ',' || c == ';' || c == ':' || c == '!' || c == '?'
}

pub fn code_at(s: &Vec<char>, pos: usize, end: usize) -> (r: Option<(Inline, usize)>)
    requires
        pos <= end <= s.len(),
    ensures
        inline_result(r, code(s@, pos as int, end as int), end),
{
    if char_at(s, pos, end, '`') {
        match text_context_at(s, pos + 1, end) {
            Some((t, p)) => if char_at(s, p, end, '`') {
                Some((Inline::Code(chars_to_string(&t)), p + 1))
            } else {
                None
            },
            None => None,
        }
    } else {
        None
    }
}

pub fn text_at(s: &Vec<char>, pos: usize, end: usize) -> (r: Option<(Inline, usize)>)
    requires
        pos <= end <= s.len(),
    ensures
        inline_result(r, text(s@, pos as int, end as int), end),
{
    match text_context_at(s, pos, end) {
        Some((t, p)) => Some((Inline::Text(chars_to_string(&t)), p)),
        None => None,
    }
}

pub fn symbol_at(s: &Vec<char>, pos: usize, end: usize) -> (r: Option<(Inline, usize)>)
    requires
        pos <= end <= s.len(),
    ensures
        inline_result(r, symbol(s@, pos as int, end as int), end),
{
    if pos < end && s[pos] != '\n' {
        let t = string_of(s, pos, pos + 1);
        assert(s@.subrange(pos as int, pos + 1) =~= seq![s@[pos as int]]);
        Some((Inline::Text(t), pos + 1))
    } else {
        None
    }
}

fn content_or_text_at(s: &Vec<char>, a: usize, b: usize) -> (r: Vec<Inline>)
    requires
        a <= b <= s.len(),
    ensures
        inlines_view(r@) == content_or_text(s@, a as int, b as int),
    decreases b - a, 4int,
{
    match inlines_at(s, a, b) {
        Some((v, e)) => if e == b {
            v
        } else {
            single(Inline::Text(string_of(s, a, b)))
        },
        None => single(Inline::Text(string_of(s, a, b))),
    }
}

pub fn bold_at(s: &Vec<char>, pos: usize, end: usize) -> (r: Option<(Inline, usize)>)
    requires
        pos <= end <= s.len(),
    ensures
        inline_result(r, bold(s@, pos as int, end as int), end),
    decreases end - pos, 0int,
{
    if char_at(s, pos, end, '*') && char_at(s, pos + 1, end, '*') {
        match find_pair(s, pos + 2, end, '*', '*') {
            Some(k) => if pos + 2 <= k && k <= end && end - k >= 2 {
                Some((Inline::Strong(content_or_text_at(s, pos + 2, k)), k + 2))
            } else {
                None
            },
            None => None,
        }
    } else {
        None
    }
}

pub fn strike_at(s: &Vec<char>, pos: usize, end: usize) -> (r: Option<(Inline, usize)>)
    requires
        pos <= end <= s.len(),
    ensures
        inline_result(r, strike(s@, pos as int, end as int), end),
    decreases end - pos, 0int,
{
    if char_at(s, pos, end, '~') && char_at(s, pos + 1, end, '~') {
        match find_pair(s, pos + 2, end, '~', '~') {
            Some(k) => if pos + 2 <= k && k <= end && end - k >= 2 {
                Some((Inline::Strikethrough(content_or_text_at(s, pos + 2, k)), k + 2))
            } else {
                None
            },
            None => None,
        }
    } else {
        None
    }
}

pub fn italic_at(s: &Vec<char>, pos: usize, end: usize) -> (r: Option<(Inline, usize)>)
    requires
        pos <= end <= s.len(),
    ensures
        inline_result(r, italic(s@, pos as int, end as int), end),
    decreases end - pos, 0int,
{
    if char_at(s, pos, end, '*') {
        match find_char(s, pos + 1, end, '*') {
            Some(k) => if pos + 1 < k && k < end {
                Some((Inline::Italic(content_or_text_at(s, pos + 1, k)), k + 1))
            } else {
                None
            },
            None => None,
        }
    } else {
        None
    }
}

pub fn link_at(s: &Vec<char>, pos: usize, end: usize) -> (r: Option<(Inline, usize)>)
    requires
        pos <= end <= s.len(),
    ensures
        inline_result(r, link(s@, pos as int, end as int), end),
    decreases end - pos, 0int,
{
    if char_at(s, pos, end, '[') {
        match find_pair(s, pos + 1, end, ']', '(') {
            Some(k) => if pos + 1 <= k && k <= end && end - k >= 2 {
                let u = run_end_at(s, k + 2, end, |c: char| -> (b: bool) ensures b == not_close_paren(c) { close_paren_free(c) }, Ghost(|c| not_close_paren(c)));
                if u > k + 2 && char_at(s, u, end, ')') {
                    let text = content_or_text_at(s, pos + 1, k);
                    Some((Inline::Link { text, url: string_of(s, k + 2, u) }, u + 1))
                } else {
                    None
                }
            } else {
                None
            },
            None => None,
        }
    } else {
        None
    }
}

/// One inline element at `pos`: the first alternative, in priority order,
/// that matches.
pub fn inline_one_at(s: &Vec<char>, pos: usize, end: usize) -> (r: Option<(Inline, usize)>)
    requires
        pos <= end <= s.len(),
    ensures
        inline_result(r, inline_one(s@, pos as int, end as int), end),
    decreases end - pos, 1int,
{
    let r = image_at(s, pos, end);
    if r.is_some() {
        return r;
    }
    let r = wikilink_at(s, pos, end);
    if r.is_some() {
        return r;
    }
    let r = link_at(s, pos, end);
    if r.is_some() {
        return r;
    }
    let r = autolink_at(s, pos, end);
    if r.is_some() {
        return r;
    }
    let r = bold_at(s, pos, end);
    if r.is_some() {
        return r;
    }
    let r = strike_at(s, pos, end);
    if r.is_some() {
        return r;
    }
    let r = italic_at(s, pos, end);
    if r.is_some() {
        return r;
    }
    let r = code_at(s, pos, end);
    if r.is_some() {
        return r;
    }
    let r = text_at(s, pos, end);
    if r.is_some() {
        return r;
    }
    symbol_at(s, pos, end)
}

/// One or more inline elements from `pos`, for as long as one matches.
pub fn inlines_at(s: &Vec<char>, pos: usize, end: usize) -> (r: Option<(Vec<Inline>, usize)>)
    requires
        pos <= end <= s.len(),
    ensures
        crate::ast::inlines_result(r, inlines(s@, pos as int, end as int)),
        match r {
            Some((_, e)) => pos <= e <= end,
            None => true,
        },
    decreases end - pos, 3int,
{
    let mut acc: Vec<Inline> = Vec::new();
    let mut i = pos;
    let first = inline_one_at(s, pos, end);
    if first.is_none() {
        return None;
    }
    assert(inlines_view(acc@) =~= Seq::<InlineModel>::empty());
    assert(inline_many(s@, pos as int, end as int).0 =~= Seq::<InlineModel>::empty() + inline_many(s@, pos as int, end as int).0);
    loop
        invariant
            pos <= i <= end <= s.len(),
            inline_one(s@, pos as int, end as int) is Some,
            inline_many(s@, pos as int, end as int) == (inlines_view(acc@) + inline_many(s@, i as int, end as int).0, inline_many(s@, i as int, end as int).1),
        decreases end - i,
    {
        match inline_one_at(s, i, end) {
            Some((x, p)) => {
                if i < p && p <= end {
                    proof {
                        let (r, e) = inline_many(s@, p as int, end as int);
                        crate::ast::lemma_inlines_view_push(acc@, x);
                        assert(inlines_view(acc@) + (seq![inline_view(x)] + r) =~= inlines_view(acc@).push(inline_view(x)) + r);
                    }
                    acc.push(x);
                    i = p;
                } else {
                    assert(inlines_view(acc@) + Seq::<InlineModel>::empty() =~= inlines_view(acc@));
                    return Some((acc, i));
                }
            },
            None => {
                assert(inline_one(s@, i as int, end as int) is None);
                assert(inline_many(s@, i as int, end as int) == (Seq::<InlineModel>::empty(), i as int));
                assert(inlines_view(acc@) + Seq::<InlineModel>::empty() =~= inlines_view(acc@));
                assert(inline_one(s@, pos as int, end as int) is Some);
                return Some((acc, i));
            },
        }
    }
}

/// How a parse of a whole string stands to its model: the element, and
/// the input that is left.
pub open spec fn inline_parsed(r: Option<(Inline, String)>, s: Seq<char>, m: Option<(InlineModel, int)>) -> bool {
    match r {
        Some((i, rest)) => m matches Some((mi, e)) && inline_view(i) == mi && rest@ == s.subrange(e, s.len() as int),
        None => m is None,
    }
}

pub open spec fn inlines_parsed(r: Option<(Vec<Inline>, String)>, s: Seq<char>, m: Option<(Seq<InlineModel>, int)>) -> bool {
    match r {
        Some((v, rest)) => m matches Some((mv, e)) && inlines_view(v@) == mv && rest@ == s.subrange(e, s.len() as int),
        None => m is None,
    }
}

fn finish_inline(s: &Vec<char>, r: Option<(Inline, usize)>, Ghost(m): Ghost<Option<(InlineModel, int)>>) -> (o: Option<(Inline, String)>)
    requires
        inline_result(r, m, s.len()),
    ensures
        inline_parsed(o, s@, m),
{
    match r {
        Some((i, e)) => Some((i, string_of(s, e, s.len()))),
        None => None,
    }
}

/// A plain text run: escapes are resolved, syntax symbols end the run.
pub fn parse_text_inline(input: &str) -> (r: Option<(Inline, String)>)
    ensures
        inline_parsed(r, input@, text(input@, 0, input@.len() as int)),
{
    let s = chars_of(input);
    finish_inline(&s, text_at(&s, 0, s.len()), Ghost(text(s@, 0, s@.len() as int)))
}

/// `**strong**`.
pub fn parse_bold_inline(input: &str) -> (r: Option<(Inline, String)>)
    ensures
        inline_parsed(r, input@, bold(input@, 0, input@.len() as int)),
{
    let s = chars_of(input);
    finish_inline(&s, bold_at(&s, 0, s.len()), Ghost(bold(s@, 0, s@.len() as int)))
}

/// `~~struck~~`.
pub fn parse_strikethru_inline(input: &str) -> (r: Option<(Inline, String)>)
    ensures
        inline_parsed(r, input@, strike(input@, 0, input@.len() as int)),
{
    let s = chars_of(input);
    finish_inline(&s, strike_at(&s, 0, s.len()), Ghost(strike(s@, 0, s@.len() as int)))
}

/// `*italic*`.
pub fn parse_italic_inline(input: &str) -> (r: Option<(Inline, String)>)
    ensures
        inline_parsed(r, input@, italic(input@, 0, input@.len() as int)),
{
    let s = chars_of(input);
    finish_inline(&s, italic_at(&s, 0, s.len()), Ghost(italic(s@, 0, s@.len() as int)))
}

/// `` `code` ``.
pub fn parse_code_inline(input: &str) -> (r: Option<(Inline, String)>)
    ensures
        inline_parsed(r, input@, code(input@, 0, input@.len() as int)),
{
    let s = chars_of(input);
    finish_inline(&s, code_at(&s, 0, s.len()), Ghost(code(s@, 0, s@.len() as int)))
}

/// `![alt](url)`.
pub fn parse_image_inline(input: &str) -> (r: Option<(Inline, String)>)
    ensures
        inline_parsed(r, input@, image(input@, 0, input@.len() as int)),
{
    let s = chars_of(input);
    finish_inline(&s, image_at(&s, 0, s.len()), Ghost(image(s@, 0, s@.len() as int)))
}

/// `[text](url)`.
pub fn parse_link_inline(input: &str) -> (r: Option<(Inline, String)>)
    ensures
        inline_parsed(r, input@, link(input@, 0, input@.len() as int)),
{
    let s = chars_of(input);
    finish_inline(&s, link_at(&s, 0, s.len()), Ghost(link(s@, 0, s@.len() as int)))
}

/// A bare `http://` or `https://` URL.
pub fn parse_autolink_inline(input: &str) -> (r: Option<(Inline, String)>)
    ensures
        inline_parsed(r, input@, autolink(input@, 0, input@.len() as int)),
{
    let s = chars_of(input);
    finish_inline(&s, autolink_at(&s, 0, s.len()), Ghost(autolink(s@, 0, s@.len() as int)))
}

/// `[[target]]` or `[[target|label]]`.
pub fn parse_wikilink_inline(input: &str) -> (r: Option<(Inline, String)>)
    ensures
        inline_parsed(r, input@, wikilink(input@, 0, input@.len() as int)),
{
    let s = chars_of(input);
    finish_inline(&s, wikilink_at(&s, 0, s.len()), Ghost(wikilink(s@, 0, s@.len() as int)))
}

/// Any one character but a line break, as text.
pub fn parse_symbol_as_text(input: &str) -> (r: Option<(Inline, String)>)
    ensures
        inline_parsed(r, input@, symbol(input@, 0, input@.len() as int)),
{
    let s = chars_of(input);
    finish_inline(&s, symbol_at(&s, 0, s.len()), Ghost(symbol(s@, 0, s@.len() as int)))
}

/// A non-empty text run, as its characters.
pub fn parse_text_context(input: &str) -> (r: Option<(Vec<char>, String)>)
    ensures
        match r {
            Some((t, rest)) => text_context(input@, 0, input@.len() as int) matches Some((m, e))
                && t@ == m && rest@ == input@.subrange(e, input@.len() as int),
            None => text_context(input@, 0, input@.len() as int) is None,
        },
{
    let s = chars_of(input);
    match text_context_at(&s, 0, s.len()) {
        Some((t, e)) => Some((t, string_of(&s, e, s.len()))),
        None => None,
    }
}

/// One or more inline elements, each the first alternative that matches:
/// image, wikilink, link, autolink, strong, strikethrough, italic, code,
/// text, any one symbol.
pub fn parse_inlines(input: &str) -> (r: Option<(Vec<Inline>, String)>)
    ensures
        inlines_parsed(r, input@, inlines(input@, 0, input@.len() as int)),
{
    let s = chars_of(input);
    match inlines_at(&s, 0, s.len()) {
        Some((v, e)) => Some((v, string_of(&s, e, s.len()))),
        None => None,
    }
}

} // verus!
