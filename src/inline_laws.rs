use vstd::prelude::*;
use crate::ast::InlineModel;
use crate::inline_spec::{text_unit, text_run, text, run_end, image, wikilink, link, autolink, bold, content_or_text, symbol, inline_one, inline_many, inlines};
use crate::scan::{at, find1, find2, lemma_find1_bounds};

verus! {

pub proof fn lemma_run_end_bounds(s: Seq<char>, pos: int, end: int, p: spec_fn(char) -> bool)
    requires
        0 <= pos <= end <= s.len(),
    ensures
        pos <= run_end(s, pos, end, p) <= end,
    decreases end - pos,
{
    if pos < end && p(s[pos]) {
        lemma_run_end_bounds(s, pos + 1, end, p);
    }
}

proof fn lemma_text_run_bounds(s: Seq<char>, pos: int, end: int)
    requires
        0 <= pos <= end <= s.len(),
    ensures
        pos <= text_run(s, pos, end).1 <= end,
    decreases end - pos,
{
    if let Some((c, p)) = text_unit(s, pos, end) {
        lemma_text_run_bounds(s, p, end);
    }
}

proof fn lemma_find2_bounds(s: Seq<char>, from: int, end: int, a: char, b: char)
    ensures
        find2(s, from, end, a, b) matches Some(k) ==> from <= k && k + 1 < end && s[k] == a && s[k + 1] == b,
    decreases end - from,
{
    if !(from < 0 || from + 1 >= end || end > s.len()) && !(s[from] == a && s[from + 1] == b) {
        lemma_find2_bounds(s, from + 1, end, a, b);
    }
}

/// Every inline alternative that matches consumes at least one character
/// and stays inside its span.
pub proof fn lemma_inline_one_advances(s: Seq<char>, pos: int, end: int)
    requires
        0 <= pos <= end <= s.len(),
    ensures
        inline_one(s, pos, end) matches Some((_, p)) ==> pos < p <= end,
{
    if pos + 2 <= end {
        lemma_text_run_bounds(s, pos + 2, end);
    }
    if pos + 1 <= end {
        lemma_text_run_bounds(s, pos + 1, end);
    }
    lemma_text_run_bounds(s, pos, end);
    if let Some((_, p)) = crate::inline_spec::text_context(s, pos + 2, end) {
        if p + 2 <= end {
            lemma_run_end_bounds(s, p + 2, end, |c| crate::inline_spec::not_close_paren(c));
        }
    }
    if pos + 2 <= end {
        lemma_run_end_bounds(s, pos + 2, end, |c| crate::inline_spec::is_wiki_char(c));
        let t = run_end(s, pos + 2, end, |c| crate::inline_spec::is_wiki_char(c));
        if t + 1 <= end {
            lemma_run_end_bounds(s, t + 1, end, |c| crate::inline_spec::is_wiki_char(c));
        }
    }
    lemma_find2_bounds(s, pos + 1, end, ']', '(');
    if let Some(k) = find2(s, pos + 1, end, ']', '(') {
        assert(k + 2 <= end);
        lemma_run_end_bounds(s, k + 2, end, |c| crate::inline_spec::not_close_paren(c));
    }
    if pos + 7 <= end {
        lemma_run_end_bounds(s, pos + 7, end, |c| crate::inline_spec::is_url_char(c));
    }
    if pos + 8 <= end {
        lemma_run_end_bounds(s, pos + 8, end, |c| crate::inline_spec::is_url_char(c));
    }
    lemma_find2_bounds(s, pos + 2, end, '*', '*');
    lemma_find2_bounds(s, pos + 2, end, '~', '~');
    lemma_find1_bounds(s, pos + 1, end, '*');
}

/// Progress: at any character but a line break, the inline grammar matches
/// an element that consumes at least one character, so one or more
/// elements are always found there.
pub proof fn lemma_inline_progress(s: Seq<char>, pos: int, end: int)
    requires
        0 <= pos < end <= s.len(),
        s[pos] != '\n',
    ensures
        inline_one(s, pos, end) matches Some((_, p)) && pos < p <= end,
        inlines(s, pos, end) matches Some((v, e)) && v.len() >= 1 && pos < e <= end,
{
    lemma_inline_one_advances(s, pos, end);
    assert(symbol(s, pos, end) is Some);
    lemma_inline_many_bounds(s, pos, end);
}

proof fn lemma_inline_many_bounds(s: Seq<char>, pos: int, end: int)
    requires
        0 <= pos <= end <= s.len(),
    ensures
        pos <= inline_many(s, pos, end).1 <= end,
        inline_one(s, pos, end) is Some ==> inline_many(s, pos, end).0.len() >= 1 && pos < inline_many(s, pos, end).1,
    decreases end - pos,
{
    lemma_inline_one_advances(s, pos, end);
    if let Some((x, p)) = inline_one(s, pos, end) {
        lemma_inline_many_bounds(s, p, end);
    }
}

/// An escaped character is taken literally, whatever it is.
pub proof fn lemma_escape_is_literal(c: char)
    ensures
        text(seq!['\\', c], 0, 2) == Some((InlineModel::Text(seq![c]), 2int)),
{
    let s = seq!['\\', c];
    assert(text_unit(s, 0, 2) == Some((c, 2int)));
    assert(text_unit(s, 2, 2) is None);
    assert(text_run(s, 2, 2) == (Seq::<char>::empty(), 2int));
    assert(seq![c] + Seq::<char>::empty() =~= seq![c]);
}

/// A `*` with no later `*` in its span matches no emphasis: it is kept as
/// the one-character text `*`.
pub proof fn lemma_unclosed_star_is_text(s: Seq<char>, pos: int, end: int)
    requires
        0 <= pos < end <= s.len(),
        s[pos] == '*',
        find1(s, pos + 1, end, '*') is None,
    ensures
        inline_one(s, pos, end) == Some((InlineModel::Text(seq!['*']), pos + 1)),
{
    if pos + 1 < end {
        assert(s[pos + 1] != '*');
    }
    assert(!(s.subrange(pos, pos + 8) =~= seq!['h', 't', 't', 'p', 's', ':', '/', '/']) || pos + 8 > end) by {
        if pos + 8 <= end {
            assert(s.subrange(pos, pos + 8)[0] == '*');
        }
    }
    assert(!(s.subrange(pos, pos + 7) =~= seq!['h', 't', 't', 'p', ':', '/', '/']) || pos + 7 > end) by {
        if pos + 7 <= end {
            assert(s.subrange(pos, pos + 7)[0] == '*');
        }
    }
    assert(autolink(s, pos, end) is None);
    assert(seq![s[pos]] =~= seq!['*']);
}

/// A `[` that opens no link and no wikilink is kept as the one-character
/// text `[`.
pub proof fn lemma_unclosed_bracket_is_text(s: Seq<char>, pos: int, end: int)
    requires
        0 <= pos < end <= s.len(),
        s[pos] == '[',
        find2(s, pos + 1, end, ']', '(') is None,
        wikilink(s, pos, end) is None,
    ensures
        inline_one(s, pos, end) == Some((InlineModel::Text(seq!['[']), pos + 1)),
{
    assert(!(s.subrange(pos, pos + 8) =~= seq!['h', 't', 't', 'p', 's', ':', '/', '/']) || pos + 8 > end) by {
        if pos + 8 <= end {
            assert(s.subrange(pos, pos + 8)[0] == '[');
        }
    }
    assert(!(s.subrange(pos, pos + 7) =~= seq!['h', 't', 't', 'p', ':', '/', '/']) || pos + 7 > end) by {
        if pos + 7 <= end {
            assert(s.subrange(pos, pos + 7)[0] == '[');
        }
    }
    assert(autolink(s, pos, end) is None);
    assert(seq![s[pos]] =~= seq!['[']);
}

/// A letter, digit or space: a character that no inline rule treats as
/// syntax.
pub open spec fn is_plain(c: char) -> bool {
    ('a' <= c <= 'z') || ('A' <= c <= 'Z') || ('0' <= c <= '9') || c == ' '
}

proof fn lemma_text_run_all(s: Seq<char>, pos: int, end: int)
    requires
        0 <= pos <= end <= s.len(),
        forall|j: int| pos <= j < end ==> is_plain(#[trigger] s[j]),
    ensures
        text_run(s, pos, end) == (s.subrange(pos, end), end),
    decreases end - pos,
{
    if pos < end {
        lemma_text_run_all(s, pos + 1, end);
        assert(seq![s[pos]] + s.subrange(pos + 1, end) =~= s.subrange(pos, end));
    } else {
        assert(s.subrange(pos, end) =~= Seq::<char>::empty());
    }
}

proof fn lemma_find2_at(s: Seq<char>, from: int, k: int, end: int, a: char, b: char)
    requires
        0 <= from <= k,
        k + 1 < end <= s.len(),
        s[k] == a,
        s[k + 1] == b,
        forall|j: int| from <= j < k ==> #[trigger] s[j] != a,
    ensures
        find2(s, from, end, a, b) == Some(k),
    decreases k - from,
{
    if from < k {
        lemma_find2_at(s, from + 1, k, end, a, b);
    }
}

proof fn lemma_find1_none_in(s: Seq<char>, from: int, end: int, a: char)
    requires
        0 <= from <= end <= s.len(),
        forall|j: int| from <= j < end ==> #[trigger] s[j] != a,
    ensures
        find1(s, from, end, a) is None,
    decreases end - from,
{
    if from < end {
        lemma_find1_none_in(s, from + 1, end, a);
    }
}

/// Where a span starts with a character that opens no image, link,
/// wikilink or bare URL, those four rules do not match there.
proof fn lemma_no_link_at(s: Seq<char>, pos: int, end: int)
    requires
        0 <= pos < end <= s.len(),
        s[pos] != '!' && s[pos] != '[',
        s[pos] != 'h' || forall|j: int| pos <= j < end ==> is_plain(#[trigger] s[j]),
    ensures
        image(s, pos, end) is None,
        wikilink(s, pos, end) is None,
        link(s, pos, end) is None,
        autolink(s, pos, end) is None,
{
    if pos + 8 <= end {
        assert(s.subrange(pos, pos + 8)[0] == s[pos]);
        assert(s.subrange(pos, pos + 8)[5] == s[pos + 5]);
        if s[pos] == 'h' {
            assert(is_plain(s[pos + 5]));
        }
    }
    if pos + 7 <= end {
        assert(s.subrange(pos, pos + 7)[0] == s[pos]);
        assert(s.subrange(pos, pos + 7)[4] == s[pos + 4]);
        if s[pos] == 'h' {
            assert(is_plain(s[pos + 4]));
        }
    }
}

/// `**` with no closing `**` after it is kept as literal text: each star
/// is one text element, and plain text after them is one more.
pub proof fn lemma_unterminated_strong_is_literal(t: Seq<char>)
    requires
        t.len() > 0,
        forall|j: int| 0 <= j < t.len() ==> is_plain(#[trigger] t[j]),
    ensures
        inlines(seq!['*', '*'] + t, 0, t.len() + 2int) == Some((
            seq![InlineModel::Text(seq!['*']), InlineModel::Text(seq!['*']), InlineModel::Text(t)],
            t.len() + 2int,
        )),
{
    let s = seq!['*', '*'] + t;
    let n = t.len() + 2int;
    assert forall|j: int| 2 <= j < n implies is_plain(#[trigger] s[j]) by {
        assert(s[j] == t[j - 2]);
    }
    assert forall|j: int| 2 <= j < n implies #[trigger] s[j] != '*' by {
        assert(is_plain(s[j]));
    }
    // at 0: `**` closes nowhere, and the `*` right after is no italic
    lemma_no_link_at(s, 0, n);
    lemma_find1_none_in(s, 2, n, '*');
    assert(find2(s, 2, n, '*', '*') is None) by {
        lemma_find1_bounds(s, 2, n, '*');
        lemma_find2_bounds(s, 2, n, '*', '*');
    }
    assert(find1(s, 1, n, '*') == Some(1int));
    assert(symbol(s, 0, n) == Some((InlineModel::Text(seq!['*']), 1int))) by {
        assert(seq![s[0]] =~= seq!['*']);
    }
    assert(inline_one(s, 0, n) == Some((InlineModel::Text(seq!['*']), 1int)));
    // at 1: a lone `*` with nothing to close it
    lemma_no_link_at(s, 1, n);
    assert(find1(s, 2, n, '*') is None);
    assert(symbol(s, 1, n) == Some((InlineModel::Text(seq!['*']), 2int))) by {
        assert(seq![s[1]] =~= seq!['*']);
    }
    assert(inline_one(s, 1, n) == Some((InlineModel::Text(seq!['*']), 2int)));
    // at 2: the rest is one plain text run
    assert(is_plain(s[2]));
    lemma_no_link_at(s, 2, n);
    lemma_text_run_all(s, 2, n);
    assert(s.subrange(2, n) =~= t);
    assert(inline_one(s, 2, n) == Some((InlineModel::Text(t), n)));
    assert(inline_many(s, n, n) == (Seq::<InlineModel>::empty(), n));
    assert(inline_many(s, 2, n).0 =~= seq![InlineModel::Text(t)]);
    assert(inline_many(s, 1, n).0 =~= seq![InlineModel::Text(seq!['*']), InlineModel::Text(t)]);
    assert(inline_many(s, 0, n).0 =~= seq![InlineModel::Text(seq!['*']), InlineModel::Text(seq!['*']), InlineModel::Text(t)]);
}

/// `**t**`, where `t` holds no `*`, is one strong element over the inline
/// content of `t`, never italics that share a star.
pub proof fn lemma_strong_over_italic(t: Seq<char>)
    requires
        t.len() > 0,
        forall|j: int| 0 <= j < t.len() ==> #[trigger] t[j] != '*',
    ensures
        inlines(seq!['*', '*'] + t + seq!['*', '*'], 0, t.len() + 4int) == Some((
            seq![InlineModel::Strong(content_or_text(seq!['*', '*'] + t + seq!['*', '*'], 2, t.len() + 2int))],
            t.len() + 4int,
        )),
{
    let s = seq!['*', '*'] + t + seq!['*', '*'];
    let n = t.len() + 4int;
    assert forall|j: int| 2 <= j < t.len() + 2 implies #[trigger] s[j] != '*' by {
        assert(s[j] == t[j - 2]);
    }
    lemma_no_link_at(s, 0, n);
    lemma_find2_at(s, 2, t.len() + 2int, n, '*', '*');
    assert(inline_one(s, 0, n) == bold(s, 0, n));
    assert(inline_many(s, n, n) == (Seq::<InlineModel>::empty(), n));
    lemma_inline_one_advances(s, 0, n);
    assert(inline_many(s, 0, n).0 =~= seq![InlineModel::Strong(content_or_text(s, 2, t.len() + 2int))]);
}

} // verus!
