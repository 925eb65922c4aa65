use vstd::prelude::*;
use crate::block_spec::{is_space, line_end, quote_content, span_measure};
use crate::inline_spec::run_end;
use crate::inline_laws::lemma_run_end_bounds;
use crate::scan::{at, find1, lemma_find1_bounds};

verus! {

proof fn lemma_find1_none(s: Seq<char>, from: int, end: int, a: char)
    requires
        0 <= from <= end <= s.len(),
        find1(s, from, end, a) is None,
    ensures
        forall|j: int| from <= j < end ==> s[j] != a,
    decreases end - from,
{
    if from < end {
        lemma_find1_none(s, from + 1, end, a);
    }
}

/// The text that a quote hands to the block grammar is never longer than
/// the lines it came from, and it ends in a line break.
proof fn lemma_quote_content_len(s: Seq<char>, pos: int, end: int)
    requires
        0 <= pos <= end <= s.len(),
    ensures
        quote_content(s, pos, end).0.len() <= quote_content(s, pos, end).1 - pos,
        pos <= quote_content(s, pos, end).1 <= end,
        quote_content(s, pos, end).0.len() > 0 ==> quote_content(s, pos, end).0.last() == '\n',
        quote_content(s, pos, end).0.len() == quote_content(s, pos, end).1 - pos
            && quote_content(s, pos, end).0.len() > 0 ==> quote_content(s, pos, end).1 == end && s[end - 1] != '\n',
    decreases end - pos,
{
    if at(s, pos, end, '>') {
        let q = run_end(s, pos + 1, end, |c| is_space(c));
        lemma_run_end_bounds(s, pos + 1, end, |c| is_space(c));
        let (le, next) = line_end(s, q, end);
        lemma_find1_bounds(s, q, end, '\n');
        if pos < next <= end {
            lemma_quote_content_len(s, next, end);
            let (c, e) = quote_content(s, next, end);
            let line = s.subrange(q, le).push('\n');
            assert(quote_content(s, pos, end).0 == line + c);
            if c.len() > 0 {
                assert((line + c).last() == c.last());
            }
            if find1(s, q, end, '\n') is None {
                lemma_find1_none(s, q, end, '\n');
                assert(c.len() == 0);
                if q < end {
                    assert(s[end - 1] != '\n');
                } else if end - pos == 1 {
                    assert(s[end - 1] == '>');
                }
            }
        }
    }
}

/// The nested parse of a quote always runs on a smaller measure than the
/// quote itself, so the measure test in `blockquote` never refuses one.
pub proof fn lemma_quote_measure_shrinks(s: Seq<char>, pos: int, end: int)
    requires
        0 <= pos <= end <= s.len(),
        at(s, pos, end, '>'),
    ensures
        quote_content(s, pos, end).0.len() > 0,
        span_measure(quote_content(s, pos, end).0, 0, quote_content(s, pos, end).0.len() as int) < span_measure(s, pos, end),
{
    lemma_quote_content_len(s, pos, end);
    let q = run_end(s, pos + 1, end, |c| is_space(c));
    lemma_run_end_bounds(s, pos + 1, end, |c| is_space(c));
    lemma_find1_bounds(s, q, end, '\n');
    let (le, next) = line_end(s, q, end);
    assert(pos < next <= end);
    let (c, e) = quote_content(s, next, end);
    assert(quote_content(s, pos, end).0 == s.subrange(q, le).push('\n') + c);
}

} // verus!
