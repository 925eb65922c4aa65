use vstd::prelude::*;

verus! {

/// `s[i] == c`, with `i` inside `0..end`.
pub open spec fn at(s: Seq<char>, i: int, end: int, c: char) -> bool {
    0 <= i < end && i < s.len() && s[i] == c
}

/// The first `k` in `from..end` where `a` is followed by `b`.
pub open spec fn find2(s: Seq<char>, from: int, end: int, a: char, b: char) -> Option<int>
    decreases end - from,
{
    if from < 0 || from + 1 >= end || end > s.len() {
        None
    } else if s[from] == a && s[from + 1] == b {
        Some(from)
    } else {
        find2(s, from + 1, end, a, b)
    }
}

/// The first `k` in `from..end` with `s[k] == a`.
pub open spec fn find1(s: Seq<char>, from: int, end: int, a: char) -> Option<int>
    decreases end - from,
{
    if from < 0 || from >= end || end > s.len() {
        None
    } else if s[from] == a {
        Some(from)
    } else {
        find1(s, from + 1, end, a)
    }
}

pub fn find_pair(s: &Vec<char>, from: usize, end: usize, a: char, b: char) -> (r: Option<usize>)
    requires
        from <= end <= s.len(),
    ensures
        match r {
            Some(k) => find2(s@, from as int, end as int, a, b) == Some(k as int),
            None => find2(s@, from as int, end as int, a, b) is None,
        },
{
    let mut i = from;
    while i < end && i + 1 < end
        invariant
            from <= i <= end <= s.len(),
            find2(s@, from as int, end as int, a, b) == find2(s@, i as int, end as int, a, b),
        decreases end - i,
    {
        if s[i] == a && s[i + 1] == b {
            return Some(i);
        }
        i = i + 1;
    }
    None
}

pub fn find_char(s: &Vec<char>, from: usize, end: usize, a: char) -> (r: Option<usize>)
    requires
        from <= end <= s.len(),
    ensures
        match r {
            Some(k) => find1(s@, from as int, end as int, a) == Some(k as int),
            None => find1(s@, from as int, end as int, a) is None,
        },
{
    let mut i = from;
    while i < end
        invariant
            from <= i <= end <= s.len(),
            find1(s@, from as int, end as int, a) == find1(s@, i as int, end as int, a),
        decreases end - i,
    {
        if s[i] == a {
            return Some(i);
        }
        i = i + 1;
    }
    None
}

/// Whether `t` stands in `s` at `i`, inside `0..end`.
pub open spec fn lit_at_spec(s: Seq<char>, i: int, end: int, t: Seq<char>) -> bool {
    0 <= i && i + t.len() <= end && end <= s.len() && s.subrange(i, i + t.len()) == t
}

/// The first `k` in `from..end` where `t` stands.
pub open spec fn find_seq(s: Seq<char>, from: int, end: int, t: Seq<char>) -> Option<int>
    decreases end - from + 1,
{
    if from < 0 || from + t.len() > end || end > s.len() {
        None
    } else if s.subrange(from, from + t.len()) == t {
        Some(from)
    } else {
        find_seq(s, from + 1, end, t)
    }
}

/// Whether `lit` stands in `s` at `pos`, before `end`.
pub fn lit_at(s: &Vec<char>, pos: usize, end: usize, lit: &Vec<char>) -> (r: bool)
    requires
        end <= s.len(),
    ensures
        r == lit_at_spec(s@, pos as int, end as int, lit@),
{
    if pos > end || lit.len() > end - pos {
        return false;
    }
    let mut i: usize = 0;
    while i < lit.len()
        invariant
            pos + lit@.len() <= end <= s.len(),
            i <= lit@.len(),
            forall|j: int| 0 <= j < i ==> s@[pos + j] == lit@[j],
        decreases lit.len() - i,
    {
        if s[pos + i] != lit[i] {
            assert(s@.subrange(pos as int, pos + lit@.len())[i as int] != lit@[i as int]);
            return false;
        }
        i = i + 1;
    }
    assert(s@.subrange(pos as int, pos + lit@.len()) =~= lit@);
    true
}

pub fn find_lit(s: &Vec<char>, from: usize, end: usize, t: &Vec<char>) -> (r: Option<usize>)
    requires
        from <= end <= s.len(),
        t@.len() > 0,
    ensures
        match r {
            Some(k) => find_seq(s@, from as int, end as int, t@) == Some(k as int) && k + t@.len() <= end,
            None => find_seq(s@, from as int, end as int, t@) is None,
        },
{
    let mut i = from;
    while i < end && t.len() <= end - i
        invariant
            from <= i <= end,
            t@.len() > 0,
            end <= s.len(),
            find_seq(s@, from as int, end as int, t@) == find_seq(s@, i as int, end as int, t@),
        decreases end - i,
    {
        if lit_at(s, i, end, t) {
            return Some(i);
        }
        i = i + 1;
    }
    None
}

pub proof fn lemma_find1_bounds(s: Seq<char>, from: int, end: int, a: char)
    ensures
        find1(s, from, end, a) matches Some(k) ==> from <= k < end && s[k] == a,
    decreases end - from,
{
    if !(from < 0 || from >= end || end > s.len()) && s[from] != a {
        lemma_find1_bounds(s, from + 1, end, a);
    }
}

pub proof fn lemma_find_seq_bounds(s: Seq<char>, from: int, end: int, t: Seq<char>)
    ensures
        find_seq(s, from, end, t) matches Some(k) ==> from <= k && k + t.len() <= end,
    decreases end - from + 1,
{
    if !(from < 0 || from + t.len() > end || end > s.len()) && s.subrange(from, from + t.len()) != t {
        lemma_find_seq_bounds(s, from + 1, end, t);
    }
}

} // verus!
