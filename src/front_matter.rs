use vstd::prelude::*;
use crate::inline::whitespace;
use crate::inline_spec::is_whitespace;
use crate::scan::{find1, find_char, find_lit, find_seq, lit_at, lit_at_spec};
use crate::block_spec::line_end;
use crate::text::{chars_of, push_char, string_of};
use crate::block::append_range;

verus! {

/// Key and value pairs read from the metadata block at the start of a
/// document. Each key stands once.
#[derive(Debug, PartialEq)]
pub struct FrontMatter {
    pub entries: Vec<(String, String)>,
}

pub type Entries = Seq<(Seq<char>, Seq<char>)>;

pub open spec fn entries_view(v: Seq<(String, String)>) -> Entries {
    v.map_values(|p: (String, String)| (p.0@, p.1@))
}

impl FrontMatter {
    pub open spec fn view(&self) -> Entries {
        entries_view(self.entries@)
    }

    /// No key stands twice.
    pub open spec fn wf(&self) -> bool {
        keys_unique(self.view())
    }

    /// The value stored under `key`.
    pub fn get(&self, key: &str) -> (r: Option<&String>)
        ensures
            match r {
                Some(v) => key_index(self.view(), key@) >= 0 && v@ == self.view()[key_index(self.view(), key@)].1,
                None => key_index(self.view(), key@) < 0,
            },
    {
        let k = key.to_owned();
        match entry_index(&self.entries, &k) {
            Some(i) => Some(&self.entries[i].1),
            None => None,
        }
    }
}

pub open spec fn keys_unique(e: Entries) -> bool {
    forall|i: int, j: int| 0 <= i < j < e.len() ==> e[i].0 != e[j].0
}

/// Where `k` stands in `e`, searching from the back; `-1` where it does
/// not.
pub open spec fn key_index(e: Entries, k: Seq<char>) -> int
    decreases e.len(),
{
    if e.len() == 0 {
        -1
    } else if e.last().0 == k {
        e.len() - 1
    } else {
        key_index(e.drop_last(), k)
    }
}

/// `e` with `k` set to `v`: in place where `k` stands, else at the end.
pub open spec fn upsert(e: Entries, k: Seq<char>, v: Seq<char>) -> Entries {
    let i = key_index(e, k);
    if i >= 0 {
        e.update(i, (k, v))
    } else {
        e.push((k, v))
    }
}

/// The value under `k`, empty where there is none.
pub open spec fn value_of(e: Entries, k: Seq<char>) -> Seq<char> {
    let i = key_index(e, k);
    if i >= 0 {
        e[i].1
    } else {
        Seq::empty()
    }
}

pub open spec fn trim_start(s: Seq<char>) -> Seq<char>
    decreases s.len(),
{
    if s.len() > 0 && is_whitespace(s[0]) {
        trim_start(s.subrange(1, s.len() as int))
    } else {
        s
    }
}

pub open spec fn trim_end(s: Seq<char>) -> Seq<char>
    decreases s.len(),
{
    if s.len() > 0 && is_whitespace(s.last()) {
        trim_end(s.drop_last())
    } else {
        s
    }
}

/// `s` without leading and trailing white space.
pub open spec fn trim(s: Seq<char>) -> Seq<char> {
    trim_end(trim_start(s))
}

pub open spec fn list_separator() -> Seq<char> {
    seq![',', ' ']
}

/// The effect of one metadata line on the entries and on the key that a
/// list of `- ` lines adds to.
pub open spec fn fm_step(e: Entries, cur: Option<Seq<char>>, line: Seq<char>) -> (Entries, Option<Seq<char>>) {
    let t = trim(line);
    if t.len() >= 2 && t[0] == '-' && t[1] == ' ' {
        match cur {
            Some(k) => {
                let prev = value_of(e, k);
                let item = t.subrange(2, t.len() as int);
                let joined = if prev.len() == 0 {
                    item
                } else {
                    prev + list_separator() + item
                };
                (upsert(e, k, joined), cur)
            },
            None => (e, cur),
        }
    } else {
        match find1(t, 0, t.len() as int, ':') {
            Some(i) => {
                let key = t.subrange(0, i);
                let value = t.subrange(i + 1, t.len() as int);
                if value.len() == 0 {
                    (upsert(e, key, Seq::empty()), Some(key))
                } else {
                    (upsert(e, key, trim(value)), None)
                }
            },
            None => (e, cur),
        }
    }
}

/// The lines of `s[pos..end]`, applied in order.
pub open spec fn fm_lines(s: Seq<char>, pos: int, end: int, e: Entries, cur: Option<Seq<char>>) -> Entries
    decreases end - pos,
{
    let (le, next) = line_end(s, pos, end);
    if 0 <= pos <= le <= end <= s.len() {
        let (e2, cur2) = fm_step(e, cur, s.subrange(pos, le));
        if le < next <= end {
            fm_lines(s, next, end, e2, cur2)
        } else {
            e2
        }
    } else {
        e
    }
}

pub open spec fn delimiter() -> Seq<char> {
    seq!['-', '-', '-', '\n']
}

/// Where the metadata block ends, for input that starts with one.
pub open spec fn fm_close(c: Seq<char>) -> Option<int> {
    if lit_at_spec(c, 0, c.len() as int, delimiter()) {
        find_seq(c, 4, c.len() as int, delimiter())
    } else {
        None
    }
}

fn entry_index(entries: &Vec<(String, String)>, k: &String) -> (r: Option<usize>)
    ensures
        match r {
            Some(i) => key_index(entries_view(entries@), k@) == i as int && i < entries.len(),
            None => key_index(entries_view(entries@), k@) < 0,
        },
{
    let ghost e = entries_view(entries@);
    let mut i = entries.len();
    assert(e.subrange(0, i as int) =~= e);
    while i > 0
        invariant
            i <= entries.len(),
            e == entries_view(entries@),
            key_index(e, k@) == key_index(e.subrange(0, i as int), k@),
        decreases i,
    {
        if entries[i - 1].0 == *k {
            return Some(i - 1);
        }
        assert(e.subrange(0, i as int).drop_last() =~= e.subrange(0, i - 1));
        i = i - 1;
    }
    None
}

fn upsert_at(entries: &mut Vec<(String, String)>, k: String, v: String)
    ensures
        entries_view(final(entries)@) == upsert(entries_view(old(entries)@), k@, v@),
{
    match entry_index(entries, &k) {
        Some(i) => {
            let ghost kv = (k@, v@);
            entries.set(i, (k, v));
            assert(entries_view(entries@) =~= entries_view(old(entries)@).update(i as int, kv));
        },
        None => {
            let ghost kv = (k@, v@);
            entries.push((k, v));
            assert(entries_view(entries@) =~= entries_view(old(entries)@).push(kv));
        },
    }
}

fn copy_range(s: &Vec<char>, a: usize, b: usize) -> (r: Vec<char>)
    requires
        a <= b <= s.len(),
    ensures
        r@ == s@.subrange(a as int, b as int),
{
    let mut r: Vec<char> = Vec::new();
    append_range(&mut r, s, a, b);
    assert(Seq::<char>::empty() + s@.subrange(a as int, b as int) =~= s@.subrange(a as int, b as int));
    r
}

/// The characters of `t` without leading and trailing white space.
fn trimmed(t: &Vec<char>) -> (r: Vec<char>)
    ensures
        r@ == trim(t@),
{
    let n = t.len();
    let mut a: usize = 0;
    assert(t@.subrange(0, n as int) =~= t@);
    while a < n && whitespace(t[a])
        invariant
            a <= n == t.len(),
            trim_start(t@) == trim_start(t@.subrange(a as int, n as int)),
        decreases n - a,
    {
        assert(t@.subrange(a as int, n as int).subrange(1, n - a) =~= t@.subrange(a + 1, n as int));
        a = a + 1;
    }
    let mut b = n;
    while b > a && whitespace(t[b - 1])
        invariant
            a <= b <= n == t.len(),
            trim_start(t@) == t@.subrange(a as int, n as int),
            trim(t@) == trim_end(t@.subrange(a as int, b as int)),
        decreases b,
    {
        assert(t@.subrange(a as int, b as int).drop_last() =~= t@.subrange(a as int, b - 1));
        b = b - 1;
    }
    copy_range(t, a, b)
}

pub open spec fn opt_view(o: Option<String>) -> Option<Seq<char>> {
    match o {
        Some(s) => Some(s@),
        None => None,
    }
}

fn fm_step_at(entries: &mut Vec<(String, String)>, cur: &mut Option<String>, line: &Vec<char>)
    ensures
        fm_step(entries_view(old(entries)@), opt_view(*old(cur)), line@) == (entries_view(final(entries)@), opt_view(*final(cur))),
{
    let t = trimmed(line);
    if t.len() >= 2 && t[0] == '-' && t[1] == ' ' {
        match cur {
            Some(k) => {
                let key = k.clone();
                let prev = match entry_index(entries, &key) {
                    Some(i) => entries[i].1.clone(),
                    None => String::new(),
                };
                let mut joined = prev;
                if !joined.as_str().is_empty() {
                    push_char(&mut joined, ',');
                    push_char(&mut joined, ' ');
                    assert(joined@ =~= prev@ + list_separator());
                }
                let ghost before = joined@;
                let mut j: usize = 0;
                let item_chars = copy_range(&t, 2, t.len());
                while j < item_chars.len()
                    invariant
                        j <= item_chars.len(),
                        joined@ == before + item_chars@.subrange(0, j as int),
                    decreases item_chars.len() - j,
                {
                    push_char(&mut joined, item_chars[j]);
                    assert(item_chars@.subrange(0, j + 1) =~= item_chars@.subrange(0, j as int).push(item_chars@[j as int]));
                    j = j + 1;
                }
                assert(item_chars@.subrange(0, item_chars@.len() as int) =~= item_chars@);
                assert(before + item_chars@ =~= if prev@.len() == 0 { item_chars@ } else { prev@ + list_separator() + item_chars@ });
                upsert_at(entries, key, joined);
            },
            None => {},
        }
    } else {
        match find_char(&t, 0, t.len(), ':') {
            Some(i) => {
                proof { crate::scan::lemma_find1_bounds(t@, 0, t@.len() as int, ':'); }
                let key = string_of(&t, 0, i);
                if i + 1 == t.len() {
                    let key2 = string_of(&t, 0, i);
                    upsert_at(entries, key, String::new());
                    *cur = Some(key2);
                } else {
                    let rest = copy_range(&t, i + 1, t.len());
                    let value = trimmed(&rest);
                    let vs = string_of(&value, 0, value.len());
                    assert(value@.subrange(0, value@.len() as int) =~= value@);
                    upsert_at(entries, key, vs);
                    *cur = None;
                }
            },
            None => {},
        }
    }
}

fn fm_lines_at(s: &Vec<char>, pos: usize, end: usize) -> (r: Vec<(String, String)>)
    requires
        pos <= end <= s.len(),
    ensures
        entries_view(r@) == fm_lines(s@, pos as int, end as int, Seq::empty(), None),
{
    let mut entries: Vec<(String, String)> = Vec::new();
    let mut cur: Option<String> = None;
    let mut i = pos;
    assert(entries_view(entries@) =~= Seq::<(Seq<char>, Seq<char>)>::empty());
    loop
        invariant
            pos <= i <= end <= s.len(),
            fm_lines(s@, pos as int, end as int, Seq::empty(), None) == fm_lines(s@, i as int, end as int, entries_view(entries@), opt_view(cur)),
        decreases end - i,
    {
        let (le, next) = line_end_exec(s, i, end);
        let line = copy_range(s, i, le);
        fm_step_at(&mut entries, &mut cur, &line);
        if le < next && next <= end {
            i = next;
        } else {
            return entries;
        }
    }
}

fn line_end_exec(s: &Vec<char>, from: usize, end: usize) -> (r: (usize, usize))
    requires
        from <= end <= s.len(),
    ensures
        line_end(s@, from as int, end as int) == (r.0 as int, r.1 as int),
        from <= r.0 <= r.1 <= end,
{
    match find_char(s, from, end, '\n') {
        Some(k) => {
            proof { crate::scan::lemma_find1_bounds(s@, from as int, end as int, '\n'); }
            (k, k + 1)
        },
        None => (end, end),
    }
}

proof fn lemma_key_index(e: Entries, k: Seq<char>)
    ensures
        key_index(e, k) >= 0 ==> key_index(e, k) < e.len() && e[key_index(e, k)].0 == k,
        key_index(e, k) < 0 ==> forall|i: int| 0 <= i < e.len() ==> e[i].0 != k,
    decreases e.len(),
{
    if e.len() > 0 && e.last().0 != k {
        lemma_key_index(e.drop_last(), k);
        assert forall|i: int| 0 <= i < e.len() - 1 implies e[i] == e.drop_last()[i] by {}
    }
}

proof fn lemma_upsert_unique(e: Entries, k: Seq<char>, v: Seq<char>)
    requires
        keys_unique(e),
    ensures
        keys_unique(upsert(e, k, v)),
{
    lemma_key_index(e, k);
}

proof fn lemma_step_unique(e: Entries, cur: Option<Seq<char>>, line: Seq<char>)
    requires
        keys_unique(e),
    ensures
        keys_unique(fm_step(e, cur, line).0),
{
    let t = trim(line);
    if t.len() >= 2 && t[0] == '-' && t[1] == ' ' {
        if let Some(k) = cur {
            let prev = value_of(e, k);
            let item = t.subrange(2, t.len() as int);
            let joined = if prev.len() == 0 { item } else { prev + list_separator() + item };
            lemma_upsert_unique(e, k, joined);
        }
    } else if let Some(i) = find1(t, 0, t.len() as int, ':') {
        lemma_upsert_unique(e, t.subrange(0, i), Seq::empty());
        lemma_upsert_unique(e, t.subrange(0, i), trim(t.subrange(i + 1, t.len() as int)));
    }
}

/// Each key stands once in what the metadata lines build.
pub proof fn lemma_fm_lines_unique(s: Seq<char>, pos: int, end: int, e: Entries, cur: Option<Seq<char>>)
    requires
        keys_unique(e),
    ensures
        keys_unique(fm_lines(s, pos, end, e, cur)),
    decreases end - pos,
{
    let (le, next) = line_end(s, pos, end);
    if 0 <= pos <= le <= end <= s.len() {
        lemma_step_unique(e, cur, s.subrange(pos, le));
        let (e2, cur2) = fm_step(e, cur, s.subrange(pos, le));
        if le < next <= end {
            lemma_fm_lines_unique(s, next, end, e2, cur2);
        }
    }
}

/// Splits a leading metadata block, delimited by `---` lines, from the
/// body. Without one the whole input is the body.
pub fn parse_front_matter(content: &str) -> (r: (Option<FrontMatter>, String))
    ensures
        match fm_close(content@) {
            Some(p) => r.0 matches Some(fm) && fm.view() == fm_lines(content@, 4, p, Seq::empty(), None) && fm.wf()
                && r.1@ == content@.subrange(p + 4, content@.len() as int),
            None => r.0 is None && r.1@ == content@,
        },
{
    let s = chars_of(content);
    let delim = vec!['-', '-', '-', '\n'];
    assert(delim@ == delimiter());
    if lit_at(&s, 0, s.len(), &delim) {
        match find_lit(&s, 4, s.len(), &delim) {
            Some(p) => {
                proof { crate::scan::lemma_find_seq_bounds(s@, 4, s@.len() as int, delimiter()); }
                let entries = fm_lines_at(&s, 4, p);
                proof { lemma_fm_lines_unique(s@, 4, p as int, Seq::empty(), None); }
                return (Some(FrontMatter { entries }), string_of(&s, p + 4, s.len()));
            },
            None => {},
        }
    }
    (None, content.to_owned())
}

} // verus!
