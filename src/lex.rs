use vstd::prelude::*;
use crate::inline_spec::run_end;
use crate::scan::lit_at_spec;
use crate::text::{chars_of, string_of};

verus! {

pub open spec fn is_digit(c: char) -> bool {
    '0' <= c <= '9'
}

/// The number that a run of decimal digits writes.
pub open spec fn digits_value(d: Seq<char>) -> nat
    decreases d.len(),
{
    if d.len() == 0 {
        0
    } else {
        digits_value(d.drop_last()) * 10 + (d.last() as nat - '0' as nat) as nat
    }
}

pub open spec fn i32_max() -> nat {
    0x7fff_ffff
}

/// One or more digits from `pos`, as a number; no match where the
/// number does not fit in an `i32`.
pub open spec fn digits(s: Seq<char>, pos: int, end: int) -> Option<(int, int)> {
    let d = run_end(s, pos, end, |c| is_digit(c));
    if d > pos && digits_value(s.subrange(pos, d)) <= i32_max() {
        Some((digits_value(s.subrange(pos, d)) as int, d))
    } else {
        None
    }
}

pub fn digits_at(s: &Vec<char>, pos: usize, end: usize) -> (r: Option<(i32, usize)>)
    requires
        pos <= end <= s.len(),
    ensures
        match r {
            Some((v, e)) => digits(s@, pos as int, end as int) == Some((v as int, e as int)) && e <= end,
            None => digits(s@, pos as int, end as int) is None,
        },
{
    let mut i = pos;
    let mut acc: u64 = 0;
    let mut big = false;
    while i < end && '0' <= s[i] && s[i] <= '9'
        invariant
            pos <= i <= end <= s.len(),
            run_end(s@, pos as int, end as int, |c| is_digit(c)) == run_end(s@, i as int, end as int, |c| is_digit(c)),
            big ==> digits_value(s@.subrange(pos as int, i as int)) > i32_max(),
            !big ==> acc == digits_value(s@.subrange(pos as int, i as int)) && acc <= i32_max(),
        decreases end - i,
    {
        let ghost prev = s@.subrange(pos as int, i as int);
        assert(s@.subrange(pos as int, i + 1).drop_last() =~= prev);
        let dv = (s[i] as u32 - '0' as u32) as u64;
        proof {
            let v = digits_value(prev);
            assert(digits_value(s@.subrange(pos as int, i + 1)) == v * 10 + dv);
            assert(v * 10 + dv >= v) by (nonlinear_arith);
        }
        if !big {
            acc = acc * 10 + dv;
            if acc > 0x7fff_ffff {
                big = true;
            }
        }
        i = i + 1;
    }
    if i > pos && !big {
        Some((acc as i32, i))
    } else {
        None
    }
}

/// One character that `p` accepts.
pub fn character<F: Fn(char) -> bool>(input: &str, p: F) -> (r: Option<(char, String)>)
    requires
        forall|c: char| p.requires((c,)),
    ensures
        match r {
            Some((c, rest)) => input@.len() > 0 && c == input@[0] && p.ensures((c,), true)
                && rest@ == input@.subrange(1, input@.len() as int),
            None => input@.len() == 0 || p.ensures((input@[0],), false),
        },
{
    let s = chars_of(input);
    if s.len() == 0 {
        return None;
    }
    let c = s[0];
    if p(c) {
        Some((c, string_of(&s, 1, s.len())))
    } else {
        None
    }
}

/// The literal `lit`, where the input starts with it.
pub fn string(input: &str, lit: &str) -> (r: Option<(String, String)>)
    ensures
        match r {
            Some((m, rest)) => lit_at_spec(input@, 0, input@.len() as int, lit@) && m@ == lit@
                && rest@ == input@.subrange(lit@.len() as int, input@.len() as int),
            None => !lit_at_spec(input@, 0, input@.len() as int, lit@),
        },
{
    let s = chars_of(input);
    let l = chars_of(lit);
    if crate::scan::lit_at(&s, 0, s.len(), &l) {
        Some((lit.to_owned(), string_of(&s, l.len(), s.len())))
    } else {
        None
    }
}

/// One or more ASCII digits, as an `i32`; no match where the number does
/// not fit.
pub fn digit(input: &str) -> (r: Option<(i32, String)>)
    ensures
        match r {
            Some((v, rest)) => digits(input@, 0, input@.len() as int) matches Some((n, e))
                && v as int == n && rest@ == input@.subrange(e, input@.len() as int),
            None => digits(input@, 0, input@.len() as int) is None,
        },
{
    let s = chars_of(input);
    match digits_at(&s, 0, s.len()) {
        Some((v, e)) => Some((v, string_of(&s, e, s.len()))),
        None => None,
    }
}

} // verus!
