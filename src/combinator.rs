use vstd::prelude::*;

verus! {

/// Applies `f` to what `p` produces; a failure of `p` is passed on.
pub fn map<T, U, P: Fn(&str) -> Option<(T, String)>, F: Fn(T) -> U>(p: &P, f: &F, input: &str) -> (r: Option<(U, String)>)
    requires
        forall|i: &str| p.requires((i,)),
        forall|t: T| f.requires((t,)),
    ensures
        match r {
            Some((u, rest)) => exists|t: T| p.ensures((input,), Some((t, rest))) && f.ensures((t,), u),
            None => p.ensures((input,), None),
        },
{
    let r0 = p(input);
    match r0 {
        Some((t, rest)) => {
            let ghost g = t;
            let u = f(t);
            assert(p.ensures((input,), Some((g, rest))) && f.ensures((g,), u));
            let r = Some((u, rest));
            assert(r matches Some((u2, rest2)) && p.ensures((input,), Some((g, rest2))) && f.ensures((g,), u2));
            r
        },
        None => None,
    }
}

/// `p`, and where it fails, `q` on the same input.
pub fn or<T, P: Fn(&str) -> Option<(T, String)>, Q: Fn(&str) -> Option<(T, String)>>(p: &P, q: &Q, input: &str) -> (r: Option<(T, String)>)
    requires
        forall|i: &str| p.requires((i,)),
        forall|i: &str| q.requires((i,)),
    ensures
        (r is Some && p.ensures((input,), r)) || (p.ensures((input,), None) && q.ensures((input,), r)),
{
    match p(input) {
        Some(x) => Some(x),
        None => q(input),
    }
}

/// `p`, then `q` on what `p` left; both results as a pair.
pub fn and<T, U, P: Fn(&str) -> Option<(T, String)>, Q: Fn(&str) -> Option<(U, String)>>(p: &P, q: &Q, input: &str) -> (r: Option<((T, U), String)>)
    requires
        forall|i: &str| p.requires((i,)),
        forall|i: &str| q.requires((i,)),
    ensures
        match r {
            Some(((t, u), rest)) => exists|mid: String, m: &str| m@ == mid@ && p.ensures((input,), Some((t, mid))) && q.ensures((m,), Some((u, rest))),
            None => p.ensures((input,), None) || exists|t: T, mid: String, m: &str| m@ == mid@ && p.ensures((input,), Some((t, mid))) && q.ensures((m,), None::<(U, String)>),
        },
{
    match p(input) {
        Some((t, mid)) => match q(mid.as_str()) {
            Some((u, rest)) => Some(((t, u), rest)),
            None => None,
        },
        None => None,
    }
}

/// `p`, run on text `from`, produced `item` and left `to`.
pub open spec fn step_ok<T, P: Fn(&str) -> Option<(T, String)>>(p: P, from: Seq<char>, item: T, to: Seq<char>) -> bool {
    exists|m: &str, rest: String| m@ == from && rest@ == to && p.ensures((m,), Some((item, rest)))
}

/// `p` fails on text `at`.
pub open spec fn fails_at<T, P: Fn(&str) -> Option<(T, String)>>(p: P, at: Seq<char>) -> bool {
    exists|m: &str| m@ == at && p.ensures((m,), None::<(T, String)>)
}

/// `items` are what `p` produced, match after match, through the texts
/// `views`.
pub open spec fn chain<T, P: Fn(&str) -> Option<(T, String)>>(p: P, views: Seq<Seq<char>>, items: Seq<T>) -> bool {
    views.len() == items.len() + 1 && forall|i: int| 0 <= i < items.len() ==> #[trigger] step_ok(p, views[i], items[i], views[i + 1])
}

/// Each match of `p` consumes input.
pub open spec fn consumes<T, P: Fn(&str) -> Option<(T, String)>>(p: P) -> bool {
    forall|i: &str, t: T, rest: String| p.ensures((i,), Some((t, rest))) ==> rest@.len() < i@.len()
}

/// `p` repeated for as long as it matches; never fails. The results are
/// those of the matches in order, and the rest is where `p` first fails.
pub fn many<T, P: Fn(&str) -> Option<(T, String)>>(p: &P, input: &str) -> (r: (Vec<T>, String))
    requires
        forall|i: &str| p.requires((i,)),
        consumes::<T, P>(*p),
    ensures
        exists|views: Seq<Seq<char>>| chain(*p, views, r.0@) && views[0] == input@ && views.last() == r.1@,
        fails_at::<T, P>(*p, r.1@),
{
    let mut acc: Vec<T> = Vec::new();
    let mut cur: String = input.to_owned();
    let ghost mut views: Seq<Seq<char>> = seq![input@];
    loop
        invariant
            forall|i: &str| p.requires((i,)),
            consumes::<T, P>(*p),
            chain(*p, views, acc@),
            views[0] == input@,
            views.last() == cur@,
        decreases cur@.len(),
    {
        let m = cur.as_str();
        let step = p(m);
        match step {
            Some((t, rest)) => {
                proof {
                    assert(step_ok(*p, views.last(), t, rest@));
                    let nv = views.push(rest@);
                    let na = acc@.push(t);
                    assert forall|i: int| 0 <= i < na.len() implies #[trigger] step_ok(*p, nv[i], na[i], nv[i + 1]) by {
                        if i < acc@.len() {
                            assert(step_ok(*p, views[i], acc@[i], views[i + 1]));
                        }
                    }
                    views = nv;
                }
                acc.push(t);
                cur = rest;
            },
            None => {
                assert(fails_at::<T, P>(*p, cur@));
                return (acc, cur);
            },
        }
    }
}

/// Like [`many`], but fails where the first match fails.
pub fn some<T, P: Fn(&str) -> Option<(T, String)>>(p: &P, input: &str) -> (r: Option<(Vec<T>, String)>)
    requires
        forall|i: &str| p.requires((i,)),
        consumes::<T, P>(*p),
    ensures
        match r {
            Some((v, rest)) => v.len() >= 1 && fails_at::<T, P>(*p, rest@)
                && exists|views: Seq<Seq<char>>| chain(*p, views, v@) && views[0] == input@ && views.last() == rest@,
            None => p.ensures((input,), None::<(T, String)>),
        },
{
    let first = p(input);
    match first {
        Some((t, rest)) => {
            let ghost g = t;
            let (more, left) = many(p, rest.as_str());
            let mut v: Vec<T> = Vec::new();
            v.push(t);
            let ghost head = v@;
            let mut more = more;
            let ghost mv = more@;
            v.append(&mut more);
            proof {
                let views = choose|views: Seq<Seq<char>>| chain(*p, views, mv) && views[0] == rest@ && views.last() == left@;
                let nv = seq![input@] + views;
                assert(v@ =~= seq![g] + mv);
                assert(step_ok(*p, input@, g, rest@));
                assert forall|i: int| 0 <= i < v@.len() implies #[trigger] step_ok(*p, nv[i], v@[i], nv[i + 1]) by {
                    if i > 0 {
                        let j = i - 1;
                        assert(step_ok(*p, views[j], mv[j], views[j + 1]));
                        assert(nv[i] == views[j] && nv[i + 1] == views[j + 1] && v@[i] == mv[j]);
                    } else {
                        assert(nv[0] == input@ && nv[1] == views[0] && v@[0] == g);
                    }
                }
                assert(chain(*p, nv, v@));
                assert(nv[0] == input@ && nv.last() == views.last());
            }
            Some((v, left))
        },
        None => None,
    }
}

/// Always matches, consuming nothing, and produces `value`.
pub fn id<T>(value: T, input: &str) -> (r: Option<(T, String)>)
    ensures
        r matches Some((v, rest)) && v == value && rest@ == input@,
{
    Some((value, input.to_owned()))
}

/// The line break.
pub fn newline(input: &str) -> (r: Option<(String, String)>)
    ensures
        match r {
            Some((m, rest)) => input@.len() > 0 && input@[0] == '\n' && m@ == seq!['\n']
                && rest@ == input@.subrange(1, input@.len() as int),
            None => input@.len() == 0 || input@[0] != '\n',
        },
{
    let s = crate::text::chars_of(input);
    if s.len() > 0 && s[0] == '\n' {
        let m = crate::text::string_of(&s, 0, 1);
        assert(s@.subrange(0, 1) =~= seq!['\n']);
        Some((m, crate::text::string_of(&s, 1, s.len())))
    } else {
        None
    }
}

} // verus!
