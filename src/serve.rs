use vstd::prelude::*;
use crate::inline::run_end_at;
use crate::inline_spec::run_end;
use crate::text::{chars_of, string_of};

verus! {

/// What a request path decodes to, as `percent_encoding` gives it.
pub uninterp spec fn percent_decoded(s: Seq<char>) -> Seq<char>;

/// Relies on `percent_encoding::percent_decode_str` followed by
/// `decode_utf8_lossy`: the decoded text depends on the input alone.
#[verifier::external_body]
fn decode_path(path: &str) -> (r: String)
    ensures
        r@ == percent_decoded(path@),
{
    percent_encoding::percent_decode_str(path).decode_utf8_lossy().into_owned()
}

/// A `.` stands after the last `/`.
pub open spec fn has_extension(s: Seq<char>) -> bool {
    exists|k: int| 0 <= k < s.len() && s[k] == '.' && forall|j: int| k < j < s.len() ==> s[j] != '/'
}

pub open spec fn is_directory(s: Seq<char>) -> bool {
    s.len() > 0 && s.last() == '/'
}

pub open spec fn is_slash(c: char) -> bool {
    c == '/'
}

/// `s` without its leading slashes.
pub open spec fn strip_slashes(s: Seq<char>) -> Seq<char> {
    s.subrange(run_end(s, 0, s.len() as int, |c| is_slash(c)), s.len() as int)
}

/// For a decoded request path that names neither a file with an extension
/// nor a directory, the path, without leading slashes, of the page that
/// may serve it once `.html` is added.
pub fn html_candidate_decoded(decoded: &str) -> (r: Option<String>)
    ensures
        match r {
            Some(p) => !has_extension(decoded@) && !is_directory(decoded@) && p@ == strip_slashes(decoded@),
            None => has_extension(decoded@) || is_directory(decoded@),
        },
{
    let s = chars_of(decoded);
    let n = s.len();
    if n > 0 && s[n - 1] == '/' {
        return None;
    }
    let mut i = n;
    while i > 0 && s[i - 1] != '/'
        invariant
            i <= n == s.len(),
            s@ == decoded@,
            forall|j: int| i <= j < n ==> s@[j] != '/',
            forall|j: int| i <= j < n ==> s@[j] != '.',
        decreases i,
    {
        if s[i - 1] == '.' {
            assert(has_extension(decoded@)) by {
                assert(forall|j: int| (i - 1) < j < n ==> s@[j] != '/');
            }
            return None;
        }
        i = i - 1;
    }
    assert(!has_extension(decoded@)) by {
        if has_extension(decoded@) {
            let k = choose|k: int| 0 <= k < s@.len() && s@[k] == '.' && forall|j: int| k < j < s@.len() ==> s@[j] != '/';
            if k < i {
                assert(s@[i - 1] == '/');
            }
        }
    }
    let lead = run_end_at(&s, 0, n, |c: char| -> (b: bool) ensures b == is_slash(c) { c == '/' }, Ghost(|c| is_slash(c)));
    Some(string_of(&s, lead, n))
}

/// Decodes a request path, then decides as [`html_candidate_decoded`].
pub fn html_candidate(path: &str) -> (r: Option<String>)
    ensures
        match r {
            Some(p) => !has_extension(percent_decoded(path@)) && !is_directory(percent_decoded(path@))
                && p@ == strip_slashes(percent_decoded(path@)),
            None => has_extension(percent_decoded(path@)) || is_directory(percent_decoded(path@)),
        },
{
    let decoded = decode_path(path);
    html_candidate_decoded(decoded.as_str())
}

} // verus!
