//! The glob pattern engine: `**` matches any run of characters, `*` any run
//! without a path separator, `?` exactly one non-separator character, and any
//! other character matches itself. A match must consume both the whole
//! pattern and the whole candidate.

use vstd::prelude::*;
use vstd::string::StringExecFns;
use crate::text::{chars_of, contains_separator, has_separator};

verus! {

/// True when `s` has no path separator in the index range `[from, to)`.
pub open spec fn no_separator(s: Seq<char>, from: int, to: int) -> bool {
    forall|j: int| from <= j < to ==> s[j] != '/'
}

/// Glob semantics from position `pi` in the pattern `p` and `si` in the
/// candidate `s`. `**` either matches nothing or consumes one character of
/// any kind; `*` likewise but never a separator; `?` consumes one
/// non-separator character; anything else must match literally, and both
/// streams must be exhausted together.
pub open spec fn glob_from(p: Seq<char>, s: Seq<char>, pi: int, si: int) -> bool
    decreases p.len() - pi, s.len() - si,
        when 0 <= pi <= p.len() && 0 <= si <= s.len()
{
    if pi == p.len() {
        si == s.len()
    } else if pi + 1 < p.len() && p[pi] == '*' && p[pi + 1] == '*' {
        glob_from(p, s, pi + 2, si) || (si < s.len() && glob_from(p, s, pi, si + 1))
    } else if p[pi] == '*' {
        glob_from(p, s, pi + 1, si) || (si < s.len() && s[si] != '/' && glob_from(p, s, pi, si + 1))
    } else if si == s.len() {
        false
    } else if p[pi] == '?' {
        s[si] != '/' && glob_from(p, s, pi + 1, si + 1)
    } else {
        p[pi] == s[si] && glob_from(p, s, pi + 1, si + 1)
    }
}

/// A `**` at `pi` matches exactly when some split point of the remaining
/// candidate lets the rest of the pattern match: the non-deterministic
/// choice over every split point.
pub proof fn lemma_double_star_splits(p: Seq<char>, s: Seq<char>, pi: int, si: int)
    requires
        0 <= pi,
        pi + 1 < p.len(),
        p[pi] == '*',
        p[pi + 1] == '*',
        0 <= si <= s.len(),
    ensures
        glob_from(p, s, pi, si) <==> exists|j: int|
            si <= j <= s.len() && #[trigger] glob_from(p, s, pi + 2, j),
    decreases s.len() - si,
{
    if si < s.len() {
        lemma_double_star_splits(p, s, pi, si + 1);
    }
    if glob_from(p, s, pi, si) {
        if glob_from(p, s, pi + 2, si) {
            assert(si <= si <= s.len() && glob_from(p, s, pi + 2, si));
        }
    }
    if exists|j: int| si <= j <= s.len() && #[trigger] glob_from(p, s, pi + 2, j) {
        let j = choose|j: int| si <= j <= s.len() && #[trigger] glob_from(p, s, pi + 2, j);
        if j == si {
            assert(glob_from(p, s, pi, si));
        } else {
            assert(si + 1 <= j <= s.len() && glob_from(p, s, pi + 2, j));
            assert(glob_from(p, s, pi, si + 1));
        }
    }
}

/// A `*` at `pi` matches exactly when some split point free of separators
/// lets the rest of the pattern match: the forward scan that stops at the
/// first directory boundary.
pub proof fn lemma_star_splits(p: Seq<char>, s: Seq<char>, pi: int, si: int)
    requires
        0 <= pi < p.len(),
        p[pi] == '*',
        !(pi + 1 < p.len() && p[pi + 1] == '*'),
        0 <= si <= s.len(),
    ensures
        glob_from(p, s, pi, si) <==> exists|j: int|
            si <= j <= s.len() && no_separator(s, si, j) && #[trigger] glob_from(p, s, pi + 1, j),
    decreases s.len() - si,
{
    if si < s.len() {
        lemma_star_splits(p, s, pi, si + 1);
    }
    if glob_from(p, s, pi, si) {
        if glob_from(p, s, pi + 1, si) {
            assert(no_separator(s, si, si));
            assert(si <= si <= s.len() && no_separator(s, si, si) && glob_from(p, s, pi + 1, si));
        } else {
            assert(si < s.len() && s[si] != '/' && glob_from(p, s, pi, si + 1));
            let j = choose|j: int|
                si + 1 <= j <= s.len() && no_separator(s, si + 1, j) && #[trigger] glob_from(
                    p,
                    s,
                    pi + 1,
                    j,
                );
            assert(no_separator(s, si, j));
        }
    }
    if exists|j: int|
        si <= j <= s.len() && no_separator(s, si, j) && #[trigger] glob_from(p, s, pi + 1, j) {
        let j = choose|j: int|
            si <= j <= s.len() && no_separator(s, si, j) && #[trigger] glob_from(p, s, pi + 1, j);
        if j == si {
            assert(glob_from(p, s, pi, si));
        } else {
            assert(s[si] != '/');
            assert(no_separator(s, si + 1, j));
            assert(glob_from(p, s, pi, si + 1));
        }
    }
}

/// Whether the whole pattern matches the whole candidate.
pub open spec fn glob_matches(pattern: Seq<char>, candidate: Seq<char>) -> bool {
    glob_from(pattern, candidate, 0, 0)
}

/// Backtracking matcher over character vectors, from position `pi` in the
/// pattern and `si` in the candidate. Wildcards are matched by trying every
/// admissible split point of the remaining candidate.
fn glob_recurse(p: &Vec<char>, s: &Vec<char>, pi: usize, si: usize) -> (r: bool)
    requires
        pi <= p@.len(),
        si <= s@.len(),
    ensures
        r == glob_from(p@, s@, pi as int, si as int),
    decreases p@.len() - pi,
{
    let plen = p.len();
    let slen = s.len();

    // Both exhausted: full match; pattern exhausted alone: no match.
    if pi == plen {
        return si == slen;
    }

    // `**`: try every split point of the remaining candidate.
    if pi + 1 < plen && p[pi] == '*' && p[pi + 1] == '*' {
        let mut i: usize = si;
        loop
            invariant
                si <= i <= slen,
                pi + 1 < plen,
                plen == p@.len(),
                slen == s@.len(),
                p@[pi as int] == '*',
                p@[pi as int + 1] == '*',
                forall|j: int| si <= j < i ==> !(#[trigger] glob_from(p@, s@, pi as int + 2, j)),
            decreases slen - i,
        {
            if glob_recurse(p, s, pi + 2, i) {
                proof {
                    lemma_double_star_splits(p@, s@, pi as int, si as int);
                    assert(glob_from(p@, s@, pi as int + 2, i as int));
                }
                return true;
            }
            if i == slen {
                proof {
                    lemma_double_star_splits(p@, s@, pi as int, si as int);
                    assert(!glob_from(p@, s@, pi as int + 2, i as int));
                    assert(forall|j: int|
                        si <= j <= slen ==> !(#[trigger] glob_from(p@, s@, pi as int + 2, j)));
                }
                return false;
            }
            i += 1;
        }
    }

    // `*`: try every split point up to (and including) the first separator
    // at or after `si`; a single star never crosses a directory boundary.
    if p[pi] == '*' {
        let mut limit: usize = si;
        while limit < slen && s[limit] != '/'
            invariant
                si <= limit <= slen,
                slen == s@.len(),
                no_separator(s@, si as int, limit as int),
            decreases slen - limit,
        {
            limit += 1;
        }
        let mut i: usize = si;
        loop
            invariant
                si <= i <= limit <= slen,
                plen == p@.len(),
                slen == s@.len(),
                pi < plen,
                p@[pi as int] == '*',
                !(pi + 1 < plen && p@[pi as int + 1] == '*'),
                no_separator(s@, si as int, limit as int),
                limit == slen || s@[limit as int] == '/',
                forall|j: int| si <= j < i ==> !(#[trigger] glob_from(p@, s@, pi as int + 1, j)),
            decreases limit - i,
        {
            if glob_recurse(p, s, pi + 1, i) {
                proof {
                    lemma_star_splits(p@, s@, pi as int, si as int);
                    assert(glob_from(p@, s@, pi as int + 1, i as int));
                    assert(no_separator(s@, si as int, i as int));
                }
                return true;
            }
            if i == limit {
                proof {
                    lemma_star_splits(p@, s@, pi as int, si as int);
                    assert(!glob_from(p@, s@, pi as int + 1, i as int));
                    assert forall|j: int|
                        si <= j <= slen && no_separator(s@, si as int, j) implies !(
                    #[trigger] glob_from(p@, s@, pi as int + 1, j)) by {
                        if j > limit {
                            assert(s@[limit as int] == '/');
                        }
                    }
                }
                return false;
            }
            i += 1;
        }
    }

    // Candidate exhausted but a non-star pattern item remains.
    if si == slen {
        return false;
    }

    // `?` consumes one character that is not a separator.
    if p[pi] == '?' {
        if s[si] == '/' {
            return false;
        }
        return glob_recurse(p, s, pi + 1, si + 1);
    }

    // Literal character.
    if p[pi] == s[si] {
        return glob_recurse(p, s, pi + 1, si + 1);
    }
    false
}

/// Glob matching of a whole pattern against a whole candidate string.
pub fn glob_match(pattern: &str, input: &str) -> (r: bool)
    ensures
        r == glob_matches(pattern@, input@),
{
    let p = chars_of(pattern);
    let s = chars_of(input);
    glob_recurse(&p, &s, 0, 0)
}

/// A compiled glob pattern. Matching behaviour is a pure function of `raw`.
#[derive(Debug, Clone)]
pub struct Pattern {
    pub raw: String,
}

impl Pattern {
    /// Compiles a raw glob string into a pattern.
    pub fn new(raw: &str) -> (p: Pattern)
        ensures
            p.raw@ == raw@,
    {
        Pattern { raw: String::from_str(raw) }
    }

    /// Matches the pattern against the given candidate string.
    pub fn matches(&self, path: &str) -> (r: bool)
        ensures
            r == glob_matches(self.raw@, path@),
    {
        glob_match(self.raw.as_str(), path)
    }

    /// Matches with the routing rule: a pattern whose raw text holds a path
    /// separator is matched against the full path, any other against the
    /// file name alone.
    pub fn matches_routed(&self, full_path: &str, file_name: &str) -> (r: bool)
        ensures
            r == routed_match(self.raw@, full_path@, file_name@),
    {
        if has_separator(self.raw.as_str()) {
            glob_match(self.raw.as_str(), full_path)
        } else {
            glob_match(self.raw.as_str(), file_name)
        }
    }
}

/// The routing rule: a pattern holding a separator is tried against the full
/// path, a separator-free pattern against the file name only.
pub open spec fn routed_match(praw: Seq<char>, full_path: Seq<char>, file_name: Seq<char>) -> bool {
    if contains_separator(praw) {
        glob_matches(praw, full_path)
    } else {
        glob_matches(praw, file_name)
    }
}

/// Law: matching is a function of the raw pattern text alone, so compiling
/// the same raw pattern twice yields matchers with identical results on
/// every input.
pub proof fn lemma_compile_deterministic(a: Pattern, b: Pattern, candidate: Seq<char>)
    requires
        a.raw@ == b.raw@,
    ensures
        glob_matches(a.raw@, candidate) == glob_matches(b.raw@, candidate),
{
}

} // verus!
