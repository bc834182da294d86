//! Verified helpers over strings: character extraction, equality, path
//! separators, file-name splitting and destination joining.

use vstd::prelude::*;
use vstd::string::StrSliceExecFns;
use vstd::string::StringExecFns;

verus! {

/// True when `s` holds a path separator somewhere in `[from, to)`.
pub open spec fn has_separator_in(s: Seq<char>, from: int, to: int) -> bool {
    exists|i: int| from <= i < to && s[i] == '/'
}

/// True when the string holds a path separator anywhere.
pub open spec fn contains_separator(s: Seq<char>) -> bool {
    has_separator_in(s, 0, s.len() as int)
}

/// Index of the last path separator of `s`, or -1 when there is none.
pub open spec fn last_separator(s: Seq<char>) -> int
    decreases s.len(),
{
    if s.len() == 0 {
        -1
    } else if s.last() == '/' {
        s.len() - 1
    } else {
        last_separator(s.drop_last())
    }
}

/// The file-name component of a path: everything after the last separator,
/// or the whole string when there is no separator.
pub open spec fn file_name_spec(s: Seq<char>) -> Seq<char> {
    s.subrange(last_separator(s) + 1, s.len() as int)
}

pub proof fn lemma_last_separator(s: Seq<char>)
    ensures
        -1 <= last_separator(s) < s.len(),
        last_separator(s) >= 0 ==> s[last_separator(s)] == '/',
        forall|j: int| last_separator(s) < j < s.len() ==> s[j] != '/',
        forall|j: int| 0 <= j < s.len() && s[j] == '/' ==> j <= last_separator(s),
    decreases s.len(),
{
    if s.len() > 0 && s.last() != '/' {
        lemma_last_separator(s.drop_last());
        assert forall|j: int| last_separator(s) < j < s.len() implies s[j] != '/' by {
            if j < s.len() - 1 {
                assert(s.drop_last()[j] == s[j]);
            }
        }
        assert forall|j: int| 0 <= j < s.len() && s[j] == '/' implies j <= last_separator(s) by {
            if j < s.len() - 1 {
                assert(s.drop_last()[j] == s[j]);
            }
        }
    }
}

/// Collects the characters of a string into a vector, in order.
pub fn chars_of(s: &str) -> (r: Vec<char>)
    ensures
        r@ == s@,
{
    let n = s.unicode_len();
    let mut v: Vec<char> = Vec::new();
    let mut i: usize = 0;
    while i < n
        invariant
            i <= n,
            n == s@.len(),
            v@ == s@.subrange(0, i as int),
        decreases n - i,
    {
        let c = s.get_char(i);
        v.push(c);
        proof {
            assert(s@.subrange(0, i + 1 as int) =~= s@.subrange(0, i as int).push(s@[i as int]));
        }
        i += 1;
    }
    proof {
        assert(v@ =~= s@);
    }
    v
}

/// Character-wise string equality.
pub fn str_eq(a: &str, b: &str) -> (r: bool)
    ensures
        r == (a@ == b@),
{
    let na = a.unicode_len();
    let nb = b.unicode_len();
    if na != nb {
        proof {
            assert(a@ != b@);
        }
        return false;
    }
    let mut i: usize = 0;
    while i < na
        invariant
            i <= na,
            na == a@.len(),
            na == b@.len(),
            forall|j: int| 0 <= j < i ==> a@[j] == b@[j],
        decreases na - i,
    {
        if a.get_char(i) != b.get_char(i) {
            return false;
        }
        i += 1;
    }
    proof {
        assert(a@ =~= b@);
    }
    true
}

/// True when the string holds a path separator.
pub fn has_separator(s: &str) -> (r: bool)
    ensures
        r == contains_separator(s@),
{
    let n = s.unicode_len();
    let mut i: usize = 0;
    while i < n
        invariant
            i <= n,
            n == s@.len(),
            forall|j: int| 0 <= j < i ==> s@[j] != '/',
        decreases n - i,
    {
        if s.get_char(i) == '/' {
            return true;
        }
        i += 1;
    }
    false
}

/// Scans backwards for the last separator; returns the index one past it
/// (0 when there is none), which is where the file name starts.
fn file_name_start(path: &str) -> (cut: usize)
    ensures
        cut == last_separator(path@) + 1,
        cut <= path@.len(),
{
    let n = path.unicode_len();
    let mut i: usize = n;
    while i > 0
        invariant
            i <= n,
            n == path@.len(),
            forall|j: int| i <= j < n ==> path@[j] != '/',
        ensures
            i <= n,
            n == path@.len(),
            forall|j: int| i <= j < n ==> path@[j] != '/',
            i > 0 ==> path@[i - 1] == '/',
        decreases i,
    {
        if path.get_char(i - 1) == '/' {
            break;
        }
        i -= 1;
    }
    proof {
        lemma_last_separator(path@);
        if i > 0 {
            assert(i - 1 <= last_separator(path@));
            assert(last_separator(path@) <= i - 1);
        } else {
            if last_separator(path@) >= 0 {
                assert(path@[last_separator(path@)] == '/');
            }
        }
    }
    i
}

/// The file-name component of a path: everything after the last `/`,
/// or the whole path when it has no separator.
pub fn file_name_of(path: &str) -> (r: String)
    ensures
        r@ == file_name_spec(path@),
{
    let n = path.unicode_len();
    let cut = file_name_start(path);
    let tail = path.substring_char(cut, n);
    String::from_str(tail)
}

/// Replaces the file-name component of `path` with `name`, keeping the
/// directory prefix (up to and including the last separator).
pub fn with_file_name(path: &str, name: &str) -> (r: String)
    ensures
        r@ == path@.subrange(0, last_separator(path@) + 1) + name@,
{
    let cut = file_name_start(path);
    let prefix = path.substring_char(0, cut);
    String::from_str(prefix).concat(name)
}

/// Joins a destination directory and a file name with a single separator.
pub fn join_path(dir: &str, name: &str) -> (r: String)
    ensures
        r@ == dir@ + seq!['/'] + name@,
{
    let r = String::from_str(dir).concat("/").concat(name);
    proof {
        reveal_strlit("/");
        assert("/"@ =~= seq!['/']);
    }
    r
}

} // verus!
