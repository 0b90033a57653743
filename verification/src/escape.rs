//! The escaping rule used by specifier resolution: runs of `/` collapse to a
//! single `-` after leading and trailing `/` are trimmed, and unescaping maps
//! every `-` back to `/`.

use vstd::prelude::*;
use crate::text::{chars_of, string_from_chars};

verus! {

/// `s` without its leading `/` characters.
pub open spec fn trim_leading_slashes(s: Seq<char>) -> Seq<char>
    decreases s.len(),
{
    if s.len() > 0 && s[0] == '/' {
        trim_leading_slashes(s.drop_first())
    } else {
        s
    }
}

/// `s` without its trailing `/` characters.
pub open spec fn trim_trailing_slashes(s: Seq<char>) -> Seq<char>
    decreases s.len(),
{
    if s.len() > 0 && s.last() == '/' {
        trim_trailing_slashes(s.drop_last())
    } else {
        s
    }
}

/// One pass of the collapsing rule: a `/` becomes `-` unless the previous
/// character was already a `/`, in which case it is dropped.
pub open spec fn collapse_slashes(s: Seq<char>, prev_slash: bool) -> Seq<char>
    decreases s.len(),
{
    if s.len() == 0 {
        Seq::<char>::empty()
    } else if s[0] == '/' {
        if prev_slash {
            collapse_slashes(s.drop_first(), true)
        } else {
            seq!['-'] + collapse_slashes(s.drop_first(), true)
        }
    } else {
        seq![s[0]] + collapse_slashes(s.drop_first(), false)
    }
}

/// The escaped form of `s`.
pub open spec fn escape_spec(s: Seq<char>) -> Seq<char> {
    collapse_slashes(trim_trailing_slashes(trim_leading_slashes(s)), false)
}

/// Every `-` replaced by `/`.
pub open spec fn unescape_spec(s: Seq<char>) -> Seq<char> {
    s.map_values(|c: char| if c == '-' { '/' } else { c })
}

proof fn lemma_trim_leading(s: Seq<char>, k: int)
    requires
        0 <= k <= s.len(),
        forall|i: int| 0 <= i < k ==> s[i] == '/',
        k == s.len() || s[k] != '/',
    ensures
        trim_leading_slashes(s) == s.skip(k),
    decreases k,
{
    if k == 0 {
        assert(s.skip(0) =~= s);
    } else {
        assert(s[0] == '/');
        assert(forall|i: int| 0 <= i < k - 1 ==> s.drop_first()[i] == s[i + 1]);
        lemma_trim_leading(s.drop_first(), k - 1);
        assert(s.drop_first().skip(k - 1) =~= s.skip(k));
    }
}

proof fn lemma_trim_trailing(s: Seq<char>, m: int)
    requires
        0 <= m <= s.len(),
        forall|i: int| m <= i < s.len() ==> s[i] == '/',
        m == 0 || s[m - 1] != '/',
    ensures
        trim_trailing_slashes(s) == s.take(m),
    decreases s.len(),
{
    if m == s.len() {
        if s.len() == 0 || s.last() != '/' {
            assert(s.take(m) =~= s);
        } else {
            assert(false);
        }
    } else {
        assert(s.last() == '/');
        lemma_trim_trailing(s.drop_last(), m);
        assert(s.drop_last().take(m) =~= s.take(m));
    }
}

/// The escaped form of `input`: leading and trailing `/` are trimmed, every
/// remaining run of `/` becomes one `-`, all other characters are kept.
pub fn escape(input: &str) -> (r: String)
    ensures
        r@ == escape_spec(input@),
{
    let v = chars_of(input);
    let n: usize = v.len();
    // trim bounds
    let mut start: usize = 0;
    while start < n && v[start] == '/'
        invariant
            start <= n,
            n == v@.len(),
            forall|i: int| 0 <= i < start ==> v@[i] == '/',
        decreases n - start,
    {
        start = start + 1;
    }
    let mut end: usize = n;
    while end > start && v[end - 1] == '/'
        invariant
            start <= end <= n,
            n == v@.len(),
            forall|i: int| end <= i < n ==> v@[i] == '/',
        decreases end,
    {
        end = end - 1;
    }
    let ghost trimmed = v@.skip(start as int).take(end - start);
    proof {
        lemma_trim_leading(v@, start as int);
        if start == end && start < n {
            // the whole string is slashes; after skipping the leading run
            // nothing but slashes remains, and trimming removes them all
            assert(forall|i: int|
                0 <= i < v@.skip(start as int).len() ==> v@.skip(start as int)[i] == '/');
            lemma_trim_trailing(v@.skip(start as int), 0);
        } else {
            assert(forall|i: int|
                end - start <= i < v@.skip(start as int).len() ==> v@.skip(start as int)[i]
                    == '/');
            lemma_trim_trailing(v@.skip(start as int), end - start);
        }
        assert(trim_trailing_slashes(trim_leading_slashes(v@)) == trimmed);
    }
    let mut out: Vec<char> = Vec::new();
    let mut prev: bool = false;
    let mut i: usize = start;
    proof {
        assert(trimmed.skip(0) =~= trimmed);
    }
    while i < end
        invariant
            start <= i <= end <= n,
            n == v@.len(),
            trimmed == v@.skip(start as int).take(end - start),
            collapse_slashes(trimmed, false) == out@ + collapse_slashes(
                trimmed.skip(i - start),
                prev,
            ),
        decreases end - i,
    {
        let ghost rest = trimmed.skip(i - start);
        proof {
            assert(rest.len() > 0);
            assert(rest[0] == v@[i as int]);
            assert(rest.drop_first() =~= trimmed.skip(i + 1 - start));
        }
        let c = v[i];
        if c == '/' {
            if !prev {
                out.push('-');
                prev = true;
            }
        } else {
            out.push(c);
            prev = false;
        }
        proof {
            assert(collapse_slashes(trimmed, false) == out@ + collapse_slashes(
                trimmed.skip(i + 1 - start),
                prev,
            ));
        }
        i = i + 1;
    }
    proof {
        assert(trimmed.skip(end - start) =~= Seq::<char>::empty());
        assert(out@ =~= escape_spec(input@));
    }
    string_from_chars(&out)
}

fn unescape_chars(v: &Vec<char>) -> (r: Vec<char>)
    ensures
        r@ == unescape_spec(v@),
{
    let n: usize = v.len();
    let mut out: Vec<char> = Vec::new();
    let mut i: usize = 0;
    while i < n
        invariant
            i <= n,
            n == v@.len(),
            out@ == unescape_spec(v@.take(i as int)),
        decreases n - i,
    {
        let c = v[i];
        if c == '-' {
            out.push('/');
        } else {
            out.push(c);
        }
        proof {
            assert(out@ =~= unescape_spec(v@.take(i + 1)));
        }
        i = i + 1;
    }
    proof {
        assert(v@.take(n as int) =~= v@);
    }
    out
}

/// Unescapes a value that denotes a filesystem path: every `-` becomes `/`
/// and a leading `/` is prepended.
pub fn unescape_path(input: &str) -> (r: String)
    ensures
        r@ == seq!['/'] + unescape_spec(input@),
{
    let v = chars_of(input);
    let u = unescape_chars(&v);
    let mut out: Vec<char> = Vec::new();
    out.push('/');
    let mut i: usize = 0;
    let n: usize = u.len();
    while i < n
        invariant
            i <= n,
            n == u@.len(),
            out@ == seq!['/'] + u@.take(i as int),
        decreases n - i,
    {
        let c = u[i];
        out.push(c);
        proof {
            assert(out@ =~= seq!['/'] + u@.take(i + 1));
        }
        i = i + 1;
    }
    proof {
        assert(u@.take(n as int) =~= u@);
    }
    string_from_chars(&out)
}

/// Unescapes a value that is not a path: every `-` becomes `/`.
pub fn unescape_non_path(input: &str) -> (r: String)
    ensures
        r@ == unescape_spec(input@),
{
    let v = chars_of(input);
    let u = unescape_chars(&v);
    string_from_chars(&u)
}

} // verus!
