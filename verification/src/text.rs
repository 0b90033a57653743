//! Character-sequence utilities shared by the parsers and resolvers.
//!
//! Executable code works on `Vec<char>` so that every step is visible to
//! the verifier; the specification side works on `Seq<char>`.

use vstd::prelude::*;

verus! {

// ---------------------------------------------------------------------------
// Basic spec helpers
// ---------------------------------------------------------------------------

/// Index of the first occurrence of `c` in `s`, or `-1` when absent.
pub open spec fn first_index_of(s: Seq<char>, c: char) -> int
    decreases s.len(),
{
    if s.len() == 0 {
        -1
    } else if s[0] == c {
        0
    } else {
        let r = first_index_of(s.drop_first(), c);
        if r < 0 {
            -1
        } else {
            r + 1
        }
    }
}

pub proof fn lemma_first_index_of(s: Seq<char>, c: char)
    ensures
        first_index_of(s, c) == -1 || (0 <= first_index_of(s, c) < s.len()),
        first_index_of(s, c) == -1 ==> forall|i: int| 0 <= i < s.len() ==> s[i] != c,
        first_index_of(s, c) >= 0 ==> s[first_index_of(s, c)] == c,
        first_index_of(s, c) >= 0 ==> forall|i: int| 0 <= i < first_index_of(s, c) ==> s[i] != c,
    decreases s.len(),
{
    if s.len() > 0 && s[0] != c {
        lemma_first_index_of(s.drop_first(), c);
        assert forall|i: int| 0 <= i < s.len() && first_index_of(s, c) == -1 implies s[i] != c by {
            if i > 0 {
                assert(s.drop_first()[i - 1] == s[i]);
            }
        }
        assert forall|i: int|
            0 <= i < first_index_of(s, c) && first_index_of(s, c) >= 0 implies s[i] != c by {
            if i > 0 {
                assert(s.drop_first()[i - 1] == s[i]);
            }
        }
    }
}

/// A position that holds `c`, with nothing but other characters before it,
/// is the first occurrence.
pub proof fn lemma_first_index_is(s: Seq<char>, c: char, w: int)
    requires
        0 <= w < s.len(),
        s[w] == c,
        forall|i: int| 0 <= i < w ==> s[i] != c,
    ensures
        first_index_of(s, c) == w,
{
    lemma_first_index_of(s, c);
    let fi = first_index_of(s, c);
    if fi == -1 {
        assert(s[w] != c);
        assert(false);
    } else if fi < w {
        assert(s[fi] != c);
        assert(false);
    } else if fi > w {
        assert(s[w] != c);
        assert(false);
    }
}

/// `s` split at every occurrence of `c`; the separators are dropped and the
/// result always holds one more piece than there are separators.
pub open spec fn split_on(s: Seq<char>, c: char) -> Seq<Seq<char>>
    decreases s.len(),
{
    if s.len() == 0 {
        seq![Seq::<char>::empty()]
    } else {
        let rest = split_on(s.drop_first(), c);
        if s[0] == c {
            seq![Seq::<char>::empty()] + rest
        } else {
            seq![seq![s[0]] + rest[0]] + rest.drop_first()
        }
    }
}

pub proof fn lemma_split_on_len(s: Seq<char>, c: char)
    ensures
        split_on(s, c).len() >= 1,
    decreases s.len(),
{
    if s.len() > 0 {
        lemma_split_on_len(s.drop_first(), c);
    }
}

/// Splitting a sequence whose head part is separator-free peels off exactly
/// that part.
pub proof fn lemma_split_on_concat(a: Seq<char>, b: Seq<char>, c: char)
    requires
        forall|i: int| 0 <= i < a.len() ==> a[i] != c,
    ensures
        split_on(a + seq![c] + b, c) == seq![a] + split_on(b, c),
    decreases a.len(),
{
    lemma_split_on_len(b, c);
    if a.len() == 0 {
        assert(a + seq![c] + b =~= seq![c] + b);
        assert((seq![c] + b).drop_first() =~= b);
        assert(split_on(a + seq![c] + b, c) =~~= seq![a] + split_on(b, c));
    } else {
        let s = a + seq![c] + b;
        assert(s[0] == a[0]);
        assert(s.drop_first() =~= a.drop_first() + seq![c] + b);
        lemma_split_on_concat(a.drop_first(), b, c);
        let rest = split_on(s.drop_first(), c);
        assert(rest == seq![a.drop_first()] + split_on(b, c));
        assert(rest[0] == a.drop_first());
        assert(seq![s[0]] + rest[0] =~= a);
        assert(rest.drop_first() =~~= split_on(b, c));
        assert(split_on(s, c) =~~= seq![a] + split_on(b, c));
    }
}

/// A sequence without separators splits into itself alone.
pub proof fn lemma_split_on_whole(a: Seq<char>, c: char)
    requires
        forall|i: int| 0 <= i < a.len() ==> a[i] != c,
    ensures
        split_on(a, c) == seq![a],
    decreases a.len(),
{
    if a.len() == 0 {
        assert(split_on(a, c) =~~= seq![a]);
    } else {
        lemma_split_on_whole(a.drop_first(), c);
        assert(seq![a[0]] + a.drop_first() =~= a);
        assert(split_on(a, c) =~~= seq![a]);
    }
}

/// Index of the last occurrence of `c` in `s`, or `-1` when absent.
pub open spec fn last_index_of(s: Seq<char>, c: char) -> int
    decreases s.len(),
{
    if s.len() == 0 {
        -1
    } else if s.last() == c {
        s.len() - 1
    } else {
        last_index_of(s.drop_last(), c)
    }
}

pub proof fn lemma_last_index_of(s: Seq<char>, c: char)
    ensures
        last_index_of(s, c) == -1 || (0 <= last_index_of(s, c) < s.len()),
        last_index_of(s, c) == -1 ==> forall|i: int| 0 <= i < s.len() ==> s[i] != c,
        last_index_of(s, c) >= 0 ==> s[last_index_of(s, c)] == c,
        last_index_of(s, c) >= 0 ==> forall|i: int|
            last_index_of(s, c) < i < s.len() ==> s[i] != c,
    decreases s.len(),
{
    if s.len() > 0 && s.last() != c {
        lemma_last_index_of(s.drop_last(), c);
        assert(forall|i: int| 0 <= i < s.len() - 1 ==> s.drop_last()[i] == s[i]);
    }
}

/// A position that holds `c`, with nothing but other characters after it,
/// is the last occurrence.
pub proof fn lemma_last_index_is(s: Seq<char>, c: char, w: int)
    requires
        0 <= w < s.len(),
        s[w] == c,
        forall|i: int| w < i < s.len() ==> s[i] != c,
    ensures
        last_index_of(s, c) == w,
{
    lemma_last_index_of(s, c);
    let li = last_index_of(s, c);
    if li == -1 {
        assert(s[w] != c);
        assert(false);
    } else if li < w {
        assert(s[w] != c);
        assert(false);
    } else if li > w {
        assert(s[li] != c);
        assert(false);
    }
}

/// A sequence that holds the separator splits into at least two pieces.
pub proof fn lemma_split_on_contains(s: Seq<char>, c: char)
    requires
        first_index_of(s, c) >= 0,
    ensures
        split_on(s, c).len() >= 2,
    decreases s.len(),
{
    lemma_split_on_len(s, c);
    if s.len() == 0 {
        assert(first_index_of(s, c) == -1);
        assert(false);
    } else if s[0] == c {
        lemma_split_on_len(s.drop_first(), c);
        assert(split_on(s, c).len() == 1 + split_on(s.drop_first(), c).len());
    } else {
        lemma_split_on_len(s.drop_first(), c);
        lemma_split_on_contains(s.drop_first(), c);
        assert(split_on(s, c).len() == split_on(s.drop_first(), c).len());
    }
}

/// The last piece of a split is unaffected by anything before the last
/// separator.
pub proof fn lemma_split_on_last(a: Seq<char>, b: Seq<char>, c: char)
    ensures
        split_on(a + seq![c] + b, c).last() == split_on(b, c).last(),
    decreases a.len(),
{
    let s = a + seq![c] + b;
    lemma_split_on_len(b, c);
    lemma_split_on_len(s, c);
    if a.len() == 0 {
        assert(s =~= seq![c] + b);
        assert(s[0] == c);
        assert(s.drop_first() =~= b);
    } else {
        assert(s[0] == a[0]);
        assert(s.drop_first() =~= a.drop_first() + seq![c] + b);
        lemma_split_on_last(a.drop_first(), b, c);
        let rest = split_on(s.drop_first(), c);
        assert(a.drop_first() + seq![c] + b =~= s.drop_first());
        proof_split_contains_helper(a.drop_first(), b, c);
        assert(rest.len() >= 2);
        if s[0] == c {
        } else {
            assert(split_on(s, c) =~~= seq![seq![s[0]] + rest[0]] + rest.drop_first());
            assert(split_on(s, c).last() == rest.drop_first().last());
            assert(rest.drop_first().last() == rest.last());
        }
    }
}

proof fn proof_split_contains_helper(a: Seq<char>, b: Seq<char>, c: char)
    ensures
        split_on(a + seq![c] + b, c).len() >= 2,
{
    let s = a + seq![c] + b;
    assert(s[a.len() as int] == c);
    lemma_first_index_of(s, c);
    if first_index_of(s, c) == -1 {
        assert(s[a.len() as int] != c);
        assert(false);
    }
    lemma_split_on_contains(s, c);
}

/// True when `s` ends with `p`.
pub open spec fn ends_with(s: Seq<char>, p: Seq<char>) -> bool {
    p.len() <= s.len() && s.skip(s.len() - p.len()) == p
}

/// True when `s` starts with `p`.
pub open spec fn starts_with(s: Seq<char>, p: Seq<char>) -> bool {
    p.len() <= s.len() && s.take(p.len() as int) == p
}

// ---------------------------------------------------------------------------
// Executable helpers
// ---------------------------------------------------------------------------

/// The characters of `s` as a vector.
pub fn chars_of(s: &str) -> (r: Vec<char>)
    ensures
        r@ == s@,
{
    let n: usize = s.unicode_len();
    let mut r: Vec<char> = Vec::new();
    let mut i: usize = 0;
    while i < n
        invariant
            i <= n,
            n == s@.len(),
            r@ == s@.subrange(0, i as int),
        decreases n - i,
    {
        let c = s.get_char(i);
        r.push(c);
        assert(r@ =~= s@.subrange(0, i + 1));
        i = i + 1;
    }
    assert(r@ =~= s@);
    r
}

/// Relies on `core::iter::Iterator::collect` building a `String` that holds
/// exactly the characters of the vector, in order.
#[verifier::external_body]
pub fn string_from_chars(v: &Vec<char>) -> (r: String)
    ensures
        r@ == v@,
{
    v.iter().collect()
}

/// First occurrence of `c` in `v`.
pub fn find_char(v: &Vec<char>, c: char) -> (r: Option<usize>)
    ensures
        match r {
            Some(i) => first_index_of(v@, c) == i,
            None => first_index_of(v@, c) == -1,
        },
{
    let n: usize = v.len();
    let mut i: usize = 0;
    while i < n
        invariant
            i <= n,
            n == v@.len(),
            forall|j: int| 0 <= j < i ==> v@[j] != c,
        decreases n - i,
    {
        if v[i] == c {
            proof {
                lemma_first_index_of(v@, c);
            }
            return Some(i);
        }
        i = i + 1;
    }
    proof {
        lemma_first_index_of(v@, c);
    }
    None
}

/// The subrange `v[from..to]` as a fresh vector.
pub fn subvec(v: &Vec<char>, from: usize, to: usize) -> (r: Vec<char>)
    requires
        from <= to <= v@.len(),
    ensures
        r@ == v@.subrange(from as int, to as int),
{
    let mut r: Vec<char> = Vec::new();
    let mut i: usize = from;
    while i < to
        invariant
            from <= i <= to <= v@.len(),
            r@ == v@.subrange(from as int, i as int),
        decreases to - i,
    {
        let c = v[i];
        r.push(c);
        assert(r@ =~= v@.subrange(from as int, i + 1));
        i = i + 1;
    }
    r
}

/// Equality of a character vector and a string slice.
pub fn vec_eq_str(v: &Vec<char>, s: &str) -> (r: bool)
    ensures
        r == (v@ == s@),
{
    let n: usize = s.unicode_len();
    if v.len() != n {
        return false;
    }
    let mut i: usize = 0;
    while i < n
        invariant
            i <= n,
            n == s@.len(),
            n == v@.len(),
            forall|j: int| 0 <= j < i ==> v@[j] == s@[j],
        decreases n - i,
    {
        if v[i] != s.get_char(i) {
            return false;
        }
        i = i + 1;
    }
    proof {
        assert(v@ =~= s@);
    }
    true
}

/// Equality of two string slices, by characters.
pub fn str_eq(a: &str, b: &str) -> (r: bool)
    ensures
        r == (a@ == b@),
{
    let n: usize = a.unicode_len();
    if b.unicode_len() != n {
        return false;
    }
    let mut i: usize = 0;
    while i < n
        invariant
            i <= n,
            n == a@.len(),
            n == b@.len(),
            forall|j: int| 0 <= j < i ==> a@[j] == b@[j],
        decreases n - i,
    {
        if a.get_char(i) != b.get_char(i) {
            return false;
        }
        i = i + 1;
    }
    proof {
        assert(a@ =~= b@);
    }
    true
}

/// Equality of two character vectors.
pub fn vec_eq_vec(a: &Vec<char>, b: &Vec<char>) -> (r: bool)
    ensures
        r == (a@ == b@),
{
    let n: usize = a.len();
    if b.len() != n {
        return false;
    }
    let mut i: usize = 0;
    while i < n
        invariant
            i <= n,
            n == a@.len(),
            n == b@.len(),
            forall|j: int| 0 <= j < i ==> a@[j] == b@[j],
        decreases n - i,
    {
        if a[i] != b[i] {
            return false;
        }
        i = i + 1;
    }
    proof {
        assert(a@ =~= b@);
    }
    true
}

/// Whether `v` ends with the characters of `p`.
pub fn vec_ends_with_str(v: &Vec<char>, p: &str) -> (r: bool)
    ensures
        r == ends_with(v@, p@),
{
    let pn: usize = p.unicode_len();
    let n: usize = v.len();
    if pn > n {
        return false;
    }
    let start: usize = n - pn;
    let mut i: usize = 0;
    while i < pn
        invariant
            i <= pn,
            pn == p@.len(),
            n == v@.len(),
            pn <= n,
            start == n - pn,
            forall|j: int| 0 <= j < i ==> v@[start + j] == p@[j],
        decreases pn - i,
    {
        if v[start + i] != p.get_char(i) {
            assert(v@.skip(n - pn) != p@) by {
                assert(v@.skip(n - pn)[i as int] == v@[start + i]);
            }
            return false;
        }
        i = i + 1;
    }
    proof {
        assert(v@.skip(n - pn) =~= p@);
    }
    true
}

/// Whether `v` starts with the characters of `p`.
pub fn vec_starts_with_str(v: &Vec<char>, p: &str) -> (r: bool)
    ensures
        r == starts_with(v@, p@),
{
    let pn: usize = p.unicode_len();
    let n: usize = v.len();
    if pn > n {
        return false;
    }
    let mut i: usize = 0;
    while i < pn
        invariant
            i <= pn,
            pn == p@.len(),
            n == v@.len(),
            pn <= n,
            forall|j: int| 0 <= j < i ==> v@[j] == p@[j],
        decreases pn - i,
    {
        if v[i] != p.get_char(i) {
            assert(v@.take(pn as int) != p@) by {
                assert(v@.take(pn as int)[i as int] == v@[i as int]);
            }
            return false;
        }
        i = i + 1;
    }
    proof {
        assert(v@.take(pn as int) =~= p@);
    }
    true
}

/// `v` split at every occurrence of `c`.
pub fn split_vec(v: &Vec<char>, c: char) -> (r: Vec<Vec<char>>)
    ensures
        r.deep_view() == split_on(v@, c),
        r@.len() >= 1,
{
    let n: usize = v.len();
    let mut parts: Vec<Vec<char>> = Vec::new();
    let mut cur: Vec<char> = Vec::new();
    let mut i: usize = 0;
    proof {
        lemma_split_on_len(v@, c);
        assert(v@.skip(0) =~= v@);
        assert(parts.deep_view() =~~= Seq::<Seq<char>>::empty());
        assert(parts.deep_view() + seq![cur@ + split_on(v@, c)[0]] + split_on(
            v@,
            c,
        ).drop_first() =~~= split_on(v@, c));
    }
    while i < n
        invariant
            i <= n,
            n == v@.len(),
            split_on(v@.skip(i as int), c).len() >= 1,
            split_on(v@, c) == parts.deep_view() + seq![
                cur@ + split_on(v@.skip(i as int), c)[0],
            ] + split_on(v@.skip(i as int), c).drop_first(),
        decreases n - i,
    {
        proof {
            assert(v@.skip(i as int).drop_first() =~= v@.skip(i + 1));
            lemma_split_on_len(v@.skip(i + 1), c);
        }
        let ghost tail = split_on(v@.skip(i + 1), c);
        let ghost here = split_on(v@.skip(i as int), c);
        proof {
            assert(v@.skip(i as int)[0] == v@[i as int]);
            assert(v@.skip(i as int).len() > 0);
        }
        if v[i] == c {
            proof {
                assert(here =~~= seq![Seq::<char>::empty()] + tail);
            }
            let ghost old_dv = parts.deep_view();
            let ghost old_cur = cur@;
            parts.push(cur);
            cur = Vec::new();
            proof {
                assert(parts.deep_view() =~~= old_dv.push(old_cur));
                assert(old_cur + here[0] =~= old_cur);
                assert(parts.deep_view() + seq![cur@ + tail[0]] + tail.drop_first() =~~= split_on(
                    v@,
                    c,
                ));
            }
        } else {
            let x = v[i];
            let ghost old_dv = parts.deep_view();
            let ghost old_cur = cur@;
            cur.push(x);
            proof {
                assert(parts.deep_view() =~~= old_dv);
                assert(here =~~= seq![seq![v@[i as int]] + tail[0]] + tail.drop_first());
                assert(old_cur + here[0] =~= cur@ + tail[0]);
                assert(parts.deep_view() + seq![cur@ + tail[0]] + tail.drop_first() =~~= split_on(
                    v@,
                    c,
                ));
            }
        }
        i = i + 1;
    }
    proof {
        assert(v@.skip(n as int) =~= Seq::<char>::empty());
        assert(split_on(v@.skip(n as int), c) =~~= seq![Seq::<char>::empty()]);
    }
    let ghost old_dv = parts.deep_view();
    let ghost old_cur = cur@;
    parts.push(cur);
    proof {
        assert(parts.deep_view() =~~= old_dv.push(old_cur));
        assert(old_cur + Seq::<char>::empty() =~= old_cur);
        assert(parts.deep_view() =~~= split_on(v@, c));
        assert(parts.deep_view().len() == parts@.len());
    }
    parts
}

/// The text before the first occurrence of `c`, or all of `s` when `c` is
/// absent: the first piece of the split.
pub fn before_first_char(s: &str, c: char) -> (r: Vec<char>)
    ensures
        r@ == split_on(s@, c)[0],
{
    let v = chars_of(s);
    let pos = find_char(&v, c);
    match pos {
        None => {
            proof {
                lemma_first_index_of(v@, c);
                lemma_split_on_whole(v@, c);
            }
            v
        },
        Some(i) => {
            proof {
                lemma_first_index_of(v@, c);
                assert(v@.take(i as int) + seq![c] + v@.skip(i + 1) =~= v@);
                lemma_split_on_concat(v@.take(i as int), v@.skip(i + 1), c);
            }
            let r = subvec(&v, 0, i);
            proof {
                assert(r@ =~= v@.take(i as int));
            }
            r
        },
    }
}

/// The text after the last occurrence of `c`, or all of `s` when `c` is
/// absent: the last piece of the split.
pub fn last_segment_after(s: &str, c: char) -> (r: Vec<char>)
    ensures
        r@ == split_on(s@, c).last(),
{
    let v = chars_of(s);
    let n: usize = v.len();
    let mut j: usize = n;
    while j > 0
        invariant
            j <= n,
            n == v@.len(),
            v@ == s@,
            forall|i: int| j <= i < n ==> v@[i] != c,
        decreases j,
    {
        if v[j - 1] == c {
            proof {
                lemma_last_index_is(v@, c, j - 1);
                assert(v@.take(j - 1) + seq![c] + v@.skip(j as int) =~= v@);
                lemma_split_on_last(v@.take(j - 1), v@.skip(j as int), c);
                assert forall|i: int|
                    0 <= i < v@.skip(j as int).len() implies v@.skip(j as int)[i] != c by {
                    assert(v@.skip(j as int)[i] == v@[i + j]);
                }
                lemma_split_on_whole(v@.skip(j as int), c);
                lemma_split_on_len(v@.skip(j as int), c);
            }
            let r = subvec(&v, j, n);
            proof {
                assert(r@ =~= v@.skip(j as int));
                assert(split_on(v@.skip(j as int), c).last() == v@.skip(j as int));
            }
            return r;
        }
        j = j - 1;
    }
    proof {
        lemma_split_on_whole(v@, c);
        lemma_split_on_len(v@, c);
    }
    v
}

// ---------------------------------------------------------------------------
// Decimal numbers
// ---------------------------------------------------------------------------

/// The decimal digit character of `d`, for `0 <= d <= 9`.
pub open spec fn dec_digit(d: int) -> char {
    if d == 0 {
        '0'
    } else if d == 1 {
        '1'
    } else if d == 2 {
        '2'
    } else if d == 3 {
        '3'
    } else if d == 4 {
        '4'
    } else if d == 5 {
        '5'
    } else if d == 6 {
        '6'
    } else if d == 7 {
        '7'
    } else if d == 8 {
        '8'
    } else {
        '9'
    }
}

/// Decimal notation of the nonnegative number `n`, without leading zeros.
pub open spec fn dec_str(n: int) -> Seq<char>
    decreases n,
{
    if n < 10 {
        seq![dec_digit(n)]
    } else {
        dec_str(n / 10).push(dec_digit(n % 10))
    }
}

fn dec_digit_exec(d: u64) -> (r: char)
    requires
        d <= 9,
    ensures
        r == dec_digit(d as int),
{
    if d == 0 {
        '0'
    } else if d == 1 {
        '1'
    } else if d == 2 {
        '2'
    } else if d == 3 {
        '3'
    } else if d == 4 {
        '4'
    } else if d == 5 {
        '5'
    } else if d == 6 {
        '6'
    } else if d == 7 {
        '7'
    } else if d == 8 {
        '8'
    } else {
        '9'
    }
}

/// The decimal notation of `n`.
pub fn u64_dec_chars(n: u64) -> (r: Vec<char>)
    ensures
        r@ == dec_str(n as int),
    decreases n,
{
    if n < 10 {
        let mut r: Vec<char> = Vec::new();
        r.push(dec_digit_exec(n));
        assert(r@ =~= dec_str(n as int));
        r
    } else {
        let mut r = u64_dec_chars(n / 10);
        r.push(dec_digit_exec(n % 10));
        assert(r@ =~= dec_str(n as int));
        r
    }
}

/// True when `c` is an ASCII decimal digit.
pub open spec fn is_digit(c: char) -> bool {
    48 <= c as u32 <= 57
}

/// The numeric value of the digit `c`.
pub open spec fn digit_val(c: char) -> int {
    c as u32 - 48
}

/// The number written in `s`, read as decimal digits.
pub open spec fn dec_val(s: Seq<char>) -> int
    decreases s.len(),
{
    if s.len() == 0 {
        0
    } else {
        dec_val(s.drop_last()) * 10 + digit_val(s.last())
    }
}

pub proof fn lemma_dec_val_nonneg(s: Seq<char>)
    requires
        forall|i: int| 0 <= i < s.len() ==> is_digit(#[trigger] s[i]),
    ensures
        dec_val(s) >= 0,
    decreases s.len(),
{
    if s.len() > 0 {
        lemma_dec_val_nonneg(s.drop_last());
    }
}

/// Reads `v[from..to]` as a decimal number.  `None` when the value does not
/// fit in a `u64`.
pub fn parse_dec_u64(v: &Vec<char>, from: usize, to: usize) -> (r: Option<u64>)
    requires
        from <= to <= v@.len(),
        forall|i: int| from <= i < to ==> is_digit(#[trigger] v@[i]),
    ensures
        match r {
            Some(x) => x as int == dec_val(v@.subrange(from as int, to as int)),
            None => dec_val(v@.subrange(from as int, to as int)) > u64::MAX,
        },
{
    let mut acc: u64 = 0;
    let mut i: usize = from;
    while i < to
        invariant
            from <= i <= to <= v@.len(),
            forall|j: int| from <= j < to ==> is_digit(#[trigger] v@[j]),
            acc as int == dec_val(v@.subrange(from as int, i as int)),
        decreases to - i,
    {
        let c = v[i];
        proof {
            assert(is_digit(v@[i as int]));
        }
        let d: u64 = (c as u32 as u64) - 48;
        proof {
            assert(v@.subrange(from as int, i + 1).drop_last() =~= v@.subrange(
                from as int,
                i as int,
            ));
            assert(v@.subrange(from as int, i + 1).last() == v@[i as int]);
            assert(dec_val(v@.subrange(from as int, i + 1)) == acc * 10 + d);
        }
        if acc > u64::MAX / 10 || (acc == u64::MAX / 10 && d > u64::MAX % 10) {
            proof {
                let whole = v@.subrange(from as int, to as int);
                let part = v@.subrange(from as int, i + 1);
                assert(part =~= whole.subrange(0, part.len() as int));
                lemma_dec_grows(whole, part);
                assert(u64::MAX as int == 10 * (u64::MAX as int / 10) + (u64::MAX as int % 10));
                assert(dec_val(part) > u64::MAX);
            }
            return None;
        }
        proof {
            assert(u64::MAX as int == 10 * (u64::MAX as int / 10) + (u64::MAX as int % 10));
            assert(acc * 10 + d <= u64::MAX);
        }
        acc = acc * 10 + d;
        i = i + 1;
    }
    proof {
        assert(v@.subrange(from as int, to as int) =~= v@.subrange(from as int, i as int));
    }
    Some(acc)
}

/// A longer digit string never denotes a smaller number.
proof fn lemma_dec_grows(whole: Seq<char>, part: Seq<char>)
    requires
        forall|i: int| 0 <= i < whole.len() ==> is_digit(#[trigger] whole[i]),
        part.len() <= whole.len(),
        part == whole.subrange(0, part.len() as int),
    ensures
        dec_val(whole) >= dec_val(part),
    decreases whole.len() - part.len(),
{
    if part.len() < whole.len() {
        let next = whole.subrange(0, part.len() as int + 1);
        assert(next.drop_last() =~= part);
        lemma_dec_val_nonneg(part);
        assert(next.last() == whole[part.len() as int]);
        assert(is_digit(next.last()));
        assert(digit_val(next.last()) >= 0);
        assert(dec_val(next) == dec_val(part) * 10 + digit_val(next.last()));
        assert(dec_val(next) >= dec_val(part));
        lemma_dec_grows(whole, next);
    } else {
        assert(whole.subrange(0, whole.len() as int) =~= whole);
    }
}

// ---------------------------------------------------------------------------
// Lexicographic order
// ---------------------------------------------------------------------------

/// Lexicographic order on character sequences, by code point.
pub open spec fn lex_le(a: Seq<char>, b: Seq<char>) -> bool
    decreases a.len(),
{
    if a.len() == 0 {
        true
    } else if b.len() == 0 {
        false
    } else if (a[0] as u32) < (b[0] as u32) {
        true
    } else if (a[0] as u32) > (b[0] as u32) {
        false
    } else {
        lex_le(a.drop_first(), b.drop_first())
    }
}

/// Decides `lex_le` on two vectors.
pub fn vec_lex_le(a: &Vec<char>, b: &Vec<char>) -> (r: bool)
    ensures
        r == lex_le(a@, b@),
{
    let an: usize = a.len();
    let bn: usize = b.len();
    let mut i: usize = 0;
    proof {
        assert(a@.skip(0) =~= a@);
        assert(b@.skip(0) =~= b@);
    }
    while i < an && i < bn
        invariant
            i <= an,
            i <= bn,
            an == a@.len(),
            bn == b@.len(),
            lex_le(a@, b@) == lex_le(a@.skip(i as int), b@.skip(i as int)),
        decreases an - i,
    {
        proof {
            assert(a@.skip(i as int).drop_first() =~= a@.skip(i + 1));
            assert(b@.skip(i as int).drop_first() =~= b@.skip(i + 1));
            assert(a@.skip(i as int)[0] == a@[i as int]);
            assert(b@.skip(i as int)[0] == b@[i as int]);
        }
        let ca = a[i] as u32;
        let cb = b[i] as u32;
        if ca < cb {
            return true;
        }
        if ca > cb {
            return false;
        }
        i = i + 1;
    }
    proof {
        if i >= an {
            assert(a@.skip(i as int) =~= Seq::<char>::empty());
        } else {
            assert(b@.skip(i as int) =~= Seq::<char>::empty());
            assert(a@.skip(i as int).len() > 0);
        }
    }
    i >= an
}

} // verus!
