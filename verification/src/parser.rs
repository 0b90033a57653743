//! The unit-file grammar: `[Section]` headers, `Key=Value` entries,
//! trailing-backslash line continuation, `#`/`;` comment lines and blank
//! lines.
//!
//! The text is first split into physical lines, then every line that ends
//! in a backslash is joined with the following line (the backslash and the
//! newline are removed and no separator is inserted), and the resulting
//! logical lines are classified one by one.  Keys and values are taken
//! verbatim: no whitespace is trimmed around `=`.

use vstd::prelude::*;
use crate::error::{Error, Expected};
use crate::text::{
    chars_of, find_char, first_index_of, lemma_first_index_is, lemma_first_index_of,
    lemma_split_on_concat, split_on, split_vec, string_from_chars, subvec,
};

verus! {

// ---------------------------------------------------------------------------
// Parsed data
// ---------------------------------------------------------------------------

/// One `Key=Value` pair.
#[derive(Debug, Clone)]
pub struct Entry {
    pub key: String,
    pub value: String,
}

/// The model of an [`Entry`].
pub struct EntryModel {
    pub key: Seq<char>,
    pub value: Seq<char>,
}

impl View for Entry {
    type V = EntryModel;

    open spec fn view(&self) -> EntryModel {
        EntryModel { key: self.key@, value: self.value@ }
    }
}

impl DeepView for Entry {
    type V = EntryModel;

    open spec fn deep_view(&self) -> EntryModel {
        self.view()
    }
}

/// One section: a name and its entries in document order.  Duplicate keys
/// are passed through unfiltered; override policy belongs to the consumer.
#[derive(Debug, Clone)]
pub struct Section {
    pub name: String,
    pub entries: Vec<Entry>,
}

/// The model of a [`Section`].
pub struct SectionModel {
    pub name: Seq<char>,
    pub entries: Seq<EntryModel>,
}

impl View for Section {
    type V = SectionModel;

    open spec fn view(&self) -> SectionModel {
        SectionModel { name: self.name@, entries: self.entries.deep_view() }
    }
}

impl DeepView for Section {
    type V = SectionModel;

    open spec fn deep_view(&self) -> SectionModel {
        self.view()
    }
}

/// The model of a parse failure.
pub enum ParseErr {
    Syntax { line: int, expect: Expected },
    NoSection,
}

// ---------------------------------------------------------------------------
// The grammar as a specification
// ---------------------------------------------------------------------------

/// Joins every line that ends in a backslash with the following line,
/// removing the backslash; a backslash on the final line stays as it is.
pub open spec fn join_continuations(lines: Seq<Seq<char>>) -> Seq<Seq<char>>
    decreases lines.len(),
{
    if lines.len() == 0 {
        lines
    } else if lines.len() >= 2 && lines[0].len() > 0 && lines[0].last() == '\\' {
        join_continuations(seq![lines[0].drop_last() + lines[1]] + lines.skip(2))
    } else {
        seq![lines[0]] + join_continuations(lines.drop_first())
    }
}

/// A line of only spaces and tabs (or nothing) is skipped.
pub open spec fn is_blank(l: Seq<char>) -> bool {
    forall|i: int| 0 <= i < l.len() ==> l[i] == ' ' || l[i] == '\t'
}

/// What one logical line means.
pub enum LineKind {
    Blank,
    Comment,
    Header { name: Seq<char> },
    Pair { key: Seq<char>, value: Seq<char> },
    Malformed { expect: Expected },
}

/// Classifies one logical line.  A header is `[` + nonempty name without
/// `]` + `]`; an entry is a nonempty key before the first `=` and the rest
/// of the line as value.
pub open spec fn classify_line(l: Seq<char>) -> LineKind {
    if is_blank(l) {
        LineKind::Blank
    } else if l[0] == '#' || l[0] == ';' {
        LineKind::Comment
    } else if l[0] == '[' {
        if l.len() >= 3 && first_index_of(l, ']') == l.len() - 1 {
            LineKind::Header { name: l.subrange(1, l.len() - 1) }
        } else {
            LineKind::Malformed { expect: Expected::HeaderClose }
        }
    } else {
        let e = first_index_of(l, '=');
        if e > 0 {
            LineKind::Pair { key: l.take(e), value: l.skip(e + 1) }
        } else if e == 0 {
            LineKind::Malformed { expect: Expected::Key }
        } else {
            LineKind::Malformed { expect: Expected::Entry }
        }
    }
}

/// Folds the logical lines into sections, front to back.  `done` holds the
/// finished sections, `cur` the section whose header was seen last.
pub open spec fn build_sections(
    lines: Seq<Seq<char>>,
    lineno: int,
    done: Seq<SectionModel>,
    cur: Option<SectionModel>,
) -> Result<Seq<SectionModel>, ParseErr>
    decreases lines.len(),
{
    if lines.len() == 0 {
        match cur {
            Option::None => Ok(done),
            Option::Some(s) => Ok(done.push(s)),
        }
    } else {
        match classify_line(lines[0]) {
            LineKind::Blank => build_sections(lines.drop_first(), lineno + 1, done, cur),
            LineKind::Comment => build_sections(lines.drop_first(), lineno + 1, done, cur),
            LineKind::Header { name } => match cur {
                Option::None => build_sections(
                    lines.drop_first(),
                    lineno + 1,
                    done,
                    Some(SectionModel { name, entries: seq![] }),
                ),
                Option::Some(s) => build_sections(
                    lines.drop_first(),
                    lineno + 1,
                    done.push(s),
                    Some(SectionModel { name, entries: seq![] }),
                ),
            },
            LineKind::Pair { key, value } => match cur {
                Option::None => Err(ParseErr::Syntax { line: lineno, expect: Expected::SectionHeader }),
                Option::Some(s) => build_sections(
                    lines.drop_first(),
                    lineno + 1,
                    done,
                    Some(
                        SectionModel {
                            name: s.name,
                            entries: s.entries.push(EntryModel { key, value }),
                        },
                    ),
                ),
            },
            LineKind::Malformed { expect } => Err(ParseErr::Syntax { line: lineno, expect }),
        }
    }
}

/// What parsing `s` yields: the sections in document order, or the first
/// failure.  With `allow_empty` unset, a document without any section is
/// rejected.
pub open spec fn parse_model(s: Seq<char>, allow_empty: bool) -> Result<
    Seq<SectionModel>,
    ParseErr,
> {
    let lines = join_continuations(split_on(s, '\n'));
    match build_sections(lines, 1, seq![], Option::None) {
        Err(e) => Err(e),
        Ok(ss) => if ss.len() == 0 && !allow_empty {
            Err(ParseErr::NoSection)
        } else {
            Ok(ss)
        },
    }
}

// ---------------------------------------------------------------------------
// The single-section, single-entry law
// ---------------------------------------------------------------------------

/// Every well-formed document `[S]` newline `K=V` newline parses to exactly
/// one section named `S` holding the single entry `(K, V)`.
///
/// Well-formedness asks only what the grammar itself asks: the section name
/// is nonempty and free of `]` and newlines; the key is nonempty, free of
/// `=` and newlines and does not begin a comment, a header or a blank line;
/// the value is free of newlines and does not end in the continuation
/// backslash.
pub proof fn lemma_parse_single_entry(s: Seq<char>, k: Seq<char>, v: Seq<char>, allow_empty: bool)
    requires
        s.len() > 0,
        forall|i: int| 0 <= i < s.len() ==> s[i] != ']' && s[i] != '\n',
        k.len() > 0,
        forall|i: int| 0 <= i < k.len() ==> k[i] != '=' && k[i] != '\n',
        k[0] != '[' && k[0] != '#' && k[0] != ';' && k[0] != ' ' && k[0] != '\t',
        forall|i: int| 0 <= i < v.len() ==> v[i] != '\n',
        v.len() == 0 || v.last() != '\\',
    ensures
        parse_model(
            seq!['['] + s + seq![']', '\n'] + k + seq!['='] + v + seq!['\n'],
            allow_empty,
        ) == Ok::<Seq<SectionModel>, ParseErr>(
            seq![SectionModel { name: s, entries: seq![EntryModel { key: k, value: v }] }],
        ),
{
    let input = seq!['['] + s + seq![']', '\n'] + k + seq!['='] + v + seq!['\n'];
    let l1 = seq!['['] + s + seq![']'];
    let l2 = k + seq!['='] + v;
    let l3 = Seq::<char>::empty();

    // 1. the physical lines
    assert(input =~= l1 + seq!['\n'] + (l2 + seq!['\n'] + l3));
    assert(forall|i: int| 0 <= i < l1.len() ==> l1[i] != '\n');
    assert(forall|i: int| 0 <= i < l2.len() ==> l2[i] != '\n');
    lemma_split_on_concat(l1, l2 + seq!['\n'] + l3, '\n');
    lemma_split_on_concat(l2, l3, '\n');
    assert(split_on(l3, '\n') =~~= seq![l3]);
    let lines = split_on(input, '\n');
    assert(lines =~~= seq![l1, l2, l3]);

    // 2. no line ends in a backslash, so continuation joining is identity
    assert(l1.last() == ']');
    assert(l2.last() != '\\') by {
        if v.len() == 0 {
            assert(l2.last() == '=');
        } else {
            assert(l2.last() == v.last());
        }
    }
    assert(join_continuations(lines) =~~= lines) by {
        assert(lines.drop_first() =~= seq![l2, l3]);
        assert(seq![l2, l3].drop_first() =~= seq![l3]);
        assert(seq![l3].drop_first() =~= Seq::<Seq<char>>::empty());
        assert(join_continuations(Seq::<Seq<char>>::empty()) =~~= Seq::<Seq<char>>::empty());
        assert(join_continuations(seq![l3]) =~~= seq![l3]);
        assert(join_continuations(seq![l2, l3]) =~~= seq![l2, l3]);
    }

    // 3. the three lines classify as header, entry, blank
    assert(classify_line(l1) == LineKind::Header { name: s }) by {
        assert(l1[0] == '[');
        assert(!is_blank(l1));
        assert(forall|i: int| 1 <= i < l1.len() - 1 ==> l1[i] == s[i - 1]);
        assert(forall|i: int| 0 <= i < l1.len() - 1 ==> l1[i] != ']');
        assert(l1[l1.len() - 1] == ']');
        lemma_first_index_is(l1, ']', l1.len() - 1);
        assert(l1.subrange(1, l1.len() - 1) =~= s);
    }
    assert(classify_line(l2) == LineKind::Pair { key: k, value: v }) by {
        assert(l2[k.len() as int] == '=');
        assert(!is_blank(l2));
        assert(l2[0] == k[0]);
        assert(forall|i: int| 0 <= i < k.len() ==> l2[i] == k[i]);
        lemma_first_index_is(l2, '=', k.len() as int);
        assert(l2.take(k.len() as int) =~= k);
        assert(l2.skip(k.len() as int + 1) =~= v);
    }
    assert(classify_line(l3) == LineKind::Blank);

    // 4. folding the lines builds the one section
    let sec0 = SectionModel { name: s, entries: seq![] };
    let sec1 = SectionModel { name: s, entries: seq![EntryModel { key: k, value: v }] };
    assert(lines.drop_first() =~= seq![l2, l3]);
    assert(seq![l2, l3].drop_first() =~= seq![l3]);
    assert(seq![l3].drop_first() =~= Seq::<Seq<char>>::empty());
    assert(Seq::<SectionModel>::empty().push(sec1) =~= seq![sec1]);
    assert(build_sections(Seq::<Seq<char>>::empty(), 4, seq![], Some(sec1))
        == Ok::<Seq<SectionModel>, ParseErr>(seq![sec1]));
    assert(build_sections(seq![l3], 3, seq![], Some(sec1)) == Ok::<Seq<SectionModel>, ParseErr>(
        seq![sec1],
    ));
    assert(sec0.entries.push(EntryModel { key: k, value: v }) =~= sec1.entries);
    assert(build_sections(seq![l2, l3], 2, seq![], Some(sec0)) == Ok::<
        Seq<SectionModel>,
        ParseErr,
    >(seq![sec1]));
    assert(build_sections(lines, 1, seq![], Option::None) == Ok::<Seq<SectionModel>, ParseErr>(
        seq![sec1],
    ));
}

// ---------------------------------------------------------------------------
// Executable parser
// ---------------------------------------------------------------------------

fn is_blank_exec(l: &Vec<char>) -> (r: bool)
    ensures
        r == is_blank(l@),
{
    let n: usize = l.len();
    let mut i: usize = 0;
    while i < n
        invariant
            i <= n,
            n == l@.len(),
            forall|j: int| 0 <= j < i ==> l@[j] == ' ' || l@[j] == '\t',
        decreases n - i,
    {
        let c = l[i];
        if c != ' ' && c != '\t' {
            return false;
        }
        i = i + 1;
    }
    true
}

fn join_lines(lines: Vec<Vec<char>>) -> (r: Vec<Vec<char>>)
    ensures
        r.deep_view() == join_continuations(lines.deep_view()),
{
    let ghost orig = lines.deep_view();
    let mut rest = lines;
    let mut out: Vec<Vec<char>> = Vec::new();
    proof {
        assert(out.deep_view() =~~= Seq::<Seq<char>>::empty());
        assert(out.deep_view() + join_continuations(rest.deep_view()) =~~= join_continuations(
            orig,
        ));
    }
    while rest.len() > 0
        invariant
            join_continuations(orig) == out.deep_view() + join_continuations(rest.deep_view()),
        decreases rest.len(),
    {
        let ghost rest0 = rest.deep_view();
        let ghost len0 = rest.len();
        let mut cur = rest.remove(0);
        proof {
            assert(rest.deep_view() =~~= rest0.drop_first());
            assert(cur.deep_view() =~= cur@);
            assert(rest0[0] == cur@);
            assert(seq![cur@] + rest.deep_view() =~~= rest0);
        }
        while cur.len() > 0 && cur[cur.len() - 1] == '\\' && rest.len() > 0
            invariant
                rest.len() < len0,
                join_continuations(orig) == out.deep_view() + join_continuations(
                    seq![cur@] + rest.deep_view(),
                ),
            decreases rest.len(),
        {
            let ghost state = seq![cur@] + rest.deep_view();
            proof {
                assert(state.len() >= 2);
                assert(state[0] == cur@);
                assert(state[0].last() == '\\');
            }
            cur.pop();
            let mut nxt = rest.remove(0);
            proof {
                assert(state[1] == nxt@);
            }
            cur.append(&mut nxt);
            proof {
                assert(seq![cur@] + rest.deep_view() =~~= seq![state[0].drop_last() + state[1]]
                    + state.skip(2));
            }
        }
        proof {
            let state = seq![cur@] + rest.deep_view();
            assert(state[0] == cur@);
            assert(!(state.len() >= 2 && state[0].len() > 0 && state[0].last() == '\\'));
            assert(state.drop_first() =~~= rest.deep_view());
            assert(join_continuations(state) == seq![cur@] + join_continuations(
                rest.deep_view(),
            ));
        }
        let ghost out0 = out.deep_view();
        let ghost cur0 = cur@;
        out.push(cur);
        proof {
            assert(out.deep_view() =~~= out0.push(cur0));
            assert(out.deep_view() + join_continuations(rest.deep_view()) =~~= out0 + (seq![cur0]
                + join_continuations(rest.deep_view())));
        }
    }
    proof {
        assert(rest.deep_view() =~~= Seq::<Seq<char>>::empty());
        assert(join_continuations(rest.deep_view()) =~~= Seq::<Seq<char>>::empty());
        assert(out.deep_view() =~~= join_continuations(orig));
    }
    out
}

/// The model of the parser's running state.
pub open spec fn cur_model(has_cur: bool, name: Seq<char>, entries: Seq<EntryModel>) -> Option<
    SectionModel,
> {
    if has_cur {
        Some(SectionModel { name, entries })
    } else {
        Option::None
    }
}

/// Parses unit-file text into its sections.
///
/// Returns exactly what [`parse_model`] ascribes to the input: the sections
/// in document order with their entries verbatim, a [`Error::SyntaxError`]
/// naming the first offending logical line, or [`Error::NoSectionError`]
/// when the document has no section and `allow_empty` is unset.
pub fn parse(input: &str, allow_empty: bool) -> (r: Result<Vec<Section>, Error>)
    ensures
        match r {
            Ok(sections) => parse_model(input@, allow_empty) == Ok::<Seq<SectionModel>, ParseErr>(
                sections.deep_view(),
            ),
            Err(e) => match e {
                Error::SyntaxError { line, expect } => parse_model(input@, allow_empty) == Err::<
                    Seq<SectionModel>,
                    ParseErr,
                >(ParseErr::Syntax { line: line as int, expect }),
                Error::NoSectionError => parse_model(input@, allow_empty) == Err::<
                    Seq<SectionModel>,
                    ParseErr,
                >(ParseErr::NoSection),
                _ => false,
            },
        },
{
    let v = chars_of(input);
    let raw = split_vec(&v, '\n');
    let lines = join_lines(raw);
    let ghost ldv = lines.deep_view();
    proof {
        assert(ldv == join_continuations(split_on(input@, '\n')));
    }
    let n: usize = lines.len();
    let mut done: Vec<Section> = Vec::new();
    let mut has_cur: bool = false;
    let mut cur_name: String = String::new();
    let mut cur_entries: Vec<Entry> = Vec::new();
    let mut idx: usize = 0;
    proof {
        assert(ldv.skip(0) =~~= ldv);
        assert(done.deep_view() =~~= Seq::<SectionModel>::empty());
    }
    while idx < n
        invariant
            idx <= n,
            n == ldv.len(),
            ldv == lines.deep_view(),
            ldv == join_continuations(split_on(input@, '\n')),
            build_sections(ldv, 1, seq![], Option::None) == build_sections(
                ldv.skip(idx as int),
                idx + 1,
                done.deep_view(),
                cur_model(has_cur, cur_name@, cur_entries.deep_view()),
            ),
        decreases n - idx,
    {
        let l = &lines[idx];
        let ghost lm = l@;
        let ghost restl = ldv.skip(idx as int);
        let ghost done_top = done.deep_view();
        let ghost cur_top = cur_model(has_cur, cur_name@, cur_entries.deep_view());
        proof {
            assert(restl[0] == ldv[idx as int]);
            assert(ldv[idx as int] =~= lm);
            assert(restl.drop_first() =~= ldv.skip(idx + 1));
        }
        let ln: usize = l.len();
        if is_blank_exec(l) {
            proof {
                assert(classify_line(lm) is Blank);
                assert(build_sections(restl, idx + 1, done_top, cur_top) == build_sections(
                    ldv.skip(idx + 1),
                    idx + 2,
                    done.deep_view(),
                    cur_model(has_cur, cur_name@, cur_entries.deep_view()),
                ));
            }
        } else {
            let c0 = l[0];
            if c0 == '#' || c0 == ';' {
                proof {
                    assert(classify_line(lm) is Comment);
                    assert(build_sections(restl, idx + 1, done_top, cur_top) == build_sections(
                        ldv.skip(idx + 1),
                        idx + 2,
                        done.deep_view(),
                        cur_model(has_cur, cur_name@, cur_entries.deep_view()),
                    ));
                }
            } else if c0 == '[' {
                let close = find_char(l, ']');
                let ok: bool = match close {
                    Some(j) => ln >= 3 && j == ln - 1,
                    None => false,
                };
                proof {
                    lemma_first_index_of(lm, ']');
                }
                if ok {
                    let name = subvec(l, 1, ln - 1);
                    proof {
                        assert(name@ =~= lm.subrange(1, lm.len() - 1));
                        assert(classify_line(lm) == LineKind::Header { name: name@ });
                    }
                    if has_cur {
                        let ghost done0 = done.deep_view();
                        let ghost secm = SectionModel {
                            name: cur_name@,
                            entries: cur_entries.deep_view(),
                        };
                        done.push(Section { name: cur_name, entries: cur_entries });
                        proof {
                            assert(done.deep_view() =~~= done0.push(secm));
                        }
                        cur_name = string_from_chars(&name);
                        cur_entries = Vec::new();
                    } else {
                        cur_name = string_from_chars(&name);
                        cur_entries = Vec::new();
                    }
                    has_cur = true;
                    proof {
                        assert(cur_entries.deep_view() =~~= Seq::<EntryModel>::empty());
                        assert(build_sections(restl, idx + 1, done_top, cur_top)
                            == build_sections(
                            ldv.skip(idx + 1),
                            idx + 2,
                            done.deep_view(),
                            cur_model(has_cur, cur_name@, cur_entries.deep_view()),
                        ));
                    }
                } else {
                    proof {
                        assert(classify_line(lm) == LineKind::Malformed {
                            expect: Expected::HeaderClose,
                        });
                        assert(build_sections(restl, idx + 1, done_top, cur_top) == Err::<
                            Seq<SectionModel>,
                            ParseErr,
                        >(ParseErr::Syntax { line: idx + 1, expect: Expected::HeaderClose }));
                    }
                    return Err(Error::SyntaxError { line: idx + 1, expect: Expected::HeaderClose });
                }
            } else {
                let eq = find_char(l, '=');
                proof {
                    lemma_first_index_of(lm, '=');
                }
                match eq {
                    Some(e) => {
                        if e > 0 {
                            let key = subvec(l, 0, e);
                            let value = subvec(l, e + 1, ln);
                            proof {
                                assert(key@ =~= lm.take(first_index_of(lm, '=')));
                                assert(value@ =~= lm.skip(first_index_of(lm, '=') + 1));
                                assert(classify_line(lm) == LineKind::Pair {
                                    key: key@,
                                    value: value@,
                                });
                            }
                            if has_cur {
                                let entry = Entry {
                                    key: string_from_chars(&key),
                                    value: string_from_chars(&value),
                                };
                                let ghost entries0 = cur_entries.deep_view();
                                let ghost em = entry@;
                                cur_entries.push(entry);
                                proof {
                                    assert(cur_entries.deep_view() =~~= entries0.push(em));
                                    assert(build_sections(restl, idx + 1, done_top, cur_top)
                                        == build_sections(
                                        ldv.skip(idx + 1),
                                        idx + 2,
                                        done.deep_view(),
                                        cur_model(has_cur, cur_name@, cur_entries.deep_view()),
                                    ));
                                }
                            } else {
                                proof {
                                    assert(build_sections(restl, idx + 1, done_top, cur_top)
                                        == Err::<Seq<SectionModel>, ParseErr>(
                                        ParseErr::Syntax {
                                            line: idx + 1,
                                            expect: Expected::SectionHeader,
                                        },
                                    ));
                                }
                                return Err(
                                    Error::SyntaxError {
                                        line: idx + 1,
                                        expect: Expected::SectionHeader,
                                    },
                                );
                            }
                        } else {
                            proof {
                                assert(classify_line(lm) == LineKind::Malformed {
                                    expect: Expected::Key,
                                });
                                assert(build_sections(restl, idx + 1, done_top, cur_top) == Err::<
                                    Seq<SectionModel>,
                                    ParseErr,
                                >(ParseErr::Syntax { line: idx + 1, expect: Expected::Key }));
                            }
                            return Err(
                                Error::SyntaxError { line: idx + 1, expect: Expected::Key },
                            );
                        }
                    },
                    None => {
                        proof {
                            assert(classify_line(lm) == LineKind::Malformed {
                                expect: Expected::Entry,
                            });
                            assert(build_sections(restl, idx + 1, done_top, cur_top) == Err::<
                                Seq<SectionModel>,
                                ParseErr,
                            >(ParseErr::Syntax { line: idx + 1, expect: Expected::Entry }));
                        }
                        return Err(Error::SyntaxError { line: idx + 1, expect: Expected::Entry });
                    },
                }
            }
        }
        idx = idx + 1;
    }
    proof {
        assert(ldv.skip(n as int) =~~= Seq::<Seq<char>>::empty());
    }
    if has_cur {
        let ghost done0 = done.deep_view();
        let ghost secm = SectionModel { name: cur_name@, entries: cur_entries.deep_view() };
        done.push(Section { name: cur_name, entries: cur_entries });
        proof {
            assert(done.deep_view() =~~= done0.push(secm));
        }
    }
    proof {
        assert(done.deep_view().len() == done@.len());
    }
    if done.len() == 0 && !allow_empty {
        return Err(Error::NoSectionError);
    }
    Ok(done)
}

} // verus!
