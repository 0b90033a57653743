//! The consumer-side value discipline over a merged section/entry stream,
//! and per-type scalar parsing.
//!
//! Duplicate keys pass through the parser unfiltered; the lookup functions
//! here implement the two documented readings: a scalar field takes the
//! last occurrence of its key (so a later drop-in shadows an earlier
//! value) and a multi-valued field collects every occurrence in order.
//! Scalar parsing is a set of plain functions — one per supported type —
//! plus a whitespace-split composition for lists.

use vstd::prelude::*;
use crate::datetime::{all_digits, non_empty, tokens_of};
use crate::error::Error;
use crate::parser::{EntryModel, Section, SectionModel};
use crate::text::{chars_of, dec_val, is_digit, parse_dec_u64, split_vec, string_from_chars, str_eq, subvec};

verus! {

// ---------------------------------------------------------------------------
// Lookup discipline
// ---------------------------------------------------------------------------

/// The entries of every section named `name`, concatenated in document
/// order.
pub open spec fn entries_for(ss: Seq<SectionModel>, name: Seq<char>) -> Seq<EntryModel>
    decreases ss.len(),
{
    if ss.len() == 0 {
        Seq::<EntryModel>::empty()
    } else if ss[0].name == name {
        ss[0].entries + entries_for(ss.drop_first(), name)
    } else {
        entries_for(ss.drop_first(), name)
    }
}

/// The value of the last entry with the given key, if any: the scalar
/// reading.
pub open spec fn last_value(es: Seq<EntryModel>, key: Seq<char>) -> Option<Seq<char>>
    decreases es.len(),
{
    if es.len() == 0 {
        Option::None
    } else {
        let rest = last_value(es.drop_first(), key);
        if rest is Some {
            rest
        } else if es[0].key == key {
            Some(es[0].value)
        } else {
            Option::None
        }
    }
}

/// Every value with the given key, in order: the multi-valued reading.
pub open spec fn all_values(es: Seq<EntryModel>, key: Seq<char>) -> Seq<Seq<char>>
    decreases es.len(),
{
    if es.len() == 0 {
        Seq::<Seq<char>>::empty()
    } else if es[0].key == key {
        seq![es[0].value] + all_values(es.drop_first(), key)
    } else {
        all_values(es.drop_first(), key)
    }
}

/// The scalar reading of `section.key` over a merged document.
pub open spec fn value_of_model(
    ss: Seq<SectionModel>,
    section: Seq<char>,
    key: Seq<char>,
) -> Option<Seq<char>> {
    last_value(entries_for(ss, section), key)
}

/// The multi-valued reading of `section.key` over a merged document.
pub open spec fn values_of_model(
    ss: Seq<SectionModel>,
    section: Seq<char>,
    key: Seq<char>,
) -> Seq<Seq<char>> {
    all_values(entries_for(ss, section), key)
}

/// Whether any section carries the given name.
pub open spec fn has_section(ss: Seq<SectionModel>, name: Seq<char>) -> bool {
    exists|i: int| 0 <= i < ss.len() && (#[trigger] ss[i].name) == name
}

/// Decides [`has_section`].
pub fn section_exists(sections: &Vec<Section>, name: &str) -> (r: bool)
    ensures
        r == has_section(sections.deep_view(), name@),
{
    let ghost sdv = sections.deep_view();
    let n: usize = sections.len();
    let mut i: usize = 0;
    while i < n
        invariant
            i <= n,
            n == sections@.len(),
            sdv == sections.deep_view(),
            sdv.len() == n,
            forall|k: int| 0 <= k < i ==> (#[trigger] sdv[k].name) != name@,
        decreases n - i,
    {
        proof {
            assert(sdv[i as int] == sections@[i as int]@);
        }
        if str_eq(sections[i].name.as_str(), name) {
            proof {
                assert(sdv[i as int].name == name@);
            }
            return true;
        }
        i = i + 1;
    }
    false
}

/// A name no section carries finds no entries.
proof fn lemma_no_section_no_entries(ss: Seq<SectionModel>, name: Seq<char>)
    requires
        !has_section(ss, name),
    ensures
        entries_for(ss, name) == Seq::<EntryModel>::empty(),
    decreases ss.len(),
{
    if ss.len() > 0 {
        assert(ss[0].name != name);
        assert(!has_section(ss.drop_first(), name)) by {
            if has_section(ss.drop_first(), name) {
                let i = choose|i: int|
                    0 <= i < ss.drop_first().len() && (#[trigger] ss.drop_first()[i].name)
                        == name;
                assert(ss[i + 1].name == name);
            }
        }
        lemma_no_section_no_entries(ss.drop_first(), name);
    }
}

/// The entries as plain key/value pairs.
pub open spec fn entry_pairs(es: Seq<EntryModel>) -> Seq<(Seq<char>, Seq<char>)> {
    es.map_values(|e: EntryModel| (e.key, e.value))
}

fn collect_entries(sections: &Vec<Section>, section: &str) -> (r: Vec<(String, String)>)
    ensures
        r.deep_view() == entry_pairs(entries_for(sections.deep_view(), section@)),
{
    let ghost sdv = sections.deep_view();
    let n: usize = sections.len();
    let mut out: Vec<(String, String)> = Vec::new();
    let mut i: usize = 0;
    proof {
        assert(sdv.skip(0) =~~= sdv);
        assert(out.deep_view() =~~= entry_pairs(entries_for(sdv, section@)).take(0));
    }
    while i < n
        invariant
            i <= n,
            n == sections@.len(),
            sdv == sections.deep_view(),
            sdv.len() == n,
            entry_pairs(entries_for(sdv, section@)) == out.deep_view() + entry_pairs(
                entries_for(sdv.skip(i as int), section@),
            ),
        decreases n - i,
    {
        proof {
            assert(sdv.skip(i as int)[0] == sdv[i as int]);
            assert(sdv[i as int] == sections@[i as int]@);
            assert(sdv.skip(i as int).drop_first() =~= sdv.skip(i + 1));
        }
        let sec = &sections[i];
        if str_eq(sec.name.as_str(), section) {
            let ghost em = sdv[i as int].entries;
            let ghost rest_map = entry_pairs(entries_for(sdv.skip(i + 1), section@));
            let m: usize = sec.entries.len();
            let mut j: usize = 0;
            let ghost out0 = out.deep_view();
            while j < m
                invariant
                    j <= m,
                    m == sec.entries@.len(),
                    em == sec.entries.deep_view(),
                    em.len() == m,
                    out.deep_view() == out0 + entry_pairs(em).take(j as int),
                decreases m - j,
            {
                proof {
                    assert(em[j as int] == sec.entries@[j as int]@);
                }
                let e = &sec.entries[j];
                let ghost pm = (em[j as int].key, em[j as int].value);
                let ghost outc = out.deep_view();
                out.push((e.key.clone(), e.value.clone()));
                proof {
                    assert(out.deep_view() =~~= outc.push(pm));
                    assert(entry_pairs(em)[j as int] == pm);
                    assert(out.deep_view() =~~= out0 + entry_pairs(em).take(j + 1));
                }
                j = j + 1;
            }
            proof {
                assert(entry_pairs(em).take(m as int) =~~= entry_pairs(em));
                assert(entry_pairs(em + entries_for(sdv.skip(i + 1), section@)) =~~= entry_pairs(
                    em,
                ) + rest_map);
                assert(entry_pairs(entries_for(sdv, section@)) =~~= out.deep_view() + rest_map);
            }
        }
        i = i + 1;
    }
    proof {
        assert(sdv.skip(n as int) =~~= Seq::<SectionModel>::empty());
        assert(entry_pairs(entries_for(Seq::<SectionModel>::empty(), section@)) =~~= Seq::<
            (Seq<char>, Seq<char>),
        >::empty());
        assert(entry_pairs(entries_for(sdv, section@)) =~~= out.deep_view());
    }
    out
}

/// The scalar reading of `section.key`: the value of the last matching
/// entry across every section of that name, or `None` when the key never
/// occurs there.
pub fn value_of(sections: &Vec<Section>, section: &str, key: &str) -> (r: Option<String>)
    ensures
        match r {
            Some(v) => value_of_model(sections.deep_view(), section@, key@) == Some(v@),
            Option::None => value_of_model(sections.deep_view(), section@, key@) is None,
        },
{
    let es = collect_entries(sections, section);
    let ghost em = entries_for(sections.deep_view(), section@);
    let n: usize = es.len();
    proof {
        assert(es.deep_view().len() == es@.len());
        assert(entry_pairs(em).len() == em.len());
    }
    // scan from the back: the last occurrence wins
    proof {
        assert(em.take(n as int) =~~= em);
    }
    let mut j: usize = n;
    while j > 0
        invariant
            j <= n,
            n == es@.len(),
            es.deep_view() == entry_pairs(em),
            em == entries_for(sections.deep_view(), section@),
            em.len() == n,
            last_value(em, key@) == last_value(em.take(j as int), key@),
        decreases j,
    {
        proof {
            lemma_last_value_take(em, key@, j as int);
            assert(es.deep_view()[j - 1] == es@[j - 1].deep_view());
            assert(entry_pairs(em)[j - 1] == (em[j - 1].key, em[j - 1].value));
            assert(es@[j - 1].deep_view().0 == es@[j - 1].0@);
            assert(es@[j - 1].deep_view().1 == es@[j - 1].1@);
            assert(em[j - 1].key == es@[j - 1].0@);
            assert(em[j - 1].value == es@[j - 1].1@);
        }
        if str_eq(es[j - 1].0.as_str(), key) {
            proof {
                assert(em[j - 1].key == key@);
                assert(last_value(em, key@) == Some(em[j - 1].value));
            }
            let v = es[j - 1].1.clone();
            return Some(v);
        }
        j = j - 1;
    }
    proof {
        assert(em.take(0) =~~= Seq::<EntryModel>::empty());
    }
    Option::None
}

/// The scalar reading of a prefix, characterized by its last entry.
proof fn lemma_last_value_take(es: Seq<EntryModel>, key: Seq<char>, j: int)
    requires
        0 < j <= es.len(),
    ensures
        es[j - 1].key == key ==> last_value(es.take(j), key) == Some(es[j - 1].value),
        es[j - 1].key != key ==> last_value(es.take(j), key) == last_value(es.take(j - 1), key),
    decreases j,
{
    let t = es.take(j);
    if j == 1 {
        assert(t.drop_first() =~~= Seq::<EntryModel>::empty());
        assert(t[0] == es[0]);
        assert(es.take(0) =~~= Seq::<EntryModel>::empty());
    } else {
        assert(t[0] == es[0]);
        assert(t.drop_first() =~~= es.drop_first().take(j - 1));
        assert(es.take(j - 1)[0] == es[0]);
        assert(es.take(j - 1).drop_first() =~~= es.drop_first().take(j - 2));
        assert(es.drop_first()[j - 2] == es[j - 1]);
        lemma_last_value_take(es.drop_first(), key, j - 1);
    }
}

/// The multi-valued reading of `section.key`: every matching value in
/// document order.
pub fn values_of(sections: &Vec<Section>, section: &str, key: &str) -> (r: Vec<String>)
    ensures
        r.deep_view() == values_of_model(sections.deep_view(), section@, key@),
{
    let es = collect_entries(sections, section);
    let ghost em = entries_for(sections.deep_view(), section@);
    let n: usize = es.len();
    proof {
        assert(es.deep_view().len() == es@.len());
        assert(entry_pairs(em).len() == em.len());
    }
    let mut out: Vec<String> = Vec::new();
    let mut i: usize = 0;
    proof {
        assert(em.skip(0) =~~= em);
        assert(out.deep_view() =~~= Seq::<Seq<char>>::empty());
    }
    while i < n
        invariant
            i <= n,
            n == es@.len(),
            es.deep_view() == entry_pairs(em),
            em.len() == n,
            all_values(em, key@) == out.deep_view() + all_values(em.skip(i as int), key@),
        decreases n - i,
    {
        proof {
            assert(em.skip(i as int)[0] == em[i as int]);
            assert(em.skip(i as int).drop_first() =~= em.skip(i + 1));
            assert(es.deep_view()[i as int] == es@[i as int].deep_view());
            assert(entry_pairs(em)[i as int] == (em[i as int].key, em[i as int].value));
        }
        if str_eq(es[i].0.as_str(), key) {
            let ghost out0 = out.deep_view();
            let v = es[i].1.clone();
            let ghost vm = v@;
            out.push(v);
            proof {
                assert(out.deep_view() =~~= out0.push(vm));
                assert(out.deep_view() + all_values(em.skip(i + 1), key@) =~~= out0 + (seq![vm]
                    + all_values(em.skip(i + 1), key@)));
            }
        }
        i = i + 1;
    }
    proof {
        assert(em.skip(n as int) =~~= Seq::<EntryModel>::empty());
        assert(out.deep_view() =~~= all_values(em, key@));
    }
    out
}

// ---------------------------------------------------------------------------
// Scalar value parsing
// ---------------------------------------------------------------------------

/// The boolean vocabulary: `1`, `yes`, `true`, `on` and `0`, `no`,
/// `false`, `off`.
pub open spec fn parse_bool_model(s: Seq<char>) -> Option<bool> {
    if s == "1"@ || s == "yes"@ || s == "true"@ || s == "on"@ {
        Some(true)
    } else if s == "0"@ || s == "no"@ || s == "false"@ || s == "off"@ {
        Some(false)
    } else {
        Option::None
    }
}

/// Parses the boolean vocabulary.
pub fn parse_bool(input: &str) -> (r: Option<bool>)
    ensures
        r == parse_bool_model(input@),
{
    if str_eq(input, "1") || str_eq(input, "yes") || str_eq(input, "true") || str_eq(input, "on") {
        Some(true)
    } else if str_eq(input, "0") || str_eq(input, "no") || str_eq(input, "false") || str_eq(
        input,
        "off",
    ) {
        Some(false)
    } else {
        Option::None
    }
}

/// What an unsigned decimal scalar denotes: an optional `+` sign, then
/// digits; `None` for an empty or foreign string or a value beyond `u64`.
pub open spec fn parse_unsigned_model(s: Seq<char>) -> Option<u64> {
    let digits = if s.len() > 0 && s[0] == '+' {
        s.drop_first()
    } else {
        s
    };
    if digits.len() == 0 || !all_digits(digits) {
        Option::None
    } else if dec_val(digits) > u64::MAX {
        Option::None
    } else {
        Some(dec_val(digits) as u64)
    }
}

/// Parses an unsigned decimal scalar.
pub fn parse_unsigned(input: &str) -> (r: Option<u64>)
    ensures
        r == parse_unsigned_model(input@),
{
    let v = chars_of(input);
    let n: usize = v.len();
    let start: usize = if n > 0 && v[0] == '+' {
        1
    } else {
        0
    };
    let ghost digits = if input@.len() > 0 && input@[0] == '+' {
        input@.drop_first()
    } else {
        input@
    };
    proof {
        assert(v@.subrange(start as int, n as int) =~= digits);
    }
    if start >= n {
        return Option::None;
    }
    let body = subvec(&v, start, n);
    let mut i: usize = 0;
    let m: usize = body.len();
    while i < m
        invariant
            i <= m,
            m == body@.len(),
            body@ == digits,
            digits == (if input@.len() > 0 && input@[0] == '+' {
                input@.drop_first()
            } else {
                input@
            }),
            forall|j: int| 0 <= j < i ==> is_digit(#[trigger] body@[j]),
        decreases m - i,
    {
        let cu = body[i] as u32;
        if !(48 <= cu && cu <= 57) {
            proof {
                assert(!is_digit(body@[i as int]));
                assert(!all_digits(digits));
            }
            return Option::None;
        }
        i = i + 1;
    }
    let parsed = parse_dec_u64(&body, 0, m);
    proof {
        assert(body@.subrange(0, m as int) =~= body@);
    }
    parsed
}

/// The scalar reading of `section.key` parsed with the boolean
/// vocabulary: `Ok(None)` when the key never occurs, `Ok(Some(..))` when
/// its last value belongs to the vocabulary, and a
/// [`Error::ValueParsingError`] naming the key and the offending value
/// otherwise.
pub fn bool_value_of(sections: &Vec<Section>, section: &str, key: &str) -> (r: Result<
    Option<bool>,
    Error,
>)
    ensures
        match r {
            Ok(ob) => match ob {
                Option::Some(b) => value_of_model(sections.deep_view(), section@, key@) matches Some(
                    v,
                ) && parse_bool_model(v) == Some(b),
                Option::None => value_of_model(sections.deep_view(), section@, key@) is None,
            },
            Err(e) => value_of_model(sections.deep_view(), section@, key@) matches Some(v)
                && parse_bool_model(v) is None && (e matches Error::ValueParsingError {
                key: k,
                value: w,
            } && k@ == key@ && w@ == v),
        },
{
    match value_of(sections, section, key) {
        Option::None => Ok(Option::None),
        Some(v) => match parse_bool(v.as_str()) {
            Some(b) => Ok(Some(b)),
            Option::None => Err(
                Error::ValueParsingError { key: String::from_str(key), value: v },
            ),
        },
    }
}

/// Splits a list value at whitespace into its nonempty pieces.
pub fn split_whitespace_values(input: &str) -> (r: Vec<String>)
    ensures
        r.deep_view() == tokens_of(input@),
{
    let v = chars_of(input);
    let parts = split_vec(&v, ' ');
    let ghost pdv = parts.deep_view();
    let ghost goal = non_empty(pdv);
    let mut rest = parts;
    let mut out: Vec<String> = Vec::new();
    proof {
        assert(out.deep_view() =~~= Seq::<Seq<char>>::empty());
        assert(out.deep_view() + non_empty(rest.deep_view()) =~~= goal);
    }
    while rest.len() > 0
        invariant
            goal == out.deep_view() + non_empty(rest.deep_view()),
        decreases rest.len(),
    {
        let ghost r0 = rest.deep_view();
        let t = rest.remove(0);
        proof {
            assert(rest.deep_view() =~~= r0.drop_first());
            assert(r0[0] == t@);
        }
        if t.len() > 0 {
            let ghost o0 = out.deep_view();
            let ghost tm = t@;
            let s = string_from_chars(&t);
            out.push(s);
            proof {
                assert(out.deep_view() =~~= o0.push(tm));
                assert(out.deep_view() + non_empty(rest.deep_view()) =~~= o0 + (seq![tm]
                    + non_empty(rest.deep_view())));
            }
        }
    }
    proof {
        assert(rest.deep_view() =~~= Seq::<Seq<char>>::empty());
        assert(non_empty(rest.deep_view()) =~~= Seq::<Seq<char>>::empty());
        assert(out.deep_view() =~~= goal);
    }
    out
}

/// The list composition over the boolean vocabulary: every
/// whitespace-separated piece parsed as a boolean, or `None` when any
/// piece is foreign.
pub open spec fn parse_bool_list_model(ts: Seq<Seq<char>>) -> Option<Seq<bool>>
    decreases ts.len(),
{
    if ts.len() == 0 {
        Some(Seq::<bool>::empty())
    } else {
        match parse_bool_model(ts[0]) {
            Option::None => Option::None,
            Option::Some(b) => match parse_bool_list_model(ts.drop_first()) {
                Option::None => Option::None,
                Option::Some(rest) => Some(seq![b] + rest),
            },
        }
    }
}

/// Parses a whitespace-separated list of booleans.
pub fn parse_bool_list(input: &str) -> (r: Option<Vec<bool>>)
    ensures
        match r {
            Some(bs) => parse_bool_list_model(tokens_of(input@)) == Some(bs@),
            Option::None => parse_bool_list_model(tokens_of(input@)) is None,
        },
{
    let parts = split_whitespace_values(input);
    let ghost ts = tokens_of(input@);
    let n: usize = parts.len();
    proof {
        assert(parts.deep_view().len() == parts@.len());
    }
    let mut out: Vec<bool> = Vec::new();
    let mut i: usize = 0;
    proof {
        assert(ts.skip(0) =~~= ts);
        match parse_bool_list_model(ts) {
            Option::Some(r0) => {
                assert(Seq::<bool>::empty() + r0 =~= r0);
            },
            Option::None => {},
        }
    }
    while i < n
        invariant
            i <= n,
            n == parts@.len(),
            parts.deep_view() == ts,
            ts == tokens_of(input@),
            ts.len() == n,
            parse_bool_list_model(ts) == match parse_bool_list_model(ts.skip(i as int)) {
                Option::None => Option::<Seq<bool>>::None,
                Option::Some(rest) => Some(out@ + rest),
            },
        decreases n - i,
    {
        proof {
            assert(ts.skip(i as int)[0] == ts[i as int]);
            assert(ts[i as int] == parts@[i as int]@);
            assert(ts.skip(i as int).drop_first() =~= ts.skip(i + 1));
        }
        match parse_bool(parts[i].as_str()) {
            Option::None => {
                return Option::None;
            },
            Some(b) => {
                let ghost o0 = out@;
                out.push(b);
                proof {
                    assert(out@ =~= o0.push(b));
                    match parse_bool_list_model(ts.skip(i + 1)) {
                        Option::Some(rest) => {
                            assert(o0 + (seq![b] + rest) =~= out@ + rest);
                        },
                        Option::None => {},
                    }
                }
            },
        }
        i = i + 1;
    }
    proof {
        assert(ts.skip(n as int) =~~= Seq::<Seq<char>>::empty());
        assert(out@ + Seq::<bool>::empty() =~= out@);
    }
    Some(out)
}

// ---------------------------------------------------------------------------
// A sample typed binding
// ---------------------------------------------------------------------------

/// A sample nested configuration shape, bound from the section
/// `[NestedConfig]`.
#[derive(Debug, Clone)]
pub struct NestedConfig {
    pub internal: String,
}

/// A sample configuration shape demonstrating the consumer-side binding
/// disciplines over a merged document: required scalars, an optional
/// scalar, a defaulted scalar, a multi-valued field, a nested section and
/// a field bound under an alternate key.
#[derive(Debug, Clone)]
pub struct CustomUnit {
    /// Required, from `CustomUnit.regular`.
    pub regular: String,
    /// Required, from `CustomUnit.private`.
    pub private: String,
    /// Optional, from `CustomUnit.optional`; empty when absent.
    pub optional: String,
    /// Multi-valued, every `CustomUnit.vector` occurrence in order.
    pub vector: Vec<String>,
    /// Required, from the `[NestedConfig]` section.
    pub nested: NestedConfig,
    /// Required, bound under the alternate key `CustomUnit.alt-key`.
    pub custom_named: String,
    /// Defaulted, from `CustomUnit.default_valued`; `default-value` when
    /// absent.
    pub default_valued: String,
}

impl NestedConfig {
    /// Binds the `[NestedConfig]` section of a merged document: succeeds
    /// exactly when the section exists and its required `internal` key
    /// occurs, taking the key's last value.
    pub fn from_unit(sections: &Vec<Section>) -> (r: Result<NestedConfig, Error>)
        ensures
            match r {
                Ok(c) => value_of_model(sections.deep_view(), "NestedConfig"@, "internal"@)
                    == Some(c.internal@),
                Err(e) => match e {
                    Error::SectionMissingError { key } => !has_section(
                        sections.deep_view(),
                        "NestedConfig"@,
                    ) && key@ == "NestedConfig"@,
                    Error::EntryMissingError { key } => value_of_model(
                        sections.deep_view(),
                        "NestedConfig"@,
                        "internal"@,
                    ) is None && key@ == "internal"@,
                    _ => false,
                },
            },
    {
        if !section_exists(sections, "NestedConfig") {
            return Err(Error::SectionMissingError { key: String::from_str("NestedConfig") });
        }
        match value_of(sections, "NestedConfig", "internal") {
            Some(internal) => Ok(NestedConfig { internal }),
            Option::None => Err(Error::EntryMissingError { key: String::from_str("internal") }),
        }
    }
}

impl CustomUnit {
    /// Binds the `[CustomUnit]` section (and its nested `[NestedConfig]`)
    /// of a merged document.
    ///
    /// Succeeds exactly when the four required lookups — `regular`,
    /// `private`, the nested `internal` and the alternate key `alt-key` —
    /// all occur; each scalar field takes the last value of its key,
    /// `optional` falls back to empty, `default_valued` to
    /// `default-value`, and `vector` collects every occurrence.
    pub fn from_unit(sections: &Vec<Section>) -> (r: Result<CustomUnit, Error>)
        ensures
            (r is Ok) == (has_section(sections.deep_view(), "CustomUnit"@) && value_of_model(
                sections.deep_view(),
                "CustomUnit"@,
                "regular"@,
            ) is Some && value_of_model(sections.deep_view(), "CustomUnit"@, "private"@) is Some
                && value_of_model(sections.deep_view(), "NestedConfig"@, "internal"@) is Some
                && value_of_model(sections.deep_view(), "CustomUnit"@, "alt-key"@) is Some),
            match r {
                Ok(c) => {
                    &&& value_of_model(sections.deep_view(), "CustomUnit"@, "regular"@) == Some(
                        c.regular@,
                    )
                    &&& value_of_model(sections.deep_view(), "CustomUnit"@, "private"@) == Some(
                        c.private@,
                    )
                    &&& c.optional@ == (match value_of_model(
                        sections.deep_view(),
                        "CustomUnit"@,
                        "optional"@,
                    ) {
                        Option::Some(v) => v,
                        Option::None => Seq::<char>::empty(),
                    })
                    &&& c.vector.deep_view() == values_of_model(
                        sections.deep_view(),
                        "CustomUnit"@,
                        "vector"@,
                    )
                    &&& value_of_model(sections.deep_view(), "NestedConfig"@, "internal"@)
                        == Some(c.nested.internal@)
                    &&& value_of_model(sections.deep_view(), "CustomUnit"@, "alt-key"@) == Some(
                        c.custom_named@,
                    )
                    &&& c.default_valued@ == (match value_of_model(
                        sections.deep_view(),
                        "CustomUnit"@,
                        "default_valued"@,
                    ) {
                        Option::Some(v) => v,
                        Option::None => "default-value"@,
                    })
                },
                Err(e) => match e {
                    Error::SectionMissingError { key } => (key@ == "CustomUnit"@ && !has_section(
                        sections.deep_view(),
                        "CustomUnit"@,
                    )) || (key@ == "NestedConfig"@ && !has_section(
                        sections.deep_view(),
                        "NestedConfig"@,
                    )),
                    Error::EntryMissingError { key } => (key@ == "regular"@ && value_of_model(
                        sections.deep_view(),
                        "CustomUnit"@,
                        "regular"@,
                    ) is None) || (key@ == "private"@ && value_of_model(
                        sections.deep_view(),
                        "CustomUnit"@,
                        "private"@,
                    ) is None) || (key@ == "internal"@ && value_of_model(
                        sections.deep_view(),
                        "NestedConfig"@,
                        "internal"@,
                    ) is None) || (key@ == "alt-key"@ && value_of_model(
                        sections.deep_view(),
                        "CustomUnit"@,
                        "alt-key"@,
                    ) is None),
                    _ => false,
                },
            },
    {
        if !section_exists(sections, "CustomUnit") {
            return Err(Error::SectionMissingError { key: String::from_str("CustomUnit") });
        }
        let regular = match value_of(sections, "CustomUnit", "regular") {
            Some(v) => v,
            Option::None => {
                return Err(Error::EntryMissingError { key: String::from_str("regular") });
            },
        };
        let private = match value_of(sections, "CustomUnit", "private") {
            Some(v) => v,
            Option::None => {
                return Err(Error::EntryMissingError { key: String::from_str("private") });
            },
        };
        let optional = match value_of(sections, "CustomUnit", "optional") {
            Some(v) => v,
            Option::None => String::new(),
        };
        let vector = values_of(sections, "CustomUnit", "vector");
        let nested = match NestedConfig::from_unit(sections) {
            Ok(c) => c,
            Err(e) => {
                proof {
                    if !has_section(sections.deep_view(), "NestedConfig"@) {
                        lemma_no_section_no_entries(sections.deep_view(), "NestedConfig"@);
                    }
                }
                return Err(e);
            },
        };
        let custom_named = match value_of(sections, "CustomUnit", "alt-key") {
            Some(v) => v,
            Option::None => {
                return Err(Error::EntryMissingError { key: String::from_str("alt-key") });
            },
        };
        let default_valued = match value_of(sections, "CustomUnit", "default_valued") {
            Some(v) => v,
            Option::None => String::from_str("default-value"),
        };
        Ok(
            CustomUnit {
                regular,
                private,
                optional,
                vector,
                nested,
                custom_named,
                default_valued,
            },
        )
    }
}

} // verus!
