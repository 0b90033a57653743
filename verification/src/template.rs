//! Unit-name classification and template instantiation.
//!
//! A unit filename is classified by its `@` syntax: no `@` makes a regular
//! unit, `name@.suffix` a template, `name@instance.suffix` an instance of
//! that template, and more than one `@` is invalid.

use vstd::prelude::*;
use crate::error::Error;
use crate::text::{
    chars_of, find_char, first_index_of, lemma_first_index_of, lemma_split_on_concat,
    lemma_split_on_len, lemma_split_on_whole, split_on, string_from_chars, subvec,
};

verus! {

/// Specification-level classification of a unit filename.
pub enum UnitClass {
    Regular { name: Seq<char> },
    Template { template_name: Seq<char> },
    /// `instance_name` is the text between `@` and the next `.`;
    /// `template_name` is the text before `@`.
    Instance { instance_name: Seq<char>, template_name: Seq<char> },
    Invalid,
}

/// How a unit filename classifies, from its `@` syntax alone.
pub open spec fn classify_name(s: Seq<char>) -> UnitClass {
    let parts = split_on(s, '@');
    if parts.len() == 1 {
        UnitClass::Regular { name: s }
    } else if parts.len() == 2 {
        let after = parts[1];
        if after.len() > 0 && after[0] == '.' {
            UnitClass::Template { template_name: parts[0] }
        } else {
            UnitClass::Instance {
                instance_name: split_on(after, '.')[0],
                template_name: parts[0],
            }
        }
    } else {
        UnitClass::Invalid
    }
}

/// The executable unit classification.
#[derive(Debug, Clone, PartialEq, Eq)]
pub enum UnitType {
    Regular { name: String },
    Template { template_name: String },
    Instance { instance_name: String, template_name: String },
}

/// The view of a [`UnitType`] as a [`UnitClass`].
pub open spec fn unit_type_view(t: UnitType) -> UnitClass {
    match t {
        UnitType::Regular { name } => UnitClass::Regular { name: name@ },
        UnitType::Template { template_name } => UnitClass::Template {
            template_name: template_name@,
        },
        UnitType::Instance { instance_name, template_name } => UnitClass::Instance {
            instance_name: instance_name@,
            template_name: template_name@,
        },
    }
}

/// Classifies `filename` by its `@` syntax.  A name with more than one `@`
/// is rejected with [`Error::InvalidFilenameError`]; every other name
/// classifies successfully.
pub fn unit_type(filename: &str) -> (r: Result<UnitType, Error>)
    ensures
        match r {
            Ok(t) => unit_type_view(t) == classify_name(filename@) && !(classify_name(filename@)
                is Invalid),
            Err(e) => classify_name(filename@) is Invalid && (e matches Error::InvalidFilenameError {
                filename: f,
            } && f@ == filename@),
        },
{
    let v = chars_of(filename);
    let at = find_char(&v, '@');
    match at {
        None => {
            proof {
                lemma_first_index_of(v@, '@');
                lemma_split_on_whole(v@, '@');
            }
            Ok(UnitType::Regular { name: string_from_chars(&v) })
        },
        Some(i) => {
            proof {
                lemma_first_index_of(v@, '@');
            }
            let before = subvec(&v, 0, i);
            let after = subvec(&v, i + 1, v.len());
            proof {
                assert(v@.take(i as int) =~= before@);
                assert(v@.take(i as int) + seq!['@'] + v@.skip(i + 1) =~= v@);
                lemma_split_on_concat(before@, after@, '@');
                lemma_split_on_len(after@, '@');
            }
            let at2 = find_char(&after, '@');
            match at2 {
                Some(_) => {
                    proof {
                        lemma_first_index_of(after@, '@');
                        let j = first_index_of(after@, '@');
                        assert(after@.take(j) + seq!['@'] + after@.skip(j + 1) =~= after@);
                        lemma_split_on_concat(after@.take(j), after@.skip(j + 1), '@');
                        lemma_split_on_len(after@.skip(j + 1), '@');
                        assert(split_on(v@, '@').len() >= 3);
                    }
                    Err(Error::InvalidFilenameError { filename: String::from_str(filename) })
                },
                None => {
                    proof {
                        lemma_first_index_of(after@, '@');
                        lemma_split_on_whole(after@, '@');
                        assert(split_on(v@, '@') =~~= seq![before@, after@]);
                    }
                    if after.len() > 0 && after[0] == '.' {
                        Ok(UnitType::Template { template_name: string_from_chars(&before) })
                    } else {
                        let dot = find_char(&after, '.');
                        let inst: Vec<char> = match dot {
                            None => {
                                proof {
                                    lemma_first_index_of(after@, '.');
                                    lemma_split_on_whole(after@, '.');
                                }
                                subvec(&after, 0, after.len())
                            },
                            Some(d) => {
                                proof {
                                    lemma_first_index_of(after@, '.');
                                    assert(after@.take(d as int) + seq!['.'] + after@.skip(d + 1)
                                        =~= after@);
                                    lemma_split_on_concat(
                                        after@.take(d as int),
                                        after@.skip(d + 1),
                                        '.',
                                    );
                                }
                                subvec(&after, 0, d)
                            },
                        };
                        proof {
                            assert(after@.subrange(0, after@.len() as int) =~= after@);
                            assert(split_on(after@, '.')[0] == inst@);
                        }
                        Ok(
                            UnitType::Instance {
                                instance_name: string_from_chars(&inst),
                                template_name: string_from_chars(&before),
                            },
                        )
                    }
                },
            }
        },
    }
}

// ---------------------------------------------------------------------------
// Instance materialization
// ---------------------------------------------------------------------------

/// The raw text of a template with every literal `%i` token replaced by the
/// instance name.  The replacement text is never rescanned: each `%i` is
/// substituted exactly once, left to right.
pub open spec fn materialize_spec(s: Seq<char>, inst: Seq<char>) -> Seq<char>
    decreases s.len(),
{
    if s.len() < 2 {
        s
    } else if s[0] == '%' && s[1] == 'i' {
        inst + materialize_spec(s.skip(2), inst)
    } else {
        seq![s[0]] + materialize_spec(s.drop_first(), inst)
    }
}

/// Replaces every literal `%i` in a template's raw text with the instance
/// name, before any grammar parsing and independent of specifier resolution.
pub fn materialize_instance(template_text: &str, instance_name: &str) -> (r: String)
    ensures
        r@ == materialize_spec(template_text@, instance_name@),
{
    let v = chars_of(template_text);
    let inst = chars_of(instance_name);
    let n: usize = v.len();
    let mut out: Vec<char> = Vec::new();
    let mut i: usize = 0;
    proof {
        assert(v@.skip(0) =~= v@);
    }
    while i < n
        invariant
            i <= n,
            n == v@.len(),
            inst@ == instance_name@,
            materialize_spec(v@, inst@) == out@ + materialize_spec(v@.skip(i as int), inst@),
        decreases n - i,
    {
        let ghost rest = v@.skip(i as int);
        proof {
            assert(rest[0] == v@[i as int]);
            if rest.len() >= 2 {
                assert(rest[1] == v@[i + 1]);
            }
            assert(rest.drop_first() =~= v@.skip(i + 1));
        }
        if i + 1 < n && v[i] == '%' && v[i + 1] == 'i' {
            proof {
                assert(rest.skip(2) =~= v@.skip(i + 2));
            }
            let mut j: usize = 0;
            let m: usize = inst.len();
            let ghost out_before = out@;
            while j < m
                invariant
                    j <= m,
                    m == inst@.len(),
                    out@ == out_before + inst@.take(j as int),
                decreases m - j,
            {
                let c = inst[j];
                out.push(c);
                proof {
                    assert(out@ =~= out_before + inst@.take(j + 1));
                }
                j = j + 1;
            }
            proof {
                assert(inst@.take(m as int) =~= inst@);
                assert(out@ =~= out_before + inst@);
            }
            i = i + 2;
        } else {
            let c = v[i];
            out.push(c);
            i = i + 1;
        }
    }
    proof {
        assert(v@.skip(n as int) =~= Seq::<char>::empty());
        assert(out@ =~= materialize_spec(v@, inst@));
    }
    string_from_chars(&out)
}

} // verus!
