//! The duration value language: a sequence of `<integer><suffix>` pairs,
//! optionally separated by spaces, summed into one span of time.
//!
//! The scanner knows two token classes — digit runs and letter runs; a
//! digit that begins while a suffix is pending finalizes the pending pair.
//! The trailing pair is finalized at end of input.  An empty input, an
//! input ending mid-pair, an unknown suffix or any other character is an
//! error; so is a sum that overflows the microsecond counter.

use vstd::prelude::*;
use vstd::arithmetic::div_mod::{lemma_fundamental_div_mod, lemma_mod_division_less_than_divisor};
use vstd::arithmetic::mul::lemma_mul_inequality;
use crate::error::Error;
use crate::text::{chars_of, dec_val, is_digit, lemma_dec_val_nonneg, parse_dec_u64, vec_eq_str};

verus! {

/// A span of time, counted in microseconds.
#[derive(Debug, Clone, Copy, PartialEq, Eq, Structural)]
pub struct Duration {
    pub micros: i64,
}

/// The letters that may form a unit suffix.
pub open spec fn is_suffix_letter(c: char) -> bool {
    (97 <= c as u32 <= 122) || (65 <= c as u32 <= 90) || c as u32 == 956
}

/// Microseconds denoted by one unit suffix, or `None` for an unknown one.
/// Months and years use the fixed 30.44-day and 365.25-day approximations.
pub open spec fn unit_micros(suf: Seq<char>) -> Option<int> {
    if suf == "usec"@ || suf == "us"@ || suf == "μs"@ {
        Some(1)
    } else if suf == "msec"@ || suf == "ms"@ {
        Some(1000)
    } else if suf == "seconds"@ || suf == "second"@ || suf == "sec"@ || suf == "s"@ {
        Some(1000000)
    } else if suf == "minutes"@ || suf == "minute"@ || suf == "min"@ || suf == "m"@ {
        Some(60000000)
    } else if suf == "hours"@ || suf == "hour"@ || suf == "hr"@ || suf == "h"@ {
        Some(3600000000)
    } else if suf == "days"@ || suf == "day"@ || suf == "d"@ {
        Some(86400000000)
    } else if suf == "weeks"@ || suf == "week"@ || suf == "w"@ {
        Some(604800000000)
    } else if suf == "months"@ || suf == "month"@ || suf == "M"@ {
        Some(2630016000000)
    } else if suf == "years"@ || suf == "year"@ || suf == "y"@ {
        Some(31557600000000)
    } else {
        Option::None
    }
}

/// Value of one finalized `(integer, suffix)` pair in microseconds.
/// `None` when the digits are missing, the integer overflows, or the
/// suffix is unknown.
pub open spec fn seg_value(ints: Seq<char>, suf: Seq<char>) -> Option<int> {
    if ints.len() == 0 {
        Option::None
    } else if dec_val(ints) > i64::MAX {
        Option::None
    } else {
        match unit_micros(suf) {
            Option::None => Option::None,
            Option::Some(u) => Some(dec_val(ints) * u),
        }
    }
}

/// The scanner: `ints` and `suf` are the pending pair, `total` the
/// microseconds accumulated so far.
pub open spec fn scan_duration(s: Seq<char>, ints: Seq<char>, suf: Seq<char>, total: int) -> Option<
    int,
>
    decreases s.len(),
{
    if s.len() == 0 {
        if ints.len() > 0 && suf.len() > 0 {
            match seg_value(ints, suf) {
                Option::None => Option::None,
                Option::Some(v) => if total + v > i64::MAX {
                    Option::None
                } else {
                    Some(total + v)
                },
            }
        } else {
            Option::None
        }
    } else {
        let c = s[0];
        if is_digit(c) {
            if suf.len() > 0 {
                match seg_value(ints, suf) {
                    Option::None => Option::None,
                    Option::Some(v) => if total + v > i64::MAX {
                        Option::None
                    } else {
                        scan_duration(s.drop_first(), seq![c], Seq::<char>::empty(), total + v)
                    },
                }
            } else {
                scan_duration(s.drop_first(), ints.push(c), suf, total)
            }
        } else if is_suffix_letter(c) {
            scan_duration(s.drop_first(), ints, suf.push(c), total)
        } else if c == ' ' {
            scan_duration(s.drop_first(), ints, suf, total)
        } else {
            Option::None
        }
    }
}

/// What a duration string denotes: total microseconds, or nothing when the
/// input is rejected.
pub open spec fn parse_duration_model(s: Seq<char>) -> Option<int> {
    scan_duration(s, Seq::<char>::empty(), Seq::<char>::empty(), 0)
}

fn unit_of(suf: &Vec<char>) -> (r: Option<i64>)
    ensures
        match r {
            Some(u) => unit_micros(suf@) == Some(u as int) && 1 <= u,
            Option::None => unit_micros(suf@) is None,
        },
{
    if vec_eq_str(suf, "usec") || vec_eq_str(suf, "us") || vec_eq_str(suf, "μs") {
        Some(1)
    } else if vec_eq_str(suf, "msec") || vec_eq_str(suf, "ms") {
        Some(1000)
    } else if vec_eq_str(suf, "seconds") || vec_eq_str(suf, "second") || vec_eq_str(suf, "sec")
        || vec_eq_str(suf, "s") {
        Some(1000000)
    } else if vec_eq_str(suf, "minutes") || vec_eq_str(suf, "minute") || vec_eq_str(suf, "min")
        || vec_eq_str(suf, "m") {
        Some(60000000)
    } else if vec_eq_str(suf, "hours") || vec_eq_str(suf, "hour") || vec_eq_str(suf, "hr")
        || vec_eq_str(suf, "h") {
        Some(3600000000)
    } else if vec_eq_str(suf, "days") || vec_eq_str(suf, "day") || vec_eq_str(suf, "d") {
        Some(86400000000)
    } else if vec_eq_str(suf, "weeks") || vec_eq_str(suf, "week") || vec_eq_str(suf, "w") {
        Some(604800000000)
    } else if vec_eq_str(suf, "months") || vec_eq_str(suf, "month") || vec_eq_str(suf, "M") {
        Some(2630016000000)
    } else if vec_eq_str(suf, "years") || vec_eq_str(suf, "year") || vec_eq_str(suf, "y") {
        Some(31557600000000)
    } else {
        Option::None
    }
}

/// Finalizes one pending pair: its value in microseconds.  `None` when
/// [`seg_value`] rejects the pair, or when the value alone exceeds the
/// microsecond counter (in which case any sum with it would too).
fn finalize_pair(ints: &Vec<char>, suf: &Vec<char>) -> (r: Option<i64>)
    requires
        forall|i: int| 0 <= i < ints@.len() ==> is_digit(#[trigger] ints@[i]),
    ensures
        match r {
            Some(v) => seg_value(ints@, suf@) == Some(v as int) && v >= 0,
            Option::None => seg_value(ints@, suf@) is None || (seg_value(ints@, suf@) matches Some(
                v,
            ) && v > i64::MAX),
        },
{
    if ints.len() == 0 {
        return Option::None;
    }
    let parsed = parse_dec_u64(ints, 0, ints.len());
    proof {
        assert(ints@.subrange(0, ints@.len() as int) =~= ints@);
    }
    let x: u64 = match parsed {
        Option::None => {
            return Option::None;
        },
        Some(x) => x,
    };
    if x > 0x7fff_ffff_ffff_ffff_u64 {
        return Option::None;
    }
    let u: i64 = match unit_of(suf) {
        Option::None => {
            return Option::None;
        },
        Some(u) => u,
    };
    let xi: i64 = x as i64;
    proof {
        lemma_dec_val_nonneg(ints@);
    }
    if xi > i64::MAX / u {
        proof {
            lemma_fundamental_div_mod(i64::MAX as int, u as int);
            lemma_mod_division_less_than_divisor(i64::MAX as int, u as int);
            lemma_mul_inequality(i64::MAX as int / u as int + 1, xi as int, u as int);
            assert(xi as int * u as int > i64::MAX);
        }
        return Option::None;
    }
    proof {
        lemma_fundamental_div_mod(i64::MAX as int, u as int);
        lemma_mod_division_less_than_divisor(i64::MAX as int, u as int);
        lemma_mul_inequality(xi as int, i64::MAX as int / u as int, u as int);
        assert(xi as int * u as int <= i64::MAX);
        lemma_mul_inequality(0, xi as int, u as int);
        assert(xi as int * u as int >= 0);
    }
    Some(xi * u)
}

/// Parses a duration string into total microseconds.
///
/// Succeeds with exactly the value [`parse_duration_model`] ascribes to
/// the input, and fails (with the offending input echoed back) exactly
/// when the model rejects it.
pub fn parse_duration(input: &str) -> (r: Result<Duration, Error>)
    ensures
        match r {
            Ok(d) => parse_duration_model(input@) == Some(d.micros as int) && d.micros >= 0,
            Err(e) => parse_duration_model(input@) is None && (e matches Error::DurationError {
                value,
            } && value@ == input@),
        },
{
    let v = chars_of(input);
    let n: usize = v.len();
    let mut ints: Vec<char> = Vec::new();
    let mut suf: Vec<char> = Vec::new();
    let mut total: i64 = 0;
    let mut i: usize = 0;
    proof {
        assert(v@.skip(0) =~= v@);
    }
    while i < n
        invariant
            i <= n,
            n == v@.len(),
            v@ == input@,
            total >= 0,
            forall|j: int| 0 <= j < ints@.len() ==> is_digit(#[trigger] ints@[j]),
            parse_duration_model(input@) == scan_duration(
                v@.skip(i as int),
                ints@,
                suf@,
                total as int,
            ),
        decreases n - i,
    {
        let ghost rest = v@.skip(i as int);
        proof {
            assert(rest[0] == v@[i as int]);
            assert(rest.drop_first() =~= v@.skip(i + 1));
        }
        let c = v[i];
        let cu = c as u32;
        if 48 <= cu && cu <= 57 {
            if suf.len() > 0 {
                match finalize_pair(&ints, &suf) {
                    Option::None => {
                        return Err(Error::DurationError { value: String::from_str(input) });
                    },
                    Some(seg) => {
                        if seg > i64::MAX - total {
                            return Err(Error::DurationError { value: String::from_str(input) });
                        }
                        total = total + seg;
                        ints = Vec::new();
                        ints.push(c);
                        suf = Vec::new();
                        proof {
                            assert(ints@ =~= seq![rest[0]]);
                            assert(suf@ =~= Seq::<char>::empty());
                        }
                    },
                }
            } else {
                ints.push(c);
            }
        } else if (97 <= cu && cu <= 122) || (65 <= cu && cu <= 90) || cu == 956 {
            suf.push(c);
        } else if c == ' ' {
            // separator
        } else {
            return Err(Error::DurationError { value: String::from_str(input) });
        }
        i = i + 1;
    }
    proof {
        assert(v@.skip(n as int) =~= Seq::<char>::empty());
    }
    if ints.len() > 0 && suf.len() > 0 {
        match finalize_pair(&ints, &suf) {
            Option::None => Err(Error::DurationError { value: String::from_str(input) }),
            Some(seg) => {
                if seg > i64::MAX - total {
                    return Err(Error::DurationError { value: String::from_str(input) });
                }
                Ok(Duration { micros: total + seg })
            },
        }
    } else {
        Err(Error::DurationError { value: String::from_str(input) })
    }
}

} // verus!
