//! The datetime value language, in four mutually exclusive shapes:
//!
//! * `full_len`: optional weekday, optional `Y-M-D` date (four-digit year,
//!   or two-digit year meaning 2000+), optional `H:M[:S[.US]]` time,
//!   optional named timezone — in that order, separated by spaces.  An
//!   omitted date means today, an omitted time midnight, an omitted
//!   timezone UTC.  A given weekday must match the resolved date.
//! * `relative`: a leading `+` or `-` followed by a duration, applied to
//!   the current instant.
//! * `absolute`: `@` followed by a signed integer of Unix epoch seconds.
//! * `special`: `now`, `today`, `tomorrow`, `yesterday`, optionally
//!   followed by a timezone name (an unknown one falls back to UTC),
//!   anchored at that zone's local midnight today.
//!
//! Every result is an absolute UTC instant in microseconds.  A token that
//! is neither a weekday, a date nor a time is taken as a timezone name.
//! The calendar itself — wall clock to instant, in UTC or in a named zone —
//! is computed by the chrono and chrono-tz crates behind two trusted
//! wrappers; everything around them is verified.

use vstd::prelude::*;
use vstd::arithmetic::div_mod::{
    lemma_fundamental_div_mod, lemma_hoist_over_denominator,
    lemma_mod_division_less_than_divisor, lemma_mod_multiples_vanish,
};
use chrono::{Datelike, TimeZone};
use crate::duration::parse_duration_model;
use crate::duration::parse_duration;
use crate::text::{
    chars_of, dec_val, is_digit, parse_dec_u64, split_on, split_vec, string_from_chars, subvec,
    vec_eq_str,
};

verus! {

/// An absolute UTC instant, counted in microseconds since the Unix epoch.
#[derive(Debug, Clone, Copy, PartialEq, Eq, Structural)]
pub struct Instant {
    pub epoch_micros: i64,
}

/// Why a datetime string was rejected.
#[derive(Debug, Clone, PartialEq, Eq)]
pub enum DatetimeError {
    /// The input matches none of the four shapes.
    Syntax,
    /// The named timezone is unknown.
    UnknownTimezone { name: String },
    /// The calendar fields name no valid instant in the given zone.
    InvalidCalendar,
    /// The resolved date does not fall on the given weekday.
    WeekdayMismatch,
    /// The instant does not fit the microsecond counter.
    OutOfRange,
}

/// The model of a [`DatetimeError`].
pub enum DtErr {
    Syntax,
    UnknownTimezone { name: Seq<char> },
    InvalidCalendar,
    WeekdayMismatch,
    OutOfRange,
}

// ---------------------------------------------------------------------------
// Trusted calendar wrappers
// ---------------------------------------------------------------------------

/// The UTC instant, in microseconds, of the proleptic-Gregorian wall clock
/// `y-mo-d h:mi:s` read in UTC; `None` for invalid calendar fields.
pub uninterp spec fn utc_epoch_micros_of(y: int, mo: int, d: int, h: int, mi: int, s: int) -> Option<
    i64,
>;

/// Relies on chrono's `TimeZone::with_ymd_and_hms` on `Utc` (`None` exactly
/// on invalid calendar fields) and `DateTime::timestamp_micros`; the result
/// depends on the arguments alone.
#[verifier::external_body]
fn utc_wall_to_epoch(y: i32, mo: u32, d: u32, h: u32, mi: u32, s: u32) -> (r: Option<i64>)
    ensures
        r == utc_epoch_micros_of(y as int, mo as int, d as int, h as int, mi as int, s as int),
{
    chrono::Utc.with_ymd_and_hms(y, mo, d, h, mi, s).single().map(|t| t.timestamp_micros())
}

/// Whether `name` denotes a timezone of the compiled-in database.
pub uninterp spec fn tz_known(name: Seq<char>) -> bool;

/// Relies on chrono-tz's `Tz: FromStr`: the timezone database is compiled
/// into the crate, so the result depends on the name alone.
#[verifier::external_body]
fn tz_name_known(name: &str) -> (r: bool)
    ensures
        r == tz_known(name@),
{
    name.parse::<chrono_tz::Tz>().is_ok()
}

/// The UTC instant, in microseconds, of the wall clock `y-mo-d h:mi:s`
/// read in the named zone; `None` for an unknown name, invalid calendar
/// fields, or a wall clock that is skipped or ambiguous in that zone.
pub uninterp spec fn tz_epoch_micros_of(
    name: Seq<char>,
    y: int,
    mo: int,
    d: int,
    h: int,
    mi: int,
    s: int,
) -> Option<i64>;

/// Relies on chrono-tz's `Tz: FromStr` (the zone database is compiled into
/// the crate) and chrono's `TimeZone::with_ymd_and_hms` / `single` /
/// `timestamp_micros`; the result depends on the arguments alone.
#[verifier::external_body]
fn tz_wall_to_epoch(name: &str, y: i32, mo: u32, d: u32, h: u32, mi: u32, s: u32) -> (r: Option<
    i64,
>)
    ensures
        r == tz_epoch_micros_of(
            name@,
            y as int,
            mo as int,
            d as int,
            h as int,
            mi as int,
            s as int,
        ),
{
    match name.parse::<chrono_tz::Tz>() {
        Err(_) => None,
        Ok(tz) => tz.with_ymd_and_hms(y, mo, d, h, mi, s).single().map(|t| t.timestamp_micros()),
    }
}

/// Relies on chrono's `Utc::now` and the `Datelike` accessors: the current
/// UTC instant in microseconds and its calendar date.  The result depends
/// on the machine clock; only the documented field ranges are assumed
/// (month 1 to 12, day 1 to 31).
#[verifier::external_body]
fn now_utc() -> (r: (i64, i32, u32, u32))
    ensures
        1 <= r.2 <= 12,
        1 <= r.3 <= 31,
{
    let now = chrono::Utc::now();
    let date = now.date_naive();
    (now.timestamp_micros(), date.year(), date.month(), date.day())
}

// ---------------------------------------------------------------------------
// The grammar as a specification
// ---------------------------------------------------------------------------

/// The nonempty pieces of `s` split at spaces.
pub open spec fn non_empty(ts: Seq<Seq<char>>) -> Seq<Seq<char>>
    decreases ts.len(),
{
    if ts.len() == 0 {
        ts
    } else if ts[0].len() > 0 {
        seq![ts[0]] + non_empty(ts.drop_first())
    } else {
        non_empty(ts.drop_first())
    }
}

/// The tokens of a datetime string.
pub open spec fn tokens_of(s: Seq<char>) -> Seq<Seq<char>> {
    non_empty(split_on(s, ' '))
}

/// Every character a decimal digit.
pub open spec fn all_digits(s: Seq<char>) -> bool {
    forall|i: int| 0 <= i < s.len() ==> is_digit(#[trigger] s[i])
}

/// The weekday a name token denotes: 0 is Monday through 6 is Sunday.
pub open spec fn weekday_num(t: Seq<char>) -> Option<int> {
    if t == "Mon"@ || t == "Monday"@ {
        Some(0)
    } else if t == "Tue"@ || t == "Tuesday"@ {
        Some(1)
    } else if t == "Wed"@ || t == "Wednesday"@ {
        Some(2)
    } else if t == "Thu"@ || t == "Thursday"@ {
        Some(3)
    } else if t == "Fri"@ || t == "Friday"@ {
        Some(4)
    } else if t == "Sat"@ || t == "Saturday"@ {
        Some(5)
    } else if t == "Sun"@ || t == "Sunday"@ {
        Some(6)
    } else {
        Option::None
    }
}

/// The weekday of an instant: 0 is Monday; the Unix epoch fell on a
/// Thursday.
pub open spec fn weekday_of_micros(t: int) -> int {
    (t / 86400000000 + 3) % 7
}

/// The calendar fields of a date token `Y-M-D`: a four-digit year is taken
/// as it is, a two-digit year means 2000+; month and day have one or two
/// digits.  `None` when the token has another shape.
pub open spec fn date_of(t: Seq<char>) -> Option<(int, int, int)> {
    let ps = split_on(t, '-');
    if ps.len() == 3 && all_digits(ps[0]) && all_digits(ps[1]) && all_digits(ps[2]) && (ps[0].len()
        == 4 || ps[0].len() == 2) && 1 <= ps[1].len() <= 2 && 1 <= ps[2].len() <= 2 {
        let y = if ps[0].len() == 4 {
            dec_val(ps[0])
        } else {
            dec_val(ps[0]) + 2000
        };
        Some((y, dec_val(ps[1]), dec_val(ps[2])))
    } else {
        Option::None
    }
}

/// The fields of a time token `H:M`, `H:M:S` or `H:M:S.US`; the
/// microsecond run has one to six digits and is read as a count of
/// microseconds.  `None` when the token has another shape.
pub open spec fn time_of(t: Seq<char>) -> Option<(int, int, int, int)> {
    let ps = split_on(t, ':');
    if ps.len() == 2 && 1 <= ps[0].len() <= 2 && 1 <= ps[1].len() <= 2 && all_digits(ps[0])
        && all_digits(ps[1]) {
        Some((dec_val(ps[0]), dec_val(ps[1]), 0, 0))
    } else if ps.len() == 3 && 1 <= ps[0].len() <= 2 && 1 <= ps[1].len() <= 2 && all_digits(ps[0])
        && all_digits(ps[1]) {
        let qs = split_on(ps[2], '.');
        if qs.len() == 1 && 1 <= qs[0].len() <= 2 && all_digits(qs[0]) {
            Some((dec_val(ps[0]), dec_val(ps[1]), dec_val(qs[0]), 0))
        } else if qs.len() == 2 && 1 <= qs[0].len() <= 2 && all_digits(qs[0]) && 1 <= qs[1].len()
            <= 6 && all_digits(qs[1]) {
            Some((dec_val(ps[0]), dec_val(ps[1]), dec_val(qs[0]), dec_val(qs[1])))
        } else {
            Option::None
        }
    } else {
        Option::None
    }
}

/// Whether a token is one of the special keywords.
pub open spec fn is_special(t: Seq<char>) -> bool {
    t == "now"@ || t == "today"@ || t == "tomorrow"@ || t == "yesterday"@
}

/// The `@`-form: a signed integer of epoch seconds.
pub open spec fn absolute_model(r: Seq<char>) -> Result<i64, DtErr> {
    let neg = r.len() > 0 && r[0] == '-';
    let digits = if r.len() > 0 && (r[0] == '-' || r[0] == '+') {
        r.drop_first()
    } else {
        r
    };
    if digits.len() == 0 || !all_digits(digits) {
        Err(DtErr::Syntax)
    } else if dec_val(digits) > i64::MAX / 1000000 {
        Err(DtErr::OutOfRange)
    } else if neg {
        Ok((-dec_val(digits) * 1000000) as i64)
    } else {
        Ok((dec_val(digits) * 1000000) as i64)
    }
}

/// The special keywords, anchored at local midnight today in the named
/// zone (UTC when the name is absent or unknown); `now` is the current
/// instant itself.
pub open spec fn special_model(
    ts: Seq<Seq<char>>,
    now: i64,
    ny: int,
    nmo: int,
    nd: int,
) -> Result<i64, DtErr> {
    if ts.len() > 2 {
        Err(DtErr::Syntax)
    } else if ts[0] == "now"@ {
        Ok(now)
    } else {
        let base = if ts.len() == 2 && tz_known(ts[1]) {
            tz_epoch_micros_of(ts[1], ny, nmo, nd, 0, 0, 0)
        } else {
            utc_epoch_micros_of(ny, nmo, nd, 0, 0, 0)
        };
        match base {
            Option::None => Err(DtErr::InvalidCalendar),
            Option::Some(b) => {
                if ts[0] == "today"@ {
                    Ok(b)
                } else if ts[0] == "tomorrow"@ {
                    if b > i64::MAX - 86400000000 {
                        Err(DtErr::OutOfRange)
                    } else {
                        Ok((b + 86400000000) as i64)
                    }
                } else {
                    if b < i64::MIN + 86400000000 {
                        Err(DtErr::OutOfRange)
                    } else {
                        Ok((b - 86400000000) as i64)
                    }
                }
            },
        }
    }
}

/// The last step of the `full_len` form: add the microsecond run to the
/// zone-resolved instant and validate the weekday.
pub open spec fn full_finish(base: Option<i64>, wd: Option<int>, us: int) -> Result<i64, DtErr> {
    match base {
        Option::None => Err(DtErr::InvalidCalendar),
        Option::Some(b) => {
            if b > i64::MAX - us {
                Err(DtErr::OutOfRange)
            } else {
                let total = (b + us) as i64;
                match wd {
                    Option::Some(w) => if weekday_of_micros(total as int) == w {
                        Ok(total)
                    } else {
                        Err(DtErr::WeekdayMismatch)
                    },
                    Option::None => Ok(total),
                }
            }
        },
    }
}

/// The `full_len` form: optional weekday, date, time and timezone, in that
/// order.
pub open spec fn full_model(ts: Seq<Seq<char>>, ny: int, nmo: int, nd: int) -> Result<i64, DtErr> {
    if ts.len() == 0 {
        Err(DtErr::Syntax)
    } else {
        let wd = if weekday_num(ts[0]) is Some {
            weekday_num(ts[0])
        } else {
            Option::None
        };
        let i1: int = if wd is Some {
            1
        } else {
            0
        };
        let dt = if i1 < ts.len() && date_of(ts[i1]) is Some {
            date_of(ts[i1])
        } else {
            Option::None
        };
        let i2: int = if dt is Some {
            i1 + 1
        } else {
            i1
        };
        let tm = if i2 < ts.len() && time_of(ts[i2]) is Some {
            time_of(ts[i2])
        } else {
            Option::None
        };
        let i3: int = if tm is Some {
            i2 + 1
        } else {
            i2
        };
        if ts.len() > i3 + 1 {
            Err(DtErr::Syntax)
        } else {
            let ymd = match dt {
                Option::Some(x) => x,
                Option::None => (ny, nmo, nd),
            };
            let hms = match tm {
                Option::Some(x) => x,
                Option::None => (0int, 0int, 0int, 0int),
            };
            if ts.len() == i3 + 1 {
                let nm = ts[i3];
                if !tz_known(nm) {
                    Err(DtErr::UnknownTimezone { name: nm })
                } else {
                    full_finish(
                        tz_epoch_micros_of(nm, ymd.0, ymd.1, ymd.2, hms.0, hms.1, hms.2),
                        wd,
                        hms.3,
                    )
                }
            } else {
                full_finish(
                    utc_epoch_micros_of(ymd.0, ymd.1, ymd.2, hms.0, hms.1, hms.2),
                    wd,
                    hms.3,
                )
            }
        }
    }
}

/// What a datetime string denotes, relative to the current instant `now`
/// (epoch microseconds) and its UTC calendar date `ny-nmo-nd`.
pub open spec fn parse_datetime_model(
    s: Seq<char>,
    now: i64,
    ny: int,
    nmo: int,
    nd: int,
) -> Result<i64, DtErr> {
    if s.len() > 0 && s[0] == '@' {
        absolute_model(s.drop_first())
    } else if s.len() > 0 && s[0] == '+' {
        match parse_duration_model(s.drop_first()) {
            Option::None => Err(DtErr::Syntax),
            Option::Some(d) => if now > i64::MAX - d {
                Err(DtErr::OutOfRange)
            } else {
                Ok((now + d) as i64)
            },
        }
    } else if s.len() > 0 && s[0] == '-' {
        match parse_duration_model(s.drop_first()) {
            Option::None => Err(DtErr::Syntax),
            Option::Some(d) => if now < i64::MIN + d {
                Err(DtErr::OutOfRange)
            } else {
                Ok((now - d) as i64)
            },
        }
    } else {
        let ts = tokens_of(s);
        if ts.len() >= 1 && is_special(ts[0]) {
            special_model(ts, now, ny, nmo, nd)
        } else {
            full_model(ts, ny, nmo, nd)
        }
    }
}

// ---------------------------------------------------------------------------
// Small arithmetic facts
// ---------------------------------------------------------------------------

/// Ten to the `n`.
pub open spec fn pow10(n: nat) -> int
    decreases n,
{
    if n == 0 {
        1
    } else {
        10 * pow10((n - 1) as nat)
    }
}

proof fn lemma_dec_val_bound(s: Seq<char>)
    requires
        all_digits(s),
    ensures
        0 <= dec_val(s) < pow10(s.len()),
    decreases s.len(),
{
    if s.len() == 0 {
    } else {
        assert(all_digits(s.drop_last())) by {
            assert(forall|i: int|
                0 <= i < s.len() - 1 ==> s.drop_last()[i] == #[trigger] s[i]);
        }
        lemma_dec_val_bound(s.drop_last());
        assert(is_digit(s.last()));
        assert(0 <= digit_val_of(s.last()) <= 9);
        assert(dec_val(s) == dec_val(s.drop_last()) * 10 + crate::text::digit_val(s.last()));
        assert(pow10(s.len()) == 10 * pow10((s.len() - 1) as nat));
    }
}

spec fn digit_val_of(c: char) -> int {
    crate::text::digit_val(c)
}

// ---------------------------------------------------------------------------
// Executable helpers
// ---------------------------------------------------------------------------

fn filter_tokens(parts: Vec<Vec<char>>) -> (r: Vec<Vec<char>>)
    ensures
        r.deep_view() == non_empty(parts.deep_view()),
{
    let ghost orig = parts.deep_view();
    let n: usize = parts.len();
    let mut out: Vec<Vec<char>> = Vec::new();
    let mut rest = parts;
    proof {
        assert(out.deep_view() =~~= Seq::<Seq<char>>::empty());
        assert(out.deep_view() + non_empty(rest.deep_view()) =~~= non_empty(orig));
    }
    while rest.len() > 0
        invariant
            non_empty(orig) == out.deep_view() + non_empty(rest.deep_view()),
        decreases rest.len(),
    {
        let ghost rest0 = rest.deep_view();
        let t = rest.remove(0);
        proof {
            assert(rest.deep_view() =~~= rest0.drop_first());
            assert(rest0[0] == t@);
        }
        if t.len() > 0 {
            let ghost out0 = out.deep_view();
            let ghost tm = t@;
            out.push(t);
            proof {
                assert(out.deep_view() =~~= out0.push(tm));
                assert(out.deep_view() + non_empty(rest.deep_view()) =~~= out0 + (seq![tm]
                    + non_empty(rest.deep_view())));
            }
        }
    }
    proof {
        assert(rest.deep_view() =~~= Seq::<Seq<char>>::empty());
        assert(non_empty(rest.deep_view()) =~~= Seq::<Seq<char>>::empty());
        assert(out.deep_view() =~~= non_empty(orig));
    }
    out
}

fn all_digits_exec(t: &Vec<char>) -> (r: bool)
    ensures
        r == all_digits(t@),
{
    let n: usize = t.len();
    let mut i: usize = 0;
    while i < n
        invariant
            i <= n,
            n == t@.len(),
            forall|j: int| 0 <= j < i ==> is_digit(#[trigger] t@[j]),
        decreases n - i,
    {
        let cu = t[i] as u32;
        if !(48 <= cu && cu <= 57) {
            return false;
        }
        i = i + 1;
    }
    true
}

fn weekday_exec(t: &Vec<char>) -> (r: Option<u8>)
    ensures
        match r {
            Some(w) => weekday_num(t@) == Some(w as int),
            Option::None => weekday_num(t@) is None,
        },
{
    if vec_eq_str(t, "Mon") || vec_eq_str(t, "Monday") {
        Some(0)
    } else if vec_eq_str(t, "Tue") || vec_eq_str(t, "Tuesday") {
        Some(1)
    } else if vec_eq_str(t, "Wed") || vec_eq_str(t, "Wednesday") {
        Some(2)
    } else if vec_eq_str(t, "Thu") || vec_eq_str(t, "Thursday") {
        Some(3)
    } else if vec_eq_str(t, "Fri") || vec_eq_str(t, "Friday") {
        Some(4)
    } else if vec_eq_str(t, "Sat") || vec_eq_str(t, "Saturday") {
        Some(5)
    } else if vec_eq_str(t, "Sun") || vec_eq_str(t, "Sunday") {
        Some(6)
    } else {
        Option::None
    }
}

fn date_exec(t: &Vec<char>) -> (r: Option<(i32, u32, u32)>)
    ensures
        match r {
            Some(x) => date_of(t@) == Some((x.0 as int, x.1 as int, x.2 as int)),
            Option::None => date_of(t@) is None,
        },
{
    let ps = split_vec(t, '-');
    proof {
        assert(ps.deep_view().len() == ps@.len());
    }
    if ps.len() != 3 {
        return Option::None;
    }
    let p0 = &ps[0];
    let p1 = &ps[1];
    let p2 = &ps[2];
    proof {
        assert(p0@ == split_on(t@, '-')[0]);
        assert(p1@ == split_on(t@, '-')[1]);
        assert(p2@ == split_on(t@, '-')[2]);
    }
    if !(p0.len() == 4 || p0.len() == 2) {
        return Option::None;
    }
    if !(1 <= p1.len() && p1.len() <= 2) || !(1 <= p2.len() && p2.len() <= 2) {
        return Option::None;
    }
    if !all_digits_exec(p0) || !all_digits_exec(p1) || !all_digits_exec(p2) {
        return Option::None;
    }
    proof {
        lemma_dec_val_bound(p0@);
        lemma_dec_val_bound(p1@);
        lemma_dec_val_bound(p2@);
        assert(pow10(0) == 1);
        assert(pow10(1) == 10);
        assert(pow10(2) == 100);
        assert(pow10(3) == 1000);
        assert(pow10(4) == 10000);
    }
    let y0 = parse_dec_u64(p0, 0, p0.len());
    let m0 = parse_dec_u64(p1, 0, p1.len());
    let d0 = parse_dec_u64(p2, 0, p2.len());
    proof {
        assert(p0@.subrange(0, p0@.len() as int) =~= p0@);
        assert(p1@.subrange(0, p1@.len() as int) =~= p1@);
        assert(p2@.subrange(0, p2@.len() as int) =~= p2@);
    }
    match (y0, m0, d0) {
        (Some(y), Some(m), Some(d)) => {
            let year: i32 = if p0.len() == 4 {
                y as i32
            } else {
                y as i32 + 2000
            };
            Some((year, m as u32, d as u32))
        },
        _ => {
            proof {
                assert(false);
            }
            Option::None
        },
    }
}

fn time_exec(t: &Vec<char>) -> (r: Option<(u32, u32, u32, u32)>)
    ensures
        match r {
            Some(x) => time_of(t@) == Some((x.0 as int, x.1 as int, x.2 as int, x.3 as int)),
            Option::None => time_of(t@) is None,
        },
{
    let ps = split_vec(t, ':');
    proof {
        assert(ps.deep_view().len() == ps@.len());
    }
    if !(ps.len() == 2 || ps.len() == 3) {
        return Option::None;
    }
    let p0 = &ps[0];
    let p1 = &ps[1];
    proof {
        assert(p0@ == split_on(t@, ':')[0]);
        assert(p1@ == split_on(t@, ':')[1]);
    }
    if !(1 <= p0.len() && p0.len() <= 2) || !(1 <= p1.len() && p1.len() <= 2) {
        return Option::None;
    }
    if !all_digits_exec(p0) || !all_digits_exec(p1) {
        return Option::None;
    }
    proof {
        lemma_dec_val_bound(p0@);
        lemma_dec_val_bound(p1@);
        assert(pow10(0) == 1);
        assert(pow10(1) == 10);
        assert(pow10(2) == 100);
    }
    let h0 = parse_dec_u64(p0, 0, p0.len());
    let m0 = parse_dec_u64(p1, 0, p1.len());
    proof {
        assert(p0@.subrange(0, p0@.len() as int) =~= p0@);
        assert(p1@.subrange(0, p1@.len() as int) =~= p1@);
    }
    let h: u64 = match h0 {
        Some(x) => x,
        Option::None => {
            proof {
                assert(false);
            }
            return Option::None;
        },
    };
    let m: u64 = match m0 {
        Some(x) => x,
        Option::None => {
            proof {
                assert(false);
            }
            return Option::None;
        },
    };
    if ps.len() == 2 {
        return Some((h as u32, m as u32, 0, 0));
    }
    let p2 = &ps[2];
    proof {
        assert(p2@ == split_on(t@, ':')[2]);
    }
    let qs = split_vec(p2, '.');
    proof {
        assert(qs.deep_view().len() == qs@.len());
    }
    if !(qs.len() == 1 || qs.len() == 2) {
        return Option::None;
    }
    let q0 = &qs[0];
    proof {
        assert(q0@ == split_on(p2@, '.')[0]);
    }
    if !(1 <= q0.len() && q0.len() <= 2) || !all_digits_exec(q0) {
        return Option::None;
    }
    proof {
        lemma_dec_val_bound(q0@);
        assert(pow10(0) == 1);
        assert(pow10(1) == 10);
        assert(pow10(2) == 100);
    }
    let s0 = parse_dec_u64(q0, 0, q0.len());
    proof {
        assert(q0@.subrange(0, q0@.len() as int) =~= q0@);
    }
    let sec: u64 = match s0 {
        Some(x) => x,
        Option::None => {
            proof {
                assert(false);
            }
            return Option::None;
        },
    };
    if qs.len() == 1 {
        return Some((h as u32, m as u32, sec as u32, 0));
    }
    let q1 = &qs[1];
    proof {
        assert(q1@ == split_on(p2@, '.')[1]);
    }
    if !(1 <= q1.len() && q1.len() <= 6) || !all_digits_exec(q1) {
        return Option::None;
    }
    proof {
        lemma_dec_val_bound(q1@);
        assert(pow10(0) == 1);
        assert(pow10(1) == 10);
        assert(pow10(2) == 100);
        assert(pow10(3) == 1000);
        assert(pow10(4) == 10000);
        assert(pow10(5) == 100000);
        assert(pow10(6) == 1000000);
    }
    let u0 = parse_dec_u64(q1, 0, q1.len());
    proof {
        assert(q1@.subrange(0, q1@.len() as int) =~= q1@);
    }
    match u0 {
        Some(us) => Some((h as u32, m as u32, sec as u32, us as u32)),
        Option::None => {
            proof {
                assert(false);
            }
            Option::None
        },
    }
}

/// The weekday of an instant, 0 for Monday through 6 for Sunday.
pub fn weekday_of(micros: i64) -> (r: u8)
    ensures
        r as int == weekday_of_micros(micros as int),
        r < 7,
{
    // shift by a whole number of weeks so the dividend is nonnegative
    let shifted: i128 = micros as i128 + 9223571952000000000_i128;
    let su: u128 = shifted as u128;
    let day: u128 = su / 86400000000_u128;
    let wd: u128 = (day + 3) % 7;
    proof {
        let m = micros as int;
        let d: int = 86400000000;
        // the shift is a whole number of days: 106754305 of them,
        // which is itself a whole number of weeks: 15250615 of them
        assert(9223571952000000000 == d * 106754305);
        assert(106754305 == 7 * 15250615);
        lemma_hoist_over_denominator(m, 106754305, 86400000000nat);
        assert(m / d + 106754305 == (m + 106754305 * d) / d);
        assert(su as int == m + 106754305 * d);
        assert(day as int == m / d + 106754305);
        lemma_mod_multiples_vanish(15250615, m / d + 3, 7);
        assert(7 * 15250615 + (m / d + 3) == day as int + 3);
        assert((day as int + 3) % 7 == (m / d + 3) % 7);
        lemma_fundamental_div_mod(day as int + 3, 7);
        lemma_mod_division_less_than_divisor(day as int + 3, 7);
    }
    wd as u8
}

// ---------------------------------------------------------------------------
// The parser
// ---------------------------------------------------------------------------

/// Parses a datetime string against an explicitly given current instant
/// (`now_micros`, with its UTC calendar date `now_year-now_month-now_day`).
///
/// Returns exactly the instant [`parse_datetime_model`] ascribes to the
/// input, or the error the model gives: `Syntax` when no shape matches,
/// `UnknownTimezone` for a foreign zone name, `InvalidCalendar` when the
/// fields name no instant, `WeekdayMismatch` when the given weekday
/// disagrees with the resolved date, `OutOfRange` when the result leaves
/// the microsecond counter.
pub fn parse_datetime_at(
    input: &str,
    now_micros: i64,
    now_year: i32,
    now_month: u32,
    now_day: u32,
) -> (r: Result<Instant, DatetimeError>)
    ensures
        datetime_matches(
            input@,
            r,
            now_micros,
            now_year as int,
            now_month as int,
            now_day as int,
        ),
{
    let v = chars_of(input);
    if v.len() > 0 && v[0] == '@' {
        let rest = subvec(&v, 1, v.len());
        proof {
            assert(rest@ =~= input@.drop_first());
        }
        let r = parse_absolute(&rest);
        return r;
    }
    if v.len() > 0 && (v[0] == '+' || v[0] == '-') {
        let neg = v[0] == '-';
        let rest = subvec(&v, 1, v.len());
        let rest_s = string_from_chars(&rest);
        proof {
            assert(rest@ =~= input@.drop_first());
        }
        match parse_duration(rest_s.as_str()) {
            Err(_) => {
                return Err(DatetimeError::Syntax);
            },
            Ok(d) => {
                if neg {
                    if now_micros < i64::MIN + d.micros {
                        return Err(DatetimeError::OutOfRange);
                    }
                    return Ok(Instant { epoch_micros: now_micros - d.micros });
                } else {
                    if now_micros > i64::MAX - d.micros {
                        return Err(DatetimeError::OutOfRange);
                    }
                    return Ok(Instant { epoch_micros: now_micros + d.micros });
                }
            },
        }
    }
    let raw = split_vec(&v, ' ');
    let ts = filter_tokens(raw);
    let ghost tsm = tokens_of(input@);
    proof {
        assert(ts.deep_view() == tsm);
        assert(ts.deep_view().len() == ts@.len());
    }
    if ts.len() >= 1 {
        let t0 = &ts[0];
        proof {
            assert(t0@ == tsm[0]);
        }
        if vec_eq_str(t0, "now") || vec_eq_str(t0, "today") || vec_eq_str(t0, "tomorrow")
            || vec_eq_str(t0, "yesterday") {
            return parse_special(&ts, now_micros, now_year, now_month, now_day, Ghost(tsm));
        }
    }
    parse_full(&ts, now_year, now_month, now_day, Ghost(tsm))
}

/// How an executable outcome relates to the model.
pub open spec fn datetime_matches(
    s: Seq<char>,
    r: Result<Instant, DatetimeError>,
    now: i64,
    ny: int,
    nmo: int,
    nd: int,
) -> bool {
    match r {
        Ok(t) => parse_datetime_model(s, now, ny, nmo, nd) == Ok::<i64, DtErr>(t.epoch_micros),
        Err(e) => match e {
            DatetimeError::Syntax => parse_datetime_model(s, now, ny, nmo, nd) == Err::<i64, DtErr>(
                DtErr::Syntax,
            ),
            DatetimeError::UnknownTimezone { name } => parse_datetime_model(s, now, ny, nmo, nd)
                == Err::<i64, DtErr>(DtErr::UnknownTimezone { name: name@ }),
            DatetimeError::InvalidCalendar => parse_datetime_model(s, now, ny, nmo, nd) == Err::<
                i64,
                DtErr,
            >(DtErr::InvalidCalendar),
            DatetimeError::WeekdayMismatch => parse_datetime_model(s, now, ny, nmo, nd) == Err::<
                i64,
                DtErr,
            >(DtErr::WeekdayMismatch),
            DatetimeError::OutOfRange => parse_datetime_model(s, now, ny, nmo, nd) == Err::<
                i64,
                DtErr,
            >(DtErr::OutOfRange),
        },
    }
}

fn parse_absolute(rest: &Vec<char>) -> (r: Result<Instant, DatetimeError>)
    ensures
        match r {
            Ok(t) => absolute_model(rest@) == Ok::<i64, DtErr>(t.epoch_micros),
            Err(e) => match e {
                DatetimeError::Syntax => absolute_model(rest@) == Err::<i64, DtErr>(DtErr::Syntax),
                DatetimeError::OutOfRange => absolute_model(rest@) == Err::<i64, DtErr>(
                    DtErr::OutOfRange,
                ),
                _ => false,
            },
        },
{
    let n: usize = rest.len();
    let mut neg: bool = false;
    let mut start: usize = 0;
    if n > 0 && (rest[0] == '-' || rest[0] == '+') {
        neg = rest[0] == '-';
        start = 1;
    }
    let ghost digits = if rest@.len() > 0 && (rest@[0] == '-' || rest@[0] == '+') {
        rest@.drop_first()
    } else {
        rest@
    };
    proof {
        assert(rest@.subrange(start as int, n as int) =~= digits);
    }
    if start >= n {
        return Err(DatetimeError::Syntax);
    }
    let body = subvec(rest, start, n);
    if !all_digits_exec(&body) {
        return Err(DatetimeError::Syntax);
    }
    let parsed = parse_dec_u64(&body, 0, body.len());
    proof {
        assert(body@.subrange(0, body@.len() as int) =~= body@);
    }
    let val: u64 = match parsed {
        Some(x) => x,
        Option::None => {
            return Err(DatetimeError::OutOfRange);
        },
    };
    if val > 9223372036854 {
        return Err(DatetimeError::OutOfRange);
    }
    let sec: i64 = val as i64;
    if neg {
        Ok(Instant { epoch_micros: -(sec * 1000000) })
    } else {
        Ok(Instant { epoch_micros: sec * 1000000 })
    }
}

/// Always true: a trigger carrier for quantifying over current instants.
pub open spec fn trivial_now(now: i64, ny: int, nmo: int, nd: int) -> bool {
    true
}

fn parse_special(
    ts: &Vec<Vec<char>>,
    now_micros: i64,
    now_year: i32,
    now_month: u32,
    now_day: u32,
    Ghost(tsm): Ghost<Seq<Seq<char>>>,
) -> (r: Result<Instant, DatetimeError>)
    requires
        ts.deep_view() == tsm,
        tsm.len() >= 1,
        is_special(tsm[0]),
    ensures
        match r {
            Ok(t) => special_model(
                tsm,
                now_micros,
                now_year as int,
                now_month as int,
                now_day as int,
            ) == Ok::<i64, DtErr>(t.epoch_micros),
            Err(e) => match e {
                DatetimeError::Syntax => special_model(
                    tsm,
                    now_micros,
                    now_year as int,
                    now_month as int,
                    now_day as int,
                ) == Err::<i64, DtErr>(DtErr::Syntax),
                DatetimeError::InvalidCalendar => special_model(
                    tsm,
                    now_micros,
                    now_year as int,
                    now_month as int,
                    now_day as int,
                ) == Err::<i64, DtErr>(DtErr::InvalidCalendar),
                DatetimeError::OutOfRange => special_model(
                    tsm,
                    now_micros,
                    now_year as int,
                    now_month as int,
                    now_day as int,
                ) == Err::<i64, DtErr>(DtErr::OutOfRange),
                _ => false,
            },
        },
{
    proof {
        assert(ts.deep_view().len() == ts@.len());
    }
    if ts.len() > 2 {
        return Err(DatetimeError::Syntax);
    }
    let t0 = &ts[0];
    proof {
        assert(t0@ == tsm[0]);
    }
    if vec_eq_str(t0, "now") {
        return Ok(Instant { epoch_micros: now_micros });
    }
    let base: Option<i64> = if ts.len() == 2 {
        let t1 = &ts[1];
        proof {
            assert(t1@ == tsm[1]);
        }
        let name = string_from_chars(t1);
        if tz_name_known(name.as_str()) {
            tz_wall_to_epoch(name.as_str(), now_year, now_month, now_day, 0, 0, 0)
        } else {
            utc_wall_to_epoch(now_year, now_month, now_day, 0, 0, 0)
        }
    } else {
        utc_wall_to_epoch(now_year, now_month, now_day, 0, 0, 0)
    };
    let b: i64 = match base {
        Some(b) => b,
        Option::None => {
            return Err(DatetimeError::InvalidCalendar);
        },
    };
    if vec_eq_str(t0, "today") {
        Ok(Instant { epoch_micros: b })
    } else if vec_eq_str(t0, "tomorrow") {
        if b > i64::MAX - 86400000000 {
            return Err(DatetimeError::OutOfRange);
        }
        Ok(Instant { epoch_micros: b + 86400000000 })
    } else {
        if b < i64::MIN + 86400000000 {
            return Err(DatetimeError::OutOfRange);
        }
        Ok(Instant { epoch_micros: b - 86400000000 })
    }
}

fn parse_full(
    ts: &Vec<Vec<char>>,
    now_year: i32,
    now_month: u32,
    now_day: u32,
    Ghost(tsm): Ghost<Seq<Seq<char>>>,
) -> (r: Result<Instant, DatetimeError>)
    requires
        ts.deep_view() == tsm,
    ensures
        match r {
            Ok(t) => full_model(tsm, now_year as int, now_month as int, now_day as int) == Ok::<
                i64,
                DtErr,
            >(t.epoch_micros),
            Err(e) => match e {
                DatetimeError::Syntax => full_model(
                    tsm,
                    now_year as int,
                    now_month as int,
                    now_day as int,
                ) == Err::<i64, DtErr>(DtErr::Syntax),
                DatetimeError::UnknownTimezone { name } => full_model(
                    tsm,
                    now_year as int,
                    now_month as int,
                    now_day as int,
                ) == Err::<i64, DtErr>(DtErr::UnknownTimezone { name: name@ }),
                DatetimeError::InvalidCalendar => full_model(
                    tsm,
                    now_year as int,
                    now_month as int,
                    now_day as int,
                ) == Err::<i64, DtErr>(DtErr::InvalidCalendar),
                DatetimeError::WeekdayMismatch => full_model(
                    tsm,
                    now_year as int,
                    now_month as int,
                    now_day as int,
                ) == Err::<i64, DtErr>(DtErr::WeekdayMismatch),
                DatetimeError::OutOfRange => full_model(
                    tsm,
                    now_year as int,
                    now_month as int,
                    now_day as int,
                ) == Err::<i64, DtErr>(DtErr::OutOfRange),
            },
        },
{
    proof {
        assert(ts.deep_view().len() == ts@.len());
    }
    let n: usize = ts.len();
    if n == 0 {
        return Err(DatetimeError::Syntax);
    }
    proof {
        assert(ts.deep_view()[0] == ts@[0]@);
    }
    let wd: Option<u8> = weekday_exec(&ts[0]);
    let i1: usize = if wd.is_some() {
        1
    } else {
        0
    };
    let dt: Option<(i32, u32, u32)> = if i1 < n {
        proof {
            assert(ts.deep_view()[i1 as int] == ts@[i1 as int]@);
        }
        date_exec(&ts[i1])
    } else {
        Option::None
    };
    let i2: usize = if dt.is_some() {
        i1 + 1
    } else {
        i1
    };
    let tm: Option<(u32, u32, u32, u32)> = if i2 < n {
        proof {
            assert(ts.deep_view()[i2 as int] == ts@[i2 as int]@);
        }
        time_exec(&ts[i2])
    } else {
        Option::None
    };
    let i3: usize = if tm.is_some() {
        i2 + 1
    } else {
        i2
    };
    if i3 < n && n - i3 > 1 {
        return Err(DatetimeError::Syntax);
    }
    let tzname: Option<String> = if i3 < n {
        proof {
            assert(ts.deep_view()[i3 as int] == ts@[i3 as int]@);
        }
        Some(string_from_chars(&ts[i3]))
    } else {
        Option::None
    };
    let (y, mo, d): (i32, u32, u32) = match dt {
        Some(x) => x,
        Option::None => (now_year, now_month, now_day),
    };
    let (h, mi, sec, us): (u32, u32, u32, u32) = match tm {
        Some(x) => x,
        Option::None => (0, 0, 0, 0),
    };
    let base: Option<i64> = match &tzname {
        Option::Some(nm) => {
            if !tz_name_known(nm.as_str()) {
                return Err(DatetimeError::UnknownTimezone { name: nm.clone() });
            }
            tz_wall_to_epoch(nm.as_str(), y, mo, d, h, mi, sec)
        },
        Option::None => utc_wall_to_epoch(y, mo, d, h, mi, sec),
    };
    let b: i64 = match base {
        Some(b) => b,
        Option::None => {
            return Err(DatetimeError::InvalidCalendar);
        },
    };
    if b > i64::MAX - (us as i64) {
        return Err(DatetimeError::OutOfRange);
    }
    let total: i64 = b + (us as i64);
    match wd {
        Some(w) => {
            let actual = weekday_of(total);
            if actual == w {
                Ok(Instant { epoch_micros: total })
            } else {
                Err(DatetimeError::WeekdayMismatch)
            }
        },
        Option::None => Ok(Instant { epoch_micros: total }),
    }
}

/// Parses a datetime string against the machine clock.
///
/// Whatever instant the clock reports, the outcome is exactly what
/// [`parse_datetime_model`] ascribes to the input for that instant.
pub fn parse_datetime(input: &str) -> (r: Result<Instant, DatetimeError>)
    ensures
        exists|now: i64, ny: int, nmo: int, nd: int|
            #[trigger] trivial_now(now, ny, nmo, nd) && datetime_matches(
                input@,
                r,
                now,
                ny,
                nmo,
                nd,
            ),
{
    let (now_micros, ny, nmo, nd) = now_utc();
    let r = parse_datetime_at(input, now_micros, ny, nmo, nd);
    proof {
        assert(trivial_now(now_micros, ny as int, nmo as int, nd as int) && datetime_matches(
            input@,
            r,
            now_micros,
            ny as int,
            nmo as int,
            nd as int,
        ));
    }
    r
}

} // verus!
