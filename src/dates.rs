use vstd::prelude::*;

use std::fmt::Write;

use crate::text::{
    chars_of, digit_run, digit_run_at, digits_value, lemma_digit_run_digits, parse_digits,
    string_of, trim, trim_bounds, word_eq,
};

verus! {

pub const SECONDS_PER_DAY: i64 = 86400;

/// The earliest day whose midnight is an `i64` count of seconds.
pub const MIN_DAY: i64 = -106751991167300;

/// The latest day whose midnight is an `i64` count of seconds.
pub const MAX_DAY: i64 = 106751991167300;

/// The day (counted from 1970-01-01) on which the instant `secs` falls, in UTC.
pub open spec fn day_of(secs: int) -> int {
    secs / 86400
}

/// The day of `secs`, where its midnight can be written in seconds.
pub open spec fn day_in_range(secs: int) -> Option<int> {
    if MIN_DAY <= day_of(secs) <= MAX_DAY {
        Some(day_of(secs))
    } else {
        None
    }
}

/// An instant, as whole seconds since 1970-01-01T00:00:00 UTC.
#[derive(Clone, Copy, Debug, PartialEq, Eq, Structural)]
pub struct SqliteDateTime(pub i64);

/// A calendar date, or none, as the number of days since 1970-01-01.
#[derive(Clone, Copy, Debug, PartialEq, Eq, Structural)]
pub struct NullableSqliteDateTime(pub Option<i64>);

/// The instant that an RFC 3339 text names, in seconds since the epoch.
pub uninterp spec fn rfc3339_seconds(s: Seq<char>) -> Option<int>;

/// The instant `n` calendar months before the instant `secs`.
pub uninterp spec fn months_before_of(secs: int, n: int) -> Option<int>;

/// The UTC date of the instant `secs` written by the strftime pattern `fmt`.
pub uninterp spec fn date_text(secs: int, fmt: Seq<char>) -> Option<Seq<char>>;

/// Relies on chrono's `DateTime::parse_from_rfc3339` and `DateTime::timestamp`: the
/// instant that an RFC 3339 text names, or nothing where the text is not RFC 3339.
#[verifier::external_body]
fn parse_rfc3339(s: &str) -> (r: Option<i64>)
    ensures
        match r {
            Some(t) => rfc3339_seconds(s@) == Some(t as int),
            None => rfc3339_seconds(s@) is None,
        },
{
    match chrono::DateTime::parse_from_rfc3339(s) {
        Ok(dt) => Some(dt.timestamp()),
        Err(_) => None,
    }
}

/// Relies on chrono's `DateTime::checked_sub_months`: the same time of day `n`
/// calendar months earlier (the month's last day where the day does not exist), or
/// nothing where that leaves chrono's range.
#[verifier::external_body]
fn months_before(secs: i64, n: u32) -> (r: Option<i64>)
    ensures
        match r {
            Some(t) => months_before_of(secs as int, n as int) == Some(t as int),
            None => months_before_of(secs as int, n as int) is None,
        },
{
    match chrono::DateTime::from_timestamp(secs, 0) {
        Some(dt) => match dt.checked_sub_months(chrono::Months::new(n)) {
            Some(earlier) => Some(earlier.timestamp()),
            None => None,
        },
        None => None,
    }
}

/// Relies on chrono's `DateTime::from_timestamp`, `DateTime::date_naive` and
/// `NaiveDate::format`: the UTC date of `secs` written by the pattern `fmt`, or nothing
/// where the instant is out of chrono's range or the pattern cannot be written.
#[verifier::external_body]
fn format_date(secs: i64, fmt: &str) -> (r: Option<String>)
    ensures
        match r {
            Some(t) => date_text(secs as int, fmt@) == Some(t@),
            None => date_text(secs as int, fmt@) is None,
        },
{
    let dt = chrono::DateTime::from_timestamp(secs, 0)?;
    let mut out = String::new();
    match write!(out, "{}", dt.date_naive().format(fmt)) {
        Ok(()) => Some(out),
        Err(_) => None,
    }
}

/// The day of `secs`, rounding down.
fn day_of_exec(secs: i64) -> (r: i64)
    ensures
        r as int == day_of(secs as int),
{
    if secs >= 0 {
        secs / 86400
    } else {
        let k = -(secs + 1);
        assert(k >= 0);
        let q = k / 86400;
        assert(secs == -(k + 1));
        assert(day_of(secs as int) == -q - 1) by (nonlinear_arith)
            requires
                k >= 0,
                q == k / 86400,
                secs == -(k + 1),
        {
        }
        -q - 1
    }
}

fn day_in_range_exec(secs: i64) -> (r: Option<i64>)
    ensures
        match r {
            Some(d) => day_in_range(secs as int) == Some(d as int),
            None => day_in_range(secs as int) is None,
        },
{
    let d = day_of_exec(secs);
    if MIN_DAY <= d && d <= MAX_DAY {
        Some(d)
    } else {
        None
    }
}

impl SqliteDateTime {
    /// The day on which this instant falls, in UTC.
    pub fn date(&self) -> (r: i64)
        ensures
            r as int == day_of(self.0 as int),
    {
        day_of_exec(self.0)
    }
}

impl NullableSqliteDateTime {
    /// The day, if any, lies where its midnight can be written in seconds.
    pub open spec fn wf(&self) -> bool {
        match self.0 {
            Some(d) => MIN_DAY <= d <= MAX_DAY,
            None => true,
        }
    }

    /// Whether the day, if any, lies where its midnight can be written in seconds.
    pub fn in_range(&self) -> (r: bool)
        ensures
            r == self.wf(),
    {
        match self.0 {
            Some(d) => MIN_DAY <= d && d <= MAX_DAY,
            None => true,
        }
    }

    /// The UTC date of a stored instant, if any; an instant whose day's midnight cannot
    /// be written in seconds gives no date.
    pub fn from_timestamp(value: Option<i64>) -> (r: Self)
        ensures
            r.wf(),
            match value {
                Some(t) => match day_in_range(t as int) {
                    Some(d) => r.0 == Some(d as i64),
                    None => r.0 is None,
                },
                None => r.0 is None,
            },
    {
        match value {
            Some(t) => NullableSqliteDateTime(day_in_range_exec(t)),
            None => NullableSqliteDateTime(None),
        }
    }

    /// Midnight (UTC) of the date, in seconds since the epoch.
    pub fn timestamp(&self) -> (r: Option<i64>)
        requires
            self.wf(),
        ensures
            r == match self.0 {
                Some(d) => Some((d * 86400) as i64),
                None => None::<i64>,
            },
    {
        match self.0 {
            Some(d) => Some(d * SECONDS_PER_DAY),
            None => None,
        }
    }

    /// The date written by the strftime pattern `fmt` (`%Y-%m-%d`); no date, a date
    /// outside chrono's range or a pattern that cannot be written gives the empty string.
    pub fn format(&self, fmt: &str) -> (r: String)
        requires
            self.wf(),
        ensures
            r@ == match self.0 {
                Some(d) => match date_text(d * 86400, fmt@) {
                    Some(t) => t,
                    None => Seq::<char>::empty(),
                },
                None => Seq::<char>::empty(),
            },
    {
        match self.0 {
            Some(d) => match format_date(d * SECONDS_PER_DAY, fmt) {
                Some(t) => t,
                None => string_of(Vec::new()),
            },
            None => string_of(Vec::new()),
        }
    }

    /// The UTC date of an RFC 3339 timestamp (`2024-06-10T08:30:00Z`).
    pub fn from_iso_str(s: &str) -> (r: Self)
        requires
            rfc3339_seconds(s@) is Some,
            day_in_range(rfc3339_seconds(s@)->0) is Some,
        ensures
            r.0 == Some(day_in_range(rfc3339_seconds(s@)->0)->0 as i64),
            r.wf(),
    {
        match parse_rfc3339(s) {
            Some(t) => match day_in_range_exec(t) {
                Some(d) => NullableSqliteDateTime(Some(d)),
                None => NullableSqliteDateTime(None),
            },
            None => NullableSqliteDateTime(None),
        }
    }
}

/// The UTC date of an RFC 3339 timestamp, or nothing where the text is not one.
pub fn parse_iso_date(s: &str) -> (r: Option<NullableSqliteDateTime>)
    ensures
        r == match rfc3339_seconds(s@) {
            Some(t) => match day_in_range(t) {
                Some(d) => Some(NullableSqliteDateTime(Some(d as i64))),
                None => None,
            },
            None => None,
        },
{
    match parse_rfc3339(s) {
        Some(t) => match day_in_range_exec(t) {
            Some(_) => Some(NullableSqliteDateTime::from_iso_str(s)),
            None => None,
        },
        None => None,
    }
}

pub open spec fn lower_char(c: char) -> char {
    if 65 <= c as u32 <= 90 {
        ((c as u32) + 32) as char
    } else {
        c
    }
}

/// `s` with its ASCII letters in lower case.
pub open spec fn ascii_lower(s: Seq<char>) -> Seq<char> {
    s.map_values(|c: char| lower_char(c))
}

/// A phrase that stands for the current day.
pub open spec fn is_today_word(t: Seq<char>) -> bool {
    t == seq!['t', 'o', 'd', 'a', 'y'] || t == seq!['j', 'u', 's', 't', ' ', 'n', 'o', 'w']
}

/// The length of a unit, singular, as (size, whether the size counts calendar months
/// rather than seconds).
pub open spec fn base_unit(w: Seq<char>) -> Option<(int, bool)> {
    if w == seq!['s', 'e', 'c', 'o', 'n', 'd'] {
        Some((1, false))
    } else if w == seq!['m', 'i', 'n', 'u', 't', 'e'] {
        Some((60, false))
    } else if w == seq!['h', 'o', 'u', 'r'] {
        Some((3600, false))
    } else if w == seq!['d', 'a', 'y'] {
        Some((86400, false))
    } else if w == seq!['w', 'e', 'e', 'k'] {
        Some((604800, false))
    } else if w == seq!['m', 'o', 'n', 't', 'h'] {
        Some((1, true))
    } else if w == seq!['y', 'e', 'a', 'r'] {
        Some((12, true))
    } else {
        None
    }
}

/// The length of a unit word, singular or plural (`day`, `days`).
pub open spec fn unit_of(w: Seq<char>) -> Option<(int, bool)> {
    if w.len() > 0 && w.last() == 's' && base_unit(w.drop_last()) is Some {
        base_unit(w.drop_last())
    } else {
        base_unit(w)
    }
}

pub open spec fn ago_suffix() -> Seq<char> {
    seq![' ', 'a', 'g', 'o']
}

/// A phrase `N <unit> ago`, already trimmed and in lower case, as its count and its
/// unit word.
pub open spec fn count_and_unit(t: Seq<char>) -> Option<(nat, Seq<char>)> {
    let d = digit_run(t, 0) as int;
    if d > 0 && d + 5 < t.len() && t[d] == ' ' && t.subrange(t.len() - 4, t.len() as int)
        == ago_suffix() {
        Some((digits_value(t.subrange(0, d)), t.subrange(d + 1, t.len() - 4)))
    } else {
        None
    }
}

/// The day that a relative phrase (`3 days ago`, `1 month ago`, `today`) names,
/// counted back from the instant `now`. Letter case and surrounding whitespace do not
/// matter. A phrase of any other form names no day.
pub open spec fn relative_day(p: Seq<char>, now: int) -> Option<int> {
    let t = ascii_lower(trim(p));
    if is_today_word(t) {
        day_in_range(now)
    } else {
        match count_and_unit(t) {
            Some((n, w)) => match unit_of(w) {
                Some((size, false)) => if n * size <= i64::MAX && i64::MIN <= now - n * size {
                    day_in_range(now - n * size)
                } else {
                    None
                },
                Some((size, true)) => if n * size <= u32::MAX {
                    match months_before_of(now, n * size) {
                        Some(t2) => day_in_range(t2),
                        None => None,
                    }
                } else {
                    None
                },
                None => None,
            },
            None => None,
        }
    }
}

fn lower_exec(c: char) -> (r: char)
    ensures
        r == lower_char(c),
{
    if 'A' <= c && c <= 'Z' {
        (((c as u32) + 32) as u8) as char
    } else {
        c
    }
}

fn base_unit_exec(v: &Vec<char>, lo: usize, hi: usize) -> (r: Option<(i64, bool)>)
    requires
        lo <= hi <= v.len(),
    ensures
        match r {
            Some((n, m)) => base_unit(v@.subrange(lo as int, hi as int)) == Some((n as int, m)),
            None => base_unit(v@.subrange(lo as int, hi as int)) is None,
        },
        r matches Some((n, _)) ==> 1 <= n <= 604800,
{
    if word_eq(v, lo, hi, &vec!['s', 'e', 'c', 'o', 'n', 'd']) {
        Some((1, false))
    } else if word_eq(v, lo, hi, &vec!['m', 'i', 'n', 'u', 't', 'e']) {
        Some((60, false))
    } else if word_eq(v, lo, hi, &vec!['h', 'o', 'u', 'r']) {
        Some((3600, false))
    } else if word_eq(v, lo, hi, &vec!['d', 'a', 'y']) {
        Some((86400, false))
    } else if word_eq(v, lo, hi, &vec!['w', 'e', 'e', 'k']) {
        Some((604800, false))
    } else if word_eq(v, lo, hi, &vec!['m', 'o', 'n', 't', 'h']) {
        Some((1, true))
    } else if word_eq(v, lo, hi, &vec!['y', 'e', 'a', 'r']) {
        Some((12, true))
    } else {
        None
    }
}

fn unit_exec(v: &Vec<char>, lo: usize, hi: usize) -> (r: Option<(i64, bool)>)
    requires
        lo <= hi <= v.len(),
    ensures
        match r {
            Some((n, m)) => unit_of(v@.subrange(lo as int, hi as int)) == Some((n as int, m)),
            None => unit_of(v@.subrange(lo as int, hi as int)) is None,
        },
        r matches Some((n, _)) ==> 1 <= n <= 604800,
{
    let ghost w = v@.subrange(lo as int, hi as int);
    if hi > lo && v[hi - 1] == 's' {
        proof {
            assert(w.drop_last() =~= v@.subrange(lo as int, hi - 1));
        }
        match base_unit_exec(v, lo, hi - 1) {
            Some(u) => {
                return Some(u);
            },
            None => {},
        }
    }
    base_unit_exec(v, lo, hi)
}

/// The phrase trimmed and in lower case.
fn lowered_trim(phrase: &str) -> (t: Vec<char>)
    ensures
        t@ == ascii_lower(trim(phrase@)),
{
    let raw = chars_of(phrase);
    let (i, j) = trim_bounds(&raw, 0, raw.len());
    let mut t: Vec<char> = Vec::new();
    let mut k = i;
    while k < j
        invariant
            i <= k <= j <= raw.len(),
            t@ == ascii_lower(raw@.subrange(i as int, k as int)),
        decreases j - k,
    {
        t.push(lower_exec(raw[k]));
        k = k + 1;
        proof {
            assert(t@ =~= ascii_lower(raw@.subrange(i as int, k as int)));
        }
    }
    proof {
        assert(raw@.subrange(0, raw@.len() as int) =~= raw@);
    }
    t
}

/// The count of `N <unit> ago` in `t` (where it fits in an `i64`) and the bounds of
/// its unit word.
fn count_and_unit_exec(t: &Vec<char>) -> (r: Option<(Option<i64>, usize, usize)>)
    ensures
        match r {
            Some((c, lo, hi)) => match count_and_unit(t@) {
                Some((n, w)) => {
                    &&& lo <= hi <= t.len()
                    &&& w == t@.subrange(lo as int, hi as int)
                    &&& match c {
                        Some(c) => n == c as int,
                        None => n > i64::MAX,
                    }
                },
                None => false,
            },
            None => count_and_unit(t@) is None,
        },
{
    let n = t.len();
    let d = digit_run_at(t, 0);
    proof {
        lemma_digit_run_digits(t@, 0);
    }
    if !(d > 0 && n > 5 && d < n - 5 && t[d] == ' ' && word_eq(t, n - 4, n, &vec![' ', 'a', 'g', 'o'])) {
        return None;
    }
    let count = parse_digits(t, 0, d);
    Some((count, d + 1, n - 4))
}

/// The day `count` units of `size` before `now`: seconds, or calendar months where
/// `months` holds.
fn count_back(now: i64, count: Option<i64>, size: i64, months: bool) -> (r: Option<i64>)
    requires
        1 <= size <= 604800,
        count matches Some(c) ==> c >= 0,
    ensures
        ({
            let spec_r = match count {
                None => None,
                Some(n) => if !months {
                    if n * size <= i64::MAX && i64::MIN <= now - n * size {
                        day_in_range(now - n * size)
                    } else {
                        None
                    }
                } else if n * size <= u32::MAX {
                    match months_before_of(now as int, n * size) {
                        Some(t2) => day_in_range(t2),
                        None => None,
                    }
                } else {
                    None
                },
            };
            match r {
                Some(d) => spec_r == Some(d as int),
                None => spec_r is None,
            }
        }),
{
    let count = match count {
        Some(c) => c,
        None => {
            return None;
        },
    };
    if !months {
        if count > i64::MAX / size {
            proof {
                assert(count * size > i64::MAX) by (nonlinear_arith)
                    requires
                        count > i64::MAX / size,
                        size > 0,
                ;
            }
            return None;
        }
        assert(count * size <= i64::MAX) by (nonlinear_arith)
            requires
                count <= i64::MAX / size,
                size > 0,
                count >= 0,
        ;
        let span = count * size;
        if now < i64::MIN + span {
            return None;
        }
        day_in_range_exec(now - span)
    } else {
        if count > (u32::MAX as i64) / size {
            proof {
                assert(count * size > u32::MAX) by (nonlinear_arith)
                    requires
                        count > (u32::MAX as int) / (size as int),
                        size > 0,
                ;
            }
            return None;
        }
        assert(count * size <= u32::MAX) by (nonlinear_arith)
            requires
                count <= (u32::MAX as int) / (size as int),
                size > 0,
                count >= 0,
        ;
        match months_before(now, (count * size) as u32) {
            Some(t2) => day_in_range_exec(t2),
            None => None,
        }
    }
}

/// The day that the relative phrase `phrase` names, counted back from the instant
/// `now`: `3 days ago`, `2 weeks ago`, `1 month ago`, `today`, `just now`. Seconds,
/// minutes, hours, days and weeks count back exact lengths of time; months and years
/// count back calendar months. A phrase of any other form gives nothing.
pub fn parse_relative_date(phrase: &str, now: SqliteDateTime) -> (r: Option<i64>)
    ensures
        match r {
            Some(d) => relative_day(phrase@, now.0 as int) == Some(d as int),
            None => relative_day(phrase@, now.0 as int) is None,
        },
{
    let t = lowered_trim(phrase);
    let n = t.len();
    proof {
        assert(t@.subrange(0, n as int) =~= t@);
    }
    if word_eq(&t, 0, n, &vec!['t', 'o', 'd', 'a', 'y']) || word_eq(
        &t,
        0,
        n,
        &vec!['j', 'u', 's', 't', ' ', 'n', 'o', 'w'],
    ) {
        return day_in_range_exec(now.0);
    }
    match count_and_unit_exec(&t) {
        Some((count, lo, hi)) => match unit_exec(&t, lo, hi) {
            Some((size, months)) => {
                proof {
                    if count is None {
                        let (c, w) = count_and_unit(t@)->0;
                        assert(c * size > i64::MAX) by (nonlinear_arith)
                            requires
                                c > i64::MAX,
                                size >= 1,
                        ;
                    }
                }
                count_back(now.0, count, size, months)
            },
            None => None,
        },
        None => None,
    }
}

impl NullableSqliteDateTime {
    /// The date that a relative phrase names, counted back from `now`; no date where
    /// the phrase is of no known form.
    pub fn from_relative(phrase: &str, now: SqliteDateTime) -> (r: Self)
        ensures
            r.wf(),
            match relative_day(phrase@, now.0 as int) {
                Some(d) => r.0 == Some(d as i64),
                None => r.0 is None,
            },
    {
        NullableSqliteDateTime(parse_relative_date(phrase, now))
    }
}

} // verus!
