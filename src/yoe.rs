use vstd::prelude::*;

use crate::text::{
    all_ascii_digits, ascii_digits_only, chars_of, dec_run, dec_run_at, digits_value, is_digit,
    parse_digits,
};

verus! {

/// `s` holds the word ` year` (with its leading space) at `u`.
pub open spec fn word_year_at(s: Seq<char>, u: int) -> bool {
    &&& 0 <= u
    &&& u + 5 <= s.len()
    &&& s[u] == ' '
    &&& s[u + 1] == 'y'
    &&& s[u + 2] == 'e'
    &&& s[u + 3] == 'a'
    &&& s[u + 4] == 'r'
}

/// Where a mention ends that continues at `t` with an optional `+`, then ` year`
/// and an optional `s`.
pub open spec fn year_tail(s: Seq<char>, t: int) -> Option<int> {
    let u = if 0 <= t < s.len() && s[t] == '+' {
        t + 1
    } else {
        t
    };
    if word_year_at(s, u) {
        Some(
            if u + 5 < s.len() && s[u + 5] == 's' {
                u + 6
            } else {
                u + 5
            },
        )
    } else {
        None
    }
}

/// A mention of years that starts at `i`: its end and the two digit groups it holds.
///
/// A mention is an optional run of decimal digits, an optional non-digit, a run of
/// digits, an optional `+`, then ` year` or ` years` (digits of any script, as `\d`).
/// Where a single run of digits is followed directly by the `+` or ` year`, that run is
/// the one count and the first group is empty.
pub open spec fn mention_at(s: Seq<char>, i: int) -> Option<(int, Seq<char>, Seq<char>)> {
    let d = dec_run(s, i) as int;
    let q = i + d + 1;
    let e = dec_run(s, q) as int;
    if 0 <= i && i + d < s.len() && e > 0 && year_tail(s, q + e) is Some {
        Some((year_tail(s, q + e)->0, s.subrange(i, i + d), s.subrange(q, q + e)))
    } else if 0 <= i && d > 0 && year_tail(s, i + d) is Some {
        Some((year_tail(s, i + d)->0, Seq::empty(), s.subrange(i, i + d)))
    } else {
        None
    }
}

/// The mentions of `s` from position `p` on, leftmost first and without overlap.
pub open spec fn mentions_from(s: Seq<char>, p: int) -> Seq<(Seq<char>, Seq<char>)>
    decreases s.len() - p,
{
    if p < 0 || p >= s.len() {
        Seq::empty()
    } else {
        match mention_at(s, p) {
            Some(m) => if p < m.0 <= s.len() {
                seq![(m.1, m.2)] + mentions_from(s, m.0)
            } else {
                Seq::empty()
            },
            None => mentions_from(s, p + 1),
        }
    }
}

/// The year counts that a digit group contributes: its value, unless it is empty, holds
/// a digit that is not ASCII, or is too large for an `i64`.
pub open spec fn group_values(g: Seq<char>) -> Seq<int> {
    if g.len() > 0 && all_ascii_digits(g) && digits_value(g) <= i64::MAX {
        seq![digits_value(g) as int]
    } else {
        Seq::empty()
    }
}

/// Every year count that the mentions hold, in order.
pub open spec fn candidates(ms: Seq<(Seq<char>, Seq<char>)>) -> Seq<int>
    decreases ms.len(),
{
    if ms.len() == 0 {
        Seq::empty()
    } else {
        candidates(ms.drop_last()) + group_values(ms.last().0) + group_values(ms.last().1)
    }
}

pub open spec fn seq_min(xs: Seq<int>) -> int
    decreases xs.len(),
{
    if xs.len() <= 1 {
        xs[0]
    } else {
        let m = seq_min(xs.drop_last());
        if xs.last() < m {
            xs.last()
        } else {
            m
        }
    }
}

pub open spec fn seq_max(xs: Seq<int>) -> int
    decreases xs.len(),
{
    if xs.len() <= 1 {
        xs[0]
    } else {
        let m = seq_max(xs.drop_last());
        if xs.last() > m {
            xs.last()
        } else {
            m
        }
    }
}

/// The year counts found in `text`.
pub open spec fn year_counts(text: Seq<char>) -> Seq<int> {
    candidates(mentions_from(text, 0))
}

/// The experience range of `text`: the smallest and the largest year count over all
/// mentions; the largest only where it differs from the smallest.
pub open spec fn yoe_range(text: Seq<char>) -> (Option<i64>, Option<i64>) {
    let c = year_counts(text);
    (
        if c.len() > 0 && seq_min(c) < i64::MAX {
            Some(seq_min(c) as i64)
        } else {
            None
        },
        if c.len() > 0 && seq_max(c) != seq_min(c) {
            Some(seq_max(c) as i64)
        } else {
            None
        },
    )
}

fn year_tail_at(v: &Vec<char>, t: usize) -> (r: Option<usize>)
    requires
        t <= v.len(),
    ensures
        match r {
            Some(e) => year_tail(v@, t as int) == Some(e as int) && e <= v.len(),
            None => year_tail(v@, t as int) is None,
        },
{
    let u = if t < v.len() && v[t] == '+' {
        t + 1
    } else {
        t
    };
    if u <= v.len() && v.len() - u >= 5 && v[u] == ' ' && v[u + 1] == 'y' && v[u + 2] == 'e' && v[u + 3] == 'a'
        && v[u + 4] == 'r' {
        if u + 5 < v.len() && v[u + 5] == 's' {
            Some(u + 6)
        } else {
            Some(u + 5)
        }
    } else {
        None
    }
}

/// A mention at `i`, as positions: its end, and the bounds of its two digit groups.
fn mention_at_exec(v: &Vec<char>, i: usize) -> (r: Option<(usize, usize, usize, usize, usize)>)
    requires
        i <= v.len(),
    ensures
        match r {
            Some((end, a, b, c, d)) => {
                &&& mention_at(v@, i as int) == Some(
                    (end as int, v@.subrange(a as int, b as int), v@.subrange(c as int, d as int)),
                )
                &&& i <= a <= b <= c <= d <= end <= v.len()
                &&& i < end
            },
            None => mention_at(v@, i as int) is None,
        },
{
    let d = dec_run_at(v, i);
    if i + d < v.len() {
        let q = i + d + 1;
        let e = dec_run_at(v, q);
        if e > 0 {
            match year_tail_at(v, q + e) {
                Some(end) => {
                    return Some((end, i, i + d, q, q + e));
                },
                None => {},
            }
        }
    }
    if d > 0 {
        match year_tail_at(v, i + d) {
            Some(end) => {
                proof {
                    assert(v@.subrange(i as int, i as int) =~= Seq::<char>::empty());
                }
                return Some((end, i, i, i, i + d));
            },
            None => {},
        }
    }
    None
}

proof fn lemma_min_max_push(c: Seq<int>, x: int)
    ensures
        seq_min(c.push(x)) == (if c.len() == 0 || x < seq_min(c) {
            x
        } else {
            seq_min(c)
        }),
        seq_max(c.push(x)) == (if c.len() == 0 || x > seq_max(c) {
            x
        } else {
            seq_max(c)
        }),
{
    assert(c.push(x).drop_last() =~= c);
}

/// The count that the digit group `v[lo..hi]` gives, if any.
fn group_value(v: &Vec<char>, lo: usize, hi: usize) -> (r: Option<i64>)
    requires
        lo <= hi <= v.len(),
    ensures
        match r {
            Some(x) => group_values(v@.subrange(lo as int, hi as int)) == seq![x as int] && 0 <= x,
            None => group_values(v@.subrange(lo as int, hi as int)).len() == 0,
        },
{
    if !ascii_digits_only(v, lo, hi) {
        return None;
    }
    proof {
        assert forall|k: int| lo <= k < hi implies is_digit(#[trigger] v@[k]) by {
            assert(v@.subrange(lo as int, hi as int)[k - lo] == v@[k]);
        }
    }
    parse_digits(v, lo, hi)
}

/// The count that a digit group adds, if any, folded into the running bounds.
fn absorb(lo: i64, hi: i64, g: Option<i64>, Ghost(c): Ghost<Seq<int>>) -> (r: (i64, i64))
    requires
        c.len() == 0 ==> lo == i64::MAX && hi == i64::MIN,
        c.len() > 0 ==> lo == seq_min(c) && hi == seq_max(c) && 0 <= lo <= hi,
        g matches Some(x) ==> 0 <= x,
    ensures
        ({
            let c2 = match g {
                Some(x) => c.push(x as int),
                None => c,
            };
            &&& c2.len() == 0 ==> r.0 == i64::MAX && r.1 == i64::MIN
            &&& c2.len() > 0 ==> r.0 == seq_min(c2) && r.1 == seq_max(c2) && 0 <= r.0 <= r.1
        }),
{
    match g {
        Some(x) => {
            proof {
                lemma_min_max_push(c, x as int);
            }
            let lo2 = if x < lo {
                x
            } else {
                lo
            };
            let hi2 = if x > hi {
                x
            } else {
                hi
            };
            (lo2, hi2)
        },
        None => (lo, hi),
    }
}

/// Finds the experience range that `text` asks for, from every mention of
/// `N year(s)`, `N+ years` or `N-M years` in it.
///
/// The first count is the smallest over all mentions; the second is the largest, and
/// is given only where it differs from the smallest. Nothing found gives `(None, None)`.
pub fn find_yoe_naive(text: &str) -> (r: (Option<i64>, Option<i64>))
    ensures
        r == yoe_range(text@),
{
    let v = chars_of(text);
    let mut lo: i64 = i64::MAX;
    let mut hi: i64 = i64::MIN;
    let mut p: usize = 0;
    let ghost mut done: Seq<(Seq<char>, Seq<char>)> = Seq::empty();
    while p < v.len()
        invariant
            p <= v.len(),
            mentions_from(v@, 0) == done + mentions_from(v@, p as int),
            candidates(done).len() == 0 ==> lo == i64::MAX && hi == i64::MIN,
            candidates(done).len() > 0 ==> lo == seq_min(candidates(done)) && hi == seq_max(
                candidates(done),
            ) && 0 <= lo <= hi,
        decreases v.len() - p,
    {
        match mention_at_exec(&v, p) {
            Some((end, a, b, c, d)) => {
                let ghost g1 = v@.subrange(a as int, b as int);
                let ghost g2 = v@.subrange(c as int, d as int);
                let ghost c0 = candidates(done);
                let x1 = group_value(&v, a, b);
                let ghost c1 = c0 + group_values(g1);
                proof {
                    if x1 is Some {
                        assert(group_values(g1) == seq![x1->0 as int]);
                        assert(c1 =~= c0.push(x1->0 as int));
                    } else {
                        assert(c1 =~= c0);
                    }
                }
                let r1 = absorb(lo, hi, x1, Ghost(c0));
                let x2 = group_value(&v, c, d);
                let ghost c2 = c1 + group_values(g2);
                proof {
                    if x2 is Some {
                        assert(group_values(g2) == seq![x2->0 as int]);
                        assert(c2 =~= c1.push(x2->0 as int));
                    } else {
                        assert(c2 =~= c1);
                    }
                }
                let r2 = absorb(r1.0, r1.1, x2, Ghost(c1));
                lo = r2.0;
                hi = r2.1;
                proof {
                    let m = (g1, g2);
                    assert(done.push(m).drop_last() =~= done);
                    assert(candidates(done.push(m)) == c2);
                    assert(mentions_from(v@, p as int) == seq![m] + mentions_from(v@, end as int));
                    assert(done + mentions_from(v@, p as int) =~= done.push(m) + mentions_from(
                        v@,
                        end as int,
                    ));
                    done = done.push(m);
                }
                p = end;
            },
            None => {
                p = p + 1;
            },
        }
    }
    proof {
        assert(done + mentions_from(v@, p as int) =~= done);
    }
    let first = if lo < i64::MAX {
        Some(lo)
    } else {
        None
    };
    let second = if hi > i64::MIN && hi != lo {
        Some(hi)
    } else {
        None
    };
    (first, second)
}


} // verus!
