use vstd::prelude::*;

use crate::text::{
    all_ascii_digits, append_chars, chars_of, dec_run, digit_run, digit_run_at, digit_val,
    digits_value, is_ascii_digit, is_dec_digit, is_decimal_digit, is_digit, lemma_digit_run_digits,
    lemma_digits_value_grows, lemma_digits_value_push, parse_digits, string_of, sub_vec,
    without_char,
};
use crate::yoe::{mentions_from, year_counts, yoe_range};
use vstd::arithmetic::div_mod::lemma_fundamental_div_mod_converse_div;

verus! {

/// A typed amount split into its parts: whether it is negative, the digits before the
/// point, the digits after it, and the exponent. The notation is that of `f64`'s
/// parser, less its words (`inf`, `nan`): an optional sign, digits with an optional
/// point (at least one digit in all), then an optional `e` or `E`, sign and digits.
pub open spec fn decimal_parts(s: Seq<char>) -> Option<(bool, Seq<char>, Seq<char>, int)> {
    let signed = s.len() > 0 && (s[0] == '+' || s[0] == '-');
    let b: int = if signed {
        1
    } else {
        0
    };
    let d1 = digit_run(s, b) as int;
    let rest = b + d1;
    let dot = rest < s.len() && s[rest] == '.';
    let f_lo = if dot {
        rest + 1
    } else {
        rest
    };
    let d2 = if dot {
        digit_run(s, rest + 1) as int
    } else {
        0
    };
    let m_end = f_lo + d2;
    let neg = signed && s[0] == '-';
    let whole = s.subrange(b, rest);
    let frac = s.subrange(f_lo, m_end);
    if d1 + d2 == 0 {
        None
    } else if m_end == s.len() {
        Some((neg, whole, frac, 0))
    } else if s[m_end] == 'e' || s[m_end] == 'E' {
        let eb = m_end + 1;
        let esigned = eb < s.len() && (s[eb] == '+' || s[eb] == '-');
        let ds = if esigned {
            eb + 1
        } else {
            eb
        };
        let de = digit_run(s, ds) as int;
        if de > 0 && ds + de == s.len() {
            let ev = digits_value(s.subrange(ds, s.len() as int)) as int;
            Some((neg, whole, frac, if esigned && s[eb] == '-' {
                -ev
            } else {
                ev
            }))
        } else {
            None
        }
    } else {
        None
    }
}

pub open spec fn pow10(n: nat) -> nat
    decreases n,
{
    if n == 0 {
        1
    } else {
        10 * pow10((n - 1) as nat)
    }
}

/// The digits `d` with the decimal point moved `shift` places to the right, rounded to
/// a whole number half away from zero: `d·10^shift` exactly where `shift` is not
/// negative, else the integer nearest to `d / 10^-shift`, halves rounding up.
pub open spec fn scaled_cents(d: Seq<char>, shift: int) -> int {
    if shift >= 0 {
        (digits_value(d) * pow10(shift as nat)) as int
    } else {
        let p = pow10((-shift) as nat) as int;
        (2 * digits_value(d) + p) / (2 * p)
    }
}

/// The cents that a typed amount stands for, where it is one: its value times a
/// hundred, rounded half away from zero.
pub open spec fn money_cents(s: Seq<char>) -> Option<int> {
    match decimal_parts(s) {
        Some((neg, whole, frac, e)) => {
            let m = scaled_cents(whole + frac, e + 2 - frac.len());
            Some(
                if neg {
                    -m
                } else {
                    m
                },
            )
        },
        None => None,
    }
}

pub open spec fn invalid_money_message() -> Seq<char> {
    seq!['I', 'n', 'v', 'a', 'l', 'i', 'd', ' ', 'i', 'n', 'p', 'u', 't', ' ', 's', 't', 'r', 'i', 'n', 'g']
}

/// An exponent this large moves any digits out of the range of cents.
pub const EXP_CAP: u128 = 1_000_000_000_000_000_000_000_000_000_000;

#[verifier::rlimit(100)]
/// The parts of a typed amount in `v`, as positions: the sign, the whole digits
/// `v[a..b]`, the digits after the point `v[c..d]`, and the exponent's sign and digits.
fn split_decimal(v: &Vec<char>) -> (r: Option<(bool, usize, usize, usize, usize, Option<(bool, usize, usize)>)>)
    ensures
        match r {
            Some((neg, a, b, c, d, exp)) => {
                &&& decimal_parts(v@) is Some
                &&& decimal_parts(v@)->0 == (
                    neg,
                    v@.subrange(a as int, b as int),
                    v@.subrange(c as int, d as int),
                    match exp {
                        None => 0int,
                        Some((en, lo, hi)) => if en {
                            -(digits_value(v@.subrange(lo as int, hi as int)) as int)
                        } else {
                            digits_value(v@.subrange(lo as int, hi as int)) as int
                        },
                    },
                )
                &&& a <= b <= c <= d <= v.len()
                &&& (b - a) + (d - c) > 0
                &&& all_ascii_digits(v@.subrange(a as int, b as int))
                &&& all_ascii_digits(v@.subrange(c as int, d as int))
                &&& exp matches Some((en, lo, hi)) ==> lo < hi <= v.len() && all_ascii_digits(
                    v@.subrange(lo as int, hi as int),
                )
            },
            None => decimal_parts(v@) is None,
        },
{
    let n = v.len();
    let signed = n > 0 && (v[0] == '+' || v[0] == '-');
    let neg = signed && v[0] == '-';
    let b: usize = if signed {
        1
    } else {
        0
    };
    let d1 = digit_run_at(&v, b);
    let rest = b + d1;
    proof {
        lemma_digit_run_digits(v@, b as int);
    }
    let dot = rest < n && v[rest] == '.';
    let f_lo = if dot {
        rest + 1
    } else {
        rest
    };
    let d2 = if dot {
        digit_run_at(&v, rest + 1)
    } else {
        0
    };
    proof {
        if dot {
            lemma_digit_run_digits(v@, rest + 1);
        }
        assert(all_ascii_digits(v@.subrange(b as int, rest as int))) by {
            assert forall|i: int| 0 <= i < rest - b implies is_digit(#[trigger] v@.subrange(b as int, rest as int)[i]) by {
                assert(v@.subrange(b as int, rest as int)[i] == v@[b + i]);
            }
        }
        assert(all_ascii_digits(v@.subrange(f_lo as int, (f_lo + d2) as int))) by {
            assert forall|i: int| 0 <= i < d2 implies is_digit(#[trigger] v@.subrange(f_lo as int, (f_lo + d2) as int)[i]) by {
                assert(v@.subrange(f_lo as int, (f_lo + d2) as int)[i] == v@[f_lo + i]);
            }
        }
    }
    let m_end = f_lo + d2;
    if d1 + d2 == 0 {
        return None;
    }
    if m_end == n {
        return Some((neg, b, rest, f_lo, m_end, None));
    }
    if !(v[m_end] == 'e' || v[m_end] == 'E') {
        return None;
    }
    let eb = m_end + 1;
    let esigned = eb < n && (v[eb] == '+' || v[eb] == '-');
    let ds = if esigned {
        eb + 1
    } else {
        eb
    };
    let de = digit_run_at(&v, ds);
    proof {
        lemma_digit_run_digits(v@, ds as int);
    }
    if de > 0 && ds + de == n {
        proof {
            assert(all_ascii_digits(v@.subrange(ds as int, n as int))) by {
                assert forall|i: int| 0 <= i < de implies is_digit(#[trigger] v@.subrange(ds as int, n as int)[i]) by {
                    assert(v@.subrange(ds as int, n as int)[i] == v@[ds + i]);
                }
            }
        }
        Some((neg, b, rest, f_lo, m_end, Some((esigned && v[eb] == '-', ds, n))))
    } else {
        None
    }
}

proof fn lemma_pow10_mono(a: nat, b: nat)
    requires
        a <= b,
    ensures
        1 <= pow10(a) <= pow10(b),
    decreases b,
{
    if b > a {
        lemma_pow10_mono(a, (b - 1) as nat);
    } else {
        lemma_pow10_pos(a);
    }
}

proof fn lemma_pow10_pos(n: nat)
    ensures
        pow10(n) >= 1,
    decreases n,
{
    if n > 0 {
        lemma_pow10_pos((n - 1) as nat);
    }
}

proof fn lemma_pow10_19()
    ensures
        pow10(19) > i64::MAX,
{
    reveal_with_fuel(pow10, 20);
}

/// Digits written after other digits shift them by a power of ten.
proof fn lemma_digits_concat(a: Seq<char>, b: Seq<char>)
    requires
        all_ascii_digits(b),
    ensures
        digits_value(a + b) == digits_value(a) * pow10(b.len()) + digits_value(b),
    decreases b.len(),
{
    if b.len() == 0 {
        assert(a + b =~= a);
        assert(pow10(0) == 1);
        assert(digits_value(b) == 0);
    } else {
        let b0 = b.drop_last();
        lemma_digits_concat(a, b0);
        assert((a + b0).push(b.last()) =~= a + b);
        assert(b0.push(b.last()) =~= b);
        lemma_digits_value_push(a + b0, b.last());
        lemma_digits_value_push(b0, b.last());
        let x = digits_value(a) as int;
        let p = pow10(b0.len()) as int;
        let y = digits_value(b0) as int;
        let z = digit_val(b.last());
        assert(pow10(b.len()) == 10 * pow10(b0.len()));
        assert(digits_value(b) == y * 10 + z);
        assert(digits_value(a + b) == (x * p + y) * 10 + z);
        assert((x * p + y) * 10 + z == x * (10 * p) + (y * 10 + z)) by (nonlinear_arith);
    }
}

/// `n` digits are worth less than ten to the `n`.
proof fn lemma_digits_bound(d: Seq<char>)
    requires
        all_ascii_digits(d),
    ensures
        digits_value(d) < pow10(d.len()),
    decreases d.len(),
{
    if d.len() > 0 {
        let d0 = d.drop_last();
        lemma_digits_bound(d0);
        assert(d0.push(d.last()) =~= d);
        lemma_digits_value_push(d0, d.last());
    }
}

proof fn lemma_scaled_nonneg(d: Seq<char>, shift: int)
    ensures
        scaled_cents(d, shift) >= 0,
{
    if shift < 0 {
        lemma_pow10_pos((-shift) as nat);
        let p = pow10((-shift) as nat) as int;
        let v = digits_value(d) as int;
        assert((2 * v + p) / (2 * p) >= 0) by (nonlinear_arith)
            requires
                v >= 0,
                p >= 1,
        ;
    }
}

/// Moving the point further left than there are digits leaves less than half a cent.
proof fn lemma_scaled_tiny(d: Seq<char>, t: int)
    requires
        all_ascii_digits(d),
        t > d.len(),
    ensures
        scaled_cents(d, -t) == 0,
{
    lemma_digits_bound(d);
    lemma_pow10_mono((d.len() + 1) as nat, t as nat);
    lemma_pow10_pos(d.len());
    let v = digits_value(d) as int;
    let p = pow10(t as nat) as int;
    assert(pow10((d.len() + 1) as nat) == 10 * pow10(d.len()));
    lemma_fundamental_div_mod_converse_div(2 * v + p, 2 * p, 0, 2 * v + p);
}

/// Moving the point left by `t` places keeps the digits before the last `t`, plus one
/// where the first digit dropped is 5 or more.
proof fn lemma_scaled_round(d: Seq<char>, t: int)
    requires
        all_ascii_digits(d),
        1 <= t <= d.len(),
    ensures
        scaled_cents(d, -t) == digits_value(d.subrange(0, d.len() - t)) + if digit_val(
            d[d.len() - t],
        ) >= 5 {
            1int
        } else {
            0int
        },
{
    let n = d.len() as int;
    let a_s = d.subrange(0, n - t);
    let b_s = d.subrange(n - t, n);
    let r_s = d.subrange(n - t + 1, n);
    assert(a_s + b_s =~= d);
    assert(seq![d[n - t]] + r_s =~= b_s);
    assert(all_ascii_digits(b_s)) by {
        assert forall|i: int| 0 <= i < b_s.len() implies is_digit(#[trigger] b_s[i]) by {
            assert(b_s[i] == d[n - t + i]);
        }
    }
    assert(all_ascii_digits(r_s)) by {
        assert forall|i: int| 0 <= i < r_s.len() implies is_digit(#[trigger] r_s[i]) by {
            assert(r_s[i] == d[n - t + 1 + i]);
        }
    }
    lemma_digits_concat(a_s, b_s);
    lemma_digits_concat(seq![d[n - t]], r_s);
    lemma_digits_bound(r_s);
    lemma_pow10_pos(r_s.len());
    assert(seq![d[n - t]] =~= Seq::<char>::empty().push(d[n - t]));
    lemma_digits_value_push(Seq::<char>::empty(), d[n - t]);
    assert(is_digit(d[n - t]));
    let a = digits_value(a_s) as int;
    let dig = digit_val(d[n - t]);
    let r = digits_value(r_s) as int;
    let pp = pow10(r_s.len()) as int;
    assert(pow10(b_s.len()) == 10 * pow10(r_s.len()));
    let v = digits_value(d) as int;
    assert(v == a * (10 * pp) + (dig * pp + r));
    let up: int = if dig >= 5 {
        1
    } else {
        0
    };
    let x = 2 * v + 10 * pp;
    let rem = (2 * dig + 10 - 20 * up) * pp + 2 * r;
    assert(x == (a + up) * (20 * pp) + rem) by (nonlinear_arith)
        requires
            v == a * (10 * pp) + (dig * pp + r),
            x == 2 * v + 10 * pp,
            rem == (2 * dig + 10 - 20 * up) * pp + 2 * r,
    ;
    assert(0 <= rem < 20 * pp) by (nonlinear_arith)
        requires
            rem == (2 * dig + 10 - 20 * up) * pp + 2 * r,
            0 <= dig <= 9,
            up == (if dig >= 5 {
                1int
            } else {
                0int
            }),
            0 <= r < pp,
            pp >= 1,
    ;
    lemma_fundamental_div_mod_converse_div(x, 20 * pp, a + up, rem);
    assert(pow10(t as nat) == pow10(b_s.len()));
    assert(2 * (10 * pp) == 20 * pp);
}

/// The digits `d` (all ASCII) moved by `shift` places and rounded, where that fits in
/// an `i64`.
fn shifted_cents(d: &Vec<char>, shift: i128) -> (r: Option<i64>)
    requires
        all_ascii_digits(d@),
        d.len() > 0,
        -(EXP_CAP as int) - 0x4_0000_0000_0000_0000 <= shift <= EXP_CAP as int + 0x4_0000_0000_0000_0000,
    ensures
        r == if scaled_cents(d@, shift as int) <= i64::MAX {
            Some(scaled_cents(d@, shift as int) as i64)
        } else {
            None::<i64>
        },
        r matches Some(x) ==> x >= 0,
{
    let n = d.len();
    proof {
        assert forall|k: int| 0 <= k < n implies is_digit(#[trigger] d@[k]) by {
            assert(d@[k] == d@[k]);
        }
        assert(d@.subrange(0, n as int) =~= d@);
    }
    if shift >= 0 {
        let x = match parse_digits(d, 0, n) {
            Some(x) => x,
            None => {
                proof {
                    lemma_pow10_pos(shift as nat);
                    let v = digits_value(d@) as int;
                    assert(v * pow10(shift as nat) >= v) by (nonlinear_arith)
                        requires
                            v >= 0,
                            pow10(shift as nat) >= 1,
                    ;
                }
                return None;
            },
        };
        proof {
            assert(x as int == digits_value(d@));
            assert(pow10(0) == 1);
        }
        if x == 0 {
            proof {
                assert(digits_value(d@) == 0);
                assert(0 * pow10(shift as nat) == 0);
            }
            return Some(0);
        }
        let mut acc: i64 = x;
        let mut i: i128 = 0;
        proof {
            assert((i as nat) == 0nat);
            assert(acc as int == x * pow10(i as nat));
        }
        while i < shift
            invariant
                0 <= i <= shift,
                x >= 1,
                x as int == digits_value(d@),
                acc as int == x * pow10(i as nat),
            decreases shift - i,
        {
            if acc > i64::MAX / 10 {
                proof {
                    lemma_pow10_mono((i + 1) as nat, shift as nat);
                    assert(pow10((i + 1) as nat) == 10 * pow10(i as nat));
                    let big = x * pow10(shift as nat);
                    assert(big >= x * pow10((i + 1) as nat)) by (nonlinear_arith)
                        requires
                            big == x * pow10(shift as nat),
                            pow10(shift as nat) >= pow10((i + 1) as nat),
                            x >= 1,
                    ;
                    assert(x * pow10((i + 1) as nat) == 10 * acc) by (nonlinear_arith)
                        requires
                            pow10((i + 1) as nat) == 10 * pow10(i as nat),
                            acc == x * pow10(i as nat),
                    ;
                }
                return None;
            }
            proof {
                assert(pow10((i + 1) as nat) == 10 * pow10(i as nat));
                assert(acc * 10 == x * pow10((i + 1) as nat)) by (nonlinear_arith)
                    requires
                        pow10((i + 1) as nat) == 10 * pow10(i as nat),
                        acc == x * pow10(i as nat),
                ;
            }
            acc = acc * 10;
            i = i + 1;
        }
        Some(acc)
    } else {
        let t: i128 = -shift;
        if t > n as i128 {
            proof {
                lemma_scaled_tiny(d@, t as int);
            }
            return Some(0);
        }
        let keep = n - (t as usize);
        proof {
            lemma_scaled_round(d@, t as int);
        }
        let q: i64 = if keep == 0 {
            proof {
                assert(d@.subrange(0, 0) =~= Seq::<char>::empty());
            }
            0
        } else {
            match parse_digits(d, 0, keep) {
                Some(q) => q,
                None => {
                    return None;
                },
            }
        };
        let up: i64 = if d[keep] as u32 >= 53 {
            1
        } else {
            0
        };
        if q > i64::MAX - up {
            return None;
        }
        Some(q + up)
    }
}

/// The exponent's digits `v[lo..hi]` as a number, or `EXP_CAP` where they are worth
/// that much or more.
fn capped_exponent(v: &Vec<char>, lo: usize, hi: usize) -> (r: u128)
    requires
        lo < hi <= v.len(),
        all_ascii_digits(v@.subrange(lo as int, hi as int)),
    ensures
        r <= EXP_CAP,
        r < EXP_CAP ==> r as int == digits_value(v@.subrange(lo as int, hi as int)),
        r == EXP_CAP ==> digits_value(v@.subrange(lo as int, hi as int)) >= EXP_CAP,
{
    let ghost e = v@.subrange(lo as int, hi as int);
    let mut acc: u128 = 0;
    let mut k = lo;
    while k < hi
        invariant
            lo <= k <= hi <= v.len(),
            e == v@.subrange(lo as int, hi as int),
            all_ascii_digits(e),
            acc < EXP_CAP,
            acc as int == digits_value(v@.subrange(lo as int, k as int)),
        decreases hi - k,
    {
        assert(e[k - lo] == v@[k as int]);
        let dg = (v[k] as u32 - 48) as u128;
        proof {
            assert(v@.subrange(lo as int, k + 1) =~= v@.subrange(lo as int, k as int).push(v@[k as int]));
            lemma_digits_value_push(v@.subrange(lo as int, k as int), v@[k as int]);
        }
        acc = acc * 10 + dg;
        k = k + 1;
        if acc >= EXP_CAP {
            proof {
                lemma_digits_value_grows(e, (k - lo) as nat);
                assert(e.subrange(0, k - lo) =~= v@.subrange(lo as int, k as int));
            }
            return EXP_CAP;
        }
    }
    proof {
        assert(v@.subrange(lo as int, k as int) =~= e);
    }
    acc
}

/// Parses a typed dollar amount into cents: its value times a hundred, rounded half
/// away from zero.
///
/// The amount is in `f64`'s notation (`85000`, `-12.5`, `.75`, `8.5e4`), but is read
/// exactly. Anything else (including `inf` and `nan`), and an amount whose cents do not
/// fit in an `i64`, is an error.
pub fn get_pay_i64(s: &str) -> (r: Result<i64, String>)
    ensures
        match money_cents(s@) {
            Some(c) if -i64::MAX <= c <= i64::MAX => r == Ok::<i64, String>(c as i64),
            _ => r is Err && r->Err_0@ == invalid_money_message(),
        },
{
    let v = chars_of(s);
    let (neg, a, b, c, d, exp) = match split_decimal(&v) {
        Some(parts) => parts,
        None => {
            return Err(invalid_money());
        },
    };
    let mut digits = sub_vec(&v, a, b);
    let frac = sub_vec(&v, c, d);
    append_chars(&mut digits, &frac);
    let ghost ds = digits@;
    proof {
        assert(all_ascii_digits(ds)) by {
            assert forall|i: int| 0 <= i < ds.len() implies is_digit(#[trigger] ds[i]) by {
                if i < b - a {
                    assert(ds[i] == v@.subrange(a as int, b as int)[i]);
                } else {
                    assert(ds[i] == v@.subrange(c as int, d as int)[i - (b - a)]);
                }
            }
        }
    }
    let k = (d - c) as i128;
    let n = digits.len();
    proof {
        let (pn, pw, pf, pe) = decimal_parts(v@)->0;
        assert(ds =~= pw + pf);
        assert(k == pf.len());
        assert(money_cents(s@) == Some(if neg {
            -scaled_cents(ds, pe + 2 - k)
        } else {
            scaled_cents(ds, pe + 2 - k)
        }));
    }
    let m: Option<i64> = match exp {
        None => shifted_cents(&digits, 2 - k),
        Some((eneg, lo, hi)) => {
            let e = capped_exponent(&v, lo, hi);
            if e < EXP_CAP {
                let ei = e as i128;
                let shift = if eneg {
                    -ei + 2 - k
                } else {
                    ei + 2 - k
                };
                shifted_cents(&digits, shift)
            } else if eneg {
                proof {
                    let ev = digits_value(v@.subrange(lo as int, hi as int)) as int;
                    lemma_scaled_tiny(ds, ev - 2 + k);
                }
                Some(0)
            } else {
                let ghost sc = scaled_cents(ds, digits_value(v@.subrange(lo as int, hi as int)) + 2 - k);
                let zero = match parse_digits(&digits, 0, n) {
                    Some(x) => x == 0,
                    None => false,
                };
                proof {
                    assert forall|i: int| 0 <= i < n implies is_digit(#[trigger] digits@[i]) by {
                        assert(ds[i] == digits@[i]);
                    }
                    assert(digits@.subrange(0, n as int) =~= ds);
                    let ev = digits_value(v@.subrange(lo as int, hi as int)) as int;
                    let sh = (ev + 2 - k) as nat;
                    if !zero {
                        lemma_pow10_mono(19, sh);
                        lemma_pow10_19();
                        let dv = digits_value(ds) as int;
                        assert(dv * pow10(sh) >= pow10(sh)) by (nonlinear_arith)
                            requires
                                dv >= 1,
                                pow10(sh) >= 1,
                        ;
                    }
                }
                if zero {
                    proof {
                        let ev = digits_value(v@.subrange(lo as int, hi as int)) as int;
                        assert(ev + 2 - k >= 0);
                        assert(digits_value(ds) == 0);
                        assert(0 * pow10((ev + 2 - k) as nat) == 0);
                    }
                    assert(sc == 0);
                    Some(0)
                } else {
                    assert(sc > i64::MAX);
                    None
                }
            }
        },
    };
    proof {
        let (pn, pw, pf, pe) = decimal_parts(v@)->0;
        let sc = scaled_cents(ds, pe + 2 - k);
        assert(m == if sc <= i64::MAX {
            Some(sc as i64)
        } else {
            None::<i64>
        });
        assert(money_cents(s@) == Some(if neg {
            -sc
        } else {
            sc
        }));
        lemma_scaled_nonneg(ds, pe + 2 - k);
    }
    match m {
        Some(m) => if neg {
            Ok(-m)
        } else {
            Ok(m)
        },
        None => Err(invalid_money()),
    }
}

fn invalid_money() -> (r: String)
    ensures
        r@ == invalid_money_message(),
{
    let r = string_of(
        vec!['I', 'n', 'v', 'a', 'l', 'i', 'd', ' ', 'i', 'n', 'p', 'u', 't', ' ', 's', 't', 'r', 'i', 'n', 'g'],
    );
    proof {
        assert(r@ =~= invalid_money_message());
    }
    r
}

/// A character that may stand in the whole part of a salary: a decimal digit (any
/// script) or a comma.
pub open spec fn is_amount_char(c: char) -> bool {
    is_dec_digit(c) || c == ','
}

/// An ASCII digit or a comma: what a whole part may hold for its figure to be a number.
pub open spec fn is_plain_amount_char(c: char) -> bool {
    is_digit(c) || c == ','
}

/// The figure's digits are all ASCII; any other digit makes it no number.
pub open spec fn plain_figure(whole: Seq<char>, cents: Seq<char>) -> bool {
    &&& forall|k: int| 0 <= k < whole.len() ==> is_plain_amount_char(#[trigger] whole[k])
    &&& forall|k: int| 0 <= k < cents.len() ==> is_digit(#[trigger] cents[k])
}

pub open spec fn is_lower(c: char) -> bool {
    97 <= c as u32 <= 122
}

pub open spec fn amount_run(s: Seq<char>, i: int) -> nat
    decreases s.len() - i,
{
    if 0 <= i < s.len() && is_amount_char(s[i]) {
        1 + amount_run(s, i + 1)
    } else {
        0
    }
}

pub open spec fn lower_run(s: Seq<char>, i: int) -> nat
    decreases s.len() - i,
{
    if 0 <= i < s.len() && is_lower(s[i]) {
        1 + lower_run(s, i + 1)
    } else {
        0
    }
}

/// A salary figure that starts at `i`: its end, its whole part (digits and commas),
/// its two digits of cents and its period unit.
///
/// A figure is a non-digit, decimal digits (of any script) and commas, a point, two
/// digits, a slash and a run of ASCII lower-case letters (`$85,000.00/yr`).
pub open spec fn salary_at(s: Seq<char>, i: int) -> Option<(int, Seq<char>, Seq<char>, Seq<char>)> {
    let r = amount_run(s, i + 1) as int;
    let j = i + 1 + r;
    if 0 <= i < s.len() && !is_dec_digit(s[i]) && r > 0 && j + 3 < s.len() && s[j] == '.'
        && is_dec_digit(s[j + 1]) && is_dec_digit(s[j + 2]) && s[j + 3] == '/' {
        let u = lower_run(s, j + 4) as int;
        Some((j + 4 + u, s.subrange(i + 1, j), s.subrange(j + 1, j + 3), s.subrange(j + 4, j + 4 + u)))
    } else {
        None
    }
}

/// The salary figures of `s` from position `p` on, leftmost first and without overlap.
pub open spec fn salaries_from(s: Seq<char>, p: int) -> Seq<(Seq<char>, Seq<char>, Seq<char>)>
    decreases s.len() - p,
{
    if p < 0 || p >= s.len() {
        Seq::empty()
    } else {
        match salary_at(s, p) {
            Some(m) => if p < m.0 <= s.len() {
                seq![(m.1, m.2, m.3)] + salaries_from(s, m.0)
            } else {
                Seq::empty()
            },
            None => salaries_from(s, p + 1),
        }
    }
}

pub open spec fn figure_cents(whole: Seq<char>, cents: Seq<char>) -> int {
    (digits_value(without_char(whole, ',')) * 100 + digits_value(cents)) as int
}

/// The figures as (cents, unit), leaving out those with a digit that is not ASCII and
/// those whose cents do not fit in an `i64`.
pub open spec fn salary_list(ms: Seq<(Seq<char>, Seq<char>, Seq<char>)>) -> Seq<(int, Seq<char>)>
    decreases ms.len(),
{
    if ms.len() == 0 {
        Seq::empty()
    } else {
        let m = ms.last();
        let c = figure_cents(m.0, m.1);
        if plain_figure(m.0, m.1) && c <= i64::MAX {
            salary_list(ms.drop_last()).push((c, m.2))
        } else {
            salary_list(ms.drop_last())
        }
    }
}

/// The salary figures of `text`, as (cents, unit).
pub open spec fn salaries(text: Seq<char>) -> Seq<(int, Seq<char>)> {
    salary_list(salaries_from(text, 0))
}

pub open spec fn view_salaries(r: Seq<(i64, String)>) -> Seq<(int, Seq<char>)> {
    r.map_values(|p: (i64, String)| (p.0 as int, p.1@))
}

fn amount_run_at(v: &Vec<char>, i: usize) -> (r: usize)
    requires
        i <= v.len(),
    ensures
        r == amount_run(v@, i as int),
        i + r <= v.len(),
        forall|k: int| i <= k < i + r ==> is_amount_char(#[trigger] v@[k]),
{
    let mut j = i;
    while j < v.len() && (is_decimal_digit(v[j]) || v[j] == ',')
        invariant
            i <= j <= v.len(),
            amount_run(v@, i as int) == (j - i) + amount_run(v@, j as int),
            forall|k: int| i <= k < j ==> is_amount_char(#[trigger] v@[k]),
        decreases v.len() - j,
    {
        j = j + 1;
    }
    j - i
}

fn lower_run_at(v: &Vec<char>, i: usize) -> (r: usize)
    requires
        i <= v.len(),
    ensures
        r == lower_run(v@, i as int),
        i + r <= v.len(),
{
    let mut j = i;
    while j < v.len() && 97 <= v[j] as u32 && v[j] as u32 <= 122
        invariant
            i <= j <= v.len(),
            lower_run(v@, i as int) == (j - i) + lower_run(v@, j as int),
        decreases v.len() - j,
    {
        j = j + 1;
    }
    j - i
}

/// A salary figure at `i`, as positions: its end, its whole part `v[i + 1..j]`, and
/// its unit `v[j + 4..end]`.
fn salary_at_exec(v: &Vec<char>, i: usize) -> (r: Option<(usize, usize)>)
    requires
        i < v.len(),
    ensures
        match r {
            Some((end, j)) => {
                &&& salary_at(v@, i as int) == Some(
                    (
                        end as int,
                        v@.subrange(i + 1, j as int),
                        v@.subrange(j + 1, j + 3),
                        v@.subrange(j + 4, end as int),
                    ),
                )
                &&& i + 1 < j && j + 4 <= end <= v.len()
            },
            None => salary_at(v@, i as int) is None,
        },
{
    if is_decimal_digit(v[i]) {
        return None;
    }
    let r = amount_run_at(v, i + 1);
    let j = i + 1 + r;
    if r > 0 && j < v.len() && v.len() - j > 3 && v[j] == '.' && is_decimal_digit(v[j + 1])
        && is_decimal_digit(v[j + 2]) && v[j + 3] == '/' {
        let u = lower_run_at(v, j + 4);
        Some((j + 4 + u, j))
    } else {
        None
    }
}

proof fn lemma_without_comma_push(s: Seq<char>, c: char)
    ensures
        without_char(s.push(c), ',') == (if c == ',' {
            without_char(s, ',')
        } else {
            without_char(s, ',').push(c)
        }),
{
    assert(s.push(c).drop_last() =~= s);
}

proof fn lemma_without_comma_grows(s: Seq<char>, n: nat)
    requires
        n <= s.len(),
        forall|k: int| 0 <= k < s.len() ==> is_plain_amount_char(#[trigger] s[k]),
    ensures
        digits_value(without_char(s.subrange(0, n as int), ',')) <= digits_value(without_char(s, ',')),
    decreases s.len() - n,
{
    if n < s.len() {
        let p = s.subrange(0, n as int);
        assert(s.subrange(0, n + 1 as int) =~= p.push(s[n as int]));
        lemma_without_comma_push(p, s[n as int]);
        if s[n as int] != ',' {
            lemma_digits_value_push(without_char(p, ','), s[n as int]);
        }
        lemma_without_comma_grows(s, n + 1);
    } else {
        assert(s.subrange(0, n as int) =~= s);
    }
}

/// Whether `v[lo..hi]` holds only ASCII digits and commas.
fn plain_amount_only(v: &Vec<char>, lo: usize, hi: usize) -> (r: bool)
    requires
        lo <= hi <= v.len(),
    ensures
        r == (forall|k: int| lo <= k < hi ==> is_plain_amount_char(#[trigger] v@[k])),
{
    let mut k = lo;
    while k < hi
        invariant
            lo <= k <= hi <= v.len(),
            forall|m: int| lo <= m < k ==> is_plain_amount_char(#[trigger] v@[m]),
        decreases hi - k,
    {
        if !(is_ascii_digit(v[k]) || v[k] == ',') {
            return false;
        }
        k = k + 1;
    }
    true
}

/// The cents of a figure whose whole part is `v[a..b]` and whose cents are
/// `v[b + 1..b + 3]`, where they fit in an `i64`.
fn figure_cents_exec(v: &Vec<char>, a: usize, b: usize) -> (r: Option<i64>)
    requires
        a <= b,
        b + 3 <= v.len(),
        forall|k: int| a <= k < b ==> is_plain_amount_char(#[trigger] v@[k]),
        is_digit(v@[b + 1]),
        is_digit(v@[b + 2]),
    ensures
        ({
            let c = figure_cents(v@.subrange(a as int, b as int), v@.subrange(b + 1, b + 3));
            r == if c <= i64::MAX {
                Some(c as i64)
            } else {
                None::<i64>
            }
        }),
{
    let ghost whole = v@.subrange(a as int, b as int);
    let mut acc: i64 = 0;
    let mut k = a;
    while k < b
        invariant
            a <= k <= b,
            b + 3 <= v.len(),
            whole == v@.subrange(a as int, b as int),
            forall|m: int| a <= m < b ==> is_plain_amount_char(#[trigger] v@[m]),
            acc as int == digits_value(without_char(v@.subrange(a as int, k as int), ',')),
        decreases b - k,
    {
        let c = v[k];
        proof {
            assert(v@.subrange(a as int, k + 1) =~= v@.subrange(a as int, k as int).push(c));
            lemma_without_comma_push(v@.subrange(a as int, k as int), c);
        }
        if c != ',' {
            let d = (c as u32 - 48) as i64;
            proof {
                lemma_digits_value_push(without_char(v@.subrange(a as int, k as int), ','), c);
            }
            if acc > (i64::MAX - d) / 10 {
                proof {
                    lemma_without_comma_grows(whole, (k + 1 - a) as nat);
                    assert(whole.subrange(0, k + 1 - a) =~= v@.subrange(a as int, k + 1));
                    assert(figure_cents(whole, v@.subrange(b + 1, b + 3)) >= digits_value(
                        without_char(whole, ','),
                    ) * 100);
                }
                return None;
            }
            acc = acc * 10 + d;
        }
        k = k + 1;
    }
    let d1 = (v[b + 1] as u32 - 48) as i64;
    let d2 = (v[b + 2] as u32 - 48) as i64;
    proof {
        let cs = v@.subrange(b + 1, b + 3);
        let e = Seq::<char>::empty();
        assert(cs =~= e.push(v@[b + 1]).push(v@[b + 2]));
        lemma_digits_value_push(e, v@[b + 1]);
        lemma_digits_value_push(e.push(v@[b + 1]), v@[b + 2]);
        assert(digits_value(cs) == d1 * 10 + d2);
    }
    if acc > (i64::MAX - (d1 * 10 + d2)) / 100 {
        return None;
    }
    Some(acc * 100 + d1 * 10 + d2)
}

/// Finds every salary figure in `text` (`$85,000.00/yr`), in order of appearance, as
/// its amount in cents and its period unit (`yr`, `hr`). A figure whose cents do not
/// fit in an `i64` is left out.
pub fn parse_salary(text: &str) -> (r: Vec<(i64, String)>)
    ensures
        view_salaries(r@) == salaries(text@),
{
    let v = chars_of(text);
    let mut out: Vec<(i64, String)> = Vec::new();
    let mut p: usize = 0;
    let ghost mut done: Seq<(Seq<char>, Seq<char>, Seq<char>)> = Seq::empty();
    while p < v.len()
        invariant
            p <= v.len(),
            salaries_from(v@, 0) == done + salaries_from(v@, p as int),
            view_salaries(out@) == salary_list(done),
        decreases v.len() - p,
    {
        match salary_at_exec(&v, p) {
            Some((end, j)) => {
                let ghost m = (
                    v@.subrange(p + 1, j as int),
                    v@.subrange(j + 1, j + 3),
                    v@.subrange(j + 4, end as int),
                );
                let c = if plain_amount_only(&v, p + 1, j) && is_ascii_digit(v[j + 1])
                    && is_ascii_digit(v[j + 2]) {
                    proof {
                        assert(plain_figure(m.0, m.1)) by {
                            assert forall|k: int| 0 <= k < m.0.len() implies is_plain_amount_char(
                                #[trigger] m.0[k],
                            ) by {
                                assert(m.0[k] == v@[p + 1 + k]);
                            }
                            assert(m.1[0] == v@[j + 1]);
                            assert(m.1[1] == v@[j + 2]);
                        }
                    }
                    figure_cents_exec(&v, p + 1, j)
                } else {
                    proof {
                        if plain_figure(m.0, m.1) {
                            assert(m.1[0] == v@[j + 1]);
                            assert(m.1[1] == v@[j + 2]);
                            assert forall|k: int| p + 1 <= k < j implies is_plain_amount_char(
                                #[trigger] v@[k],
                            ) by {
                                assert(m.0[k - p - 1] == v@[k]);
                            }
                        }
                    }
                    None
                };
                proof {
                    assert(done.push(m).drop_last() =~= done);
                }
                match c {
                    Some(c) => {
                        let unit = string_of(sub_vec(&v, j + 4, end));
                        let ghost before = out@;
                        out.push((c, unit));
                        proof {
                            assert(view_salaries(out@) =~= view_salaries(before).push(
                                (c as int, m.2),
                            ));
                        }
                    },
                    None => {},
                }
                proof {
                    assert(salaries_from(v@, p as int) == seq![m] + salaries_from(v@, end as int));
                    assert(done + salaries_from(v@, p as int) =~= done.push(m) + salaries_from(
                        v@,
                        end as int,
                    ));
                    done = done.push(m);
                }
                p = end;
            },
            None => {
                p = p + 1;
            },
        }
    }
    proof {
        assert(done + salaries_from(v@, p as int) =~= done);
    }
    out
}

/// The pay range that a posting's salary text gives, as (min, max) in cents. The site
/// lists the upper bound first: the first figure is the maximum and the second the
/// minimum. One figure gives only the maximum; none gives neither.
pub fn salary_range(text: &str) -> (r: (Option<i64>, Option<i64>))
    ensures
        ({
            let s = salaries(text@);
            &&& r.0 == (if s.len() >= 2 {
                Some(s[1].0 as i64)
            } else {
                None::<i64>
            })
            &&& r.1 == (if s.len() >= 1 {
                Some(s[0].0 as i64)
            } else {
                None::<i64>
            })
        }),
{
    let found = parse_salary(text);
    proof {
        if found.len() >= 1 {
            assert(view_salaries(found@)[0] == (found@[0].0 as int, found@[0].1@));
        }
        if found.len() >= 2 {
            assert(view_salaries(found@)[1] == (found@[1].0 as int, found@[1].1@));
        }
    }
    let max = if found.len() >= 1 {
        Some(found[0].0)
    } else {
        None
    };
    let min = if found.len() >= 2 {
        Some(found[1].0)
    } else {
        None
    };
    (min, max)
}

pub open spec fn digit_char(d: int) -> char {
    (d + 48) as char
}

/// The decimal digits of `n`, without leading zeros (`0` for zero).
pub open spec fn nat_text(n: nat) -> Seq<char>
    decreases n,
{
    if n < 10 {
        seq![digit_char(n as int)]
    } else {
        nat_text(n / 10).push(digit_char((n % 10) as int))
    }
}

/// An amount of cents shown as dollars with two decimals (`-1234` is `-12.34`).
pub open spec fn cents_text(n: int) -> Seq<char> {
    let a = if n < 0 {
        -n
    } else {
        n
    };
    let sign = if n < 0 {
        seq!['-']
    } else {
        Seq::<char>::empty()
    };
    sign + nat_text((a / 100) as nat) + seq!['.', digit_char((a % 100) / 10), digit_char(a % 10)]
}

fn push_digit(out: &mut Vec<char>, d: u64)
    requires
        d < 10,
    ensures
        final(out)@ == old(out)@.push(digit_char(d as int)),
{
    let c = if d == 0 {
        '0'
    } else if d == 1 {
        '1'
    } else if d == 2 {
        '2'
    } else if d == 3 {
        '3'
    } else if d == 4 {
        '4'
    } else if d == 5 {
        '5'
    } else if d == 6 {
        '6'
    } else if d == 7 {
        '7'
    } else if d == 8 {
        '8'
    } else {
        '9'
    };
    out.push(c);
}

pub(crate) fn push_nat_text(out: &mut Vec<char>, n: u64)
    ensures
        final(out)@ == old(out)@ + nat_text(n as nat),
    decreases n,
{
    if n >= 10 {
        push_nat_text(out, n / 10);
    }
    push_digit(out, n % 10);
    proof {
        if n < 10 {
            assert(final(out)@ =~= old(out)@ + nat_text(n as nat));
        } else {
            assert(final(out)@ =~= old(out)@ + nat_text(n as nat));
        }
    }
}

/// Shows an amount of cents as dollars with two decimals (`8500000` is `85000.00`);
/// no amount shows as the empty string.
pub fn get_pay_str(num: Option<i64>) -> (r: String)
    ensures
        r@ == match num {
            Some(n) => cents_text(n as int),
            None => Seq::<char>::empty(),
        },
{
    let mut out: Vec<char> = Vec::new();
    match num {
        Some(n) => {
            let a: u64 = if n < 0 {
                ((-(n + 1)) as u64) + 1
            } else {
                n as u64
            };
            if n < 0 {
                out.push('-');
            }
            push_nat_text(&mut out, a / 100);
            out.push('.');
            push_digit(&mut out, (a % 100) / 10);
            push_digit(&mut out, a % 10);
            proof {
                assert(out@ =~= cents_text(n as int));
            }
        },
        None => {},
    }
    string_of(out)
}

proof fn lemma_no_mentions(s: Seq<char>, p: int)
    requires
        forall|i: int| 0 <= i < s.len() ==> !is_dec_digit(#[trigger] s[i]),
    ensures
        mentions_from(s, p).len() == 0,
    decreases s.len() - p,
{
    if 0 <= p < s.len() {
        assert(dec_run(s, p) == 0);
        assert(dec_run(s, p + 1 + dec_run(s, p)) == 0);
        lemma_no_mentions(s, p + 1);
    }
}

proof fn lemma_no_figures(s: Seq<char>, p: int)
    requires
        forall|i: int| 0 <= i < s.len() ==> !is_dec_digit(#[trigger] s[i]),
    ensures
        salaries_from(s, p).len() == 0,
    decreases s.len() - p,
{
    if 0 <= p < s.len() {
        lemma_no_figures(s, p + 1);
    }
}

/// A text without decimal digits (of any script) holds no typed amount (so
/// `get_pay_i64` fails), no experience range and no salary figure.
pub proof fn lemma_no_digits_no_values(s: Seq<char>)
    requires
        forall|i: int| 0 <= i < s.len() ==> !is_dec_digit(#[trigger] s[i]),
    ensures
        money_cents(s) is None,
        yoe_range(s) == (None::<i64>, None::<i64>),
        salaries(s).len() == 0,
{
    let b: int = if s.len() > 0 && (s[0] == '+' || s[0] == '-') {
        1
    } else {
        0
    };
    if 0 <= b < s.len() {
        assert(!is_dec_digit(s[b]));
    }
    assert(digit_run(s, b) == 0);
    if b < s.len() && s[b] == '.' {
        if b + 1 < s.len() {
            assert(!is_dec_digit(s[b + 1]));
        }
        assert(digit_run(s, b + 1) == 0);
    }
    lemma_no_mentions(s, 0);
    assert(year_counts(s).len() == 0);
    lemma_no_figures(s, 0);
}

/// Parsing a typed amount gives its value times a hundred, rounded to the nearest whole
/// cent, halves away from zero. With `N` the number that all its digits write and `k`
/// the digits after the point, the value times a hundred is `N·10^s` for
/// `s = exponent + 2 - k`: the magnitude `m` of the result is that number exactly where
/// `s >= 0`, and else satisfies `m - 1/2 <= N / 10^-s < m + 1/2`.
pub proof fn lemma_money_rounds(s: Seq<char>)
    requires
        decimal_parts(s) is Some,
    ensures
        ({
            let (neg, whole, frac, e) = decimal_parts(s)->0;
            let num = digits_value(whole + frac) as int;
            let shift = e + 2 - frac.len();
            let m = scaled_cents(whole + frac, shift);
            &&& money_cents(s) == Some(if neg {
                -m
            } else {
                m
            })
            &&& shift >= 0 ==> m == num * pow10(shift as nat)
            &&& shift < 0 ==> ({
                let den = pow10((-shift) as nat) as int;
                2 * m * den <= 2 * num + den && 2 * num + den < 2 * (m + 1) * den
            })
        }),
{
    let (neg, whole, frac, e) = decimal_parts(s)->0;
    let num = digits_value(whole + frac) as int;
    let shift = e + 2 - frac.len();
    if shift < 0 {
        let den = pow10((-shift) as nat) as int;
        lemma_pow10_pos((-shift) as nat);
        let m = (2 * num + den) / (2 * den);
        let rem = (2 * num + den) % (2 * den);
        vstd::arithmetic::div_mod::lemma_fundamental_div_mod(2 * num + den, 2 * den);
        assert(2 * m * den <= 2 * num + den && 2 * num + den < 2 * (m + 1) * den) by (nonlinear_arith)
            requires
                2 * num + den == (2 * den) * m + rem,
                0 <= rem < 2 * den,
        ;
    }
}

} // verus!
