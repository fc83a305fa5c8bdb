use vstd::prelude::*;

use crate::text::{
    append_chars, chars_of, free_of, is_ws, join, lemma_join_push, lemma_split_join, lemma_split_on_nonempty,
    lemma_split_on_pieces, lemma_trim_fixed, lemma_trim_shape, lemma_trim_space, rejoined_pieces,
    split_on, string_of, sub_vec, trim, trim_bounds,
};

verus! {

/// What `char::to_uppercase` yields for `c`.
pub uninterp spec fn upper_of(c: char) -> Seq<char>;

/// Relies on `char::to_uppercase`: the upper-case form of a character depends on the
/// character alone.
#[verifier::external_body]
pub(crate) fn to_upper(c: char) -> (r: Vec<char>)
    ensures
        r@ == upper_of(c),
{
    c.to_uppercase().collect()
}

pub open spec fn list_sep() -> Seq<char> {
    seq![',', ' ']
}

/// One entry of a list: trimmed, with its first character in upper case.
pub open spec fn cap_entry(e: Seq<char>) -> Seq<char> {
    let t = trim(e);
    if t.len() == 0 {
        t
    } else {
        upper_of(t[0]) + t.subrange(1, t.len() as int)
    }
}

/// The canonical form of a comma-separated list: each entry trimmed and capitalised,
/// joined with `", "`. An empty entry stays, as an empty segment.
pub open spec fn normalize_list(s: Seq<char>) -> Seq<char> {
    join(split_on(s, ',').map_values(|e: Seq<char>| cap_entry(e)), list_sep())
}

/// The non-blank fragments of a location, trimmed, in order.
pub open spec fn keep_part(parts: Seq<Seq<char>>, x: Seq<char>) -> Seq<Seq<char>> {
    if trim(x).len() > 0 {
        parts.push(trim(x))
    } else {
        parts
    }
}

pub open spec fn location_parts(city: Seq<char>, region: Seq<char>, country: Seq<char>) -> Seq<
    Seq<char>,
> {
    keep_part(keep_part(keep_part(Seq::empty(), city), region), country)
}

/// Appends `part` to a joined list of `n` parts.
fn push_joined(out: &mut Vec<char>, part: &Vec<char>, n: usize, Ghost(parts): Ghost<Seq<Seq<char>>>)
    requires
        old(out)@ == join(parts, list_sep()),
        n == parts.len(),
    ensures
        final(out)@ == join(parts.push(part@), list_sep()),
{
    proof {
        lemma_join_push(parts, part@, list_sep());
    }
    if n > 0 {
        out.push(',');
        out.push(' ');
    }
    let ghost base = out@;
    append_chars(out, part);
    proof {
        assert(base =~= old(out)@ + (if n > 0 {
            list_sep()
        } else {
            Seq::<char>::empty()
        }));
        assert(out@ =~= join(parts.push(part@), list_sep()));
    }
}

/// The entry `v[lo..hi]`, trimmed and capitalised.
fn cap_entry_exec(v: &Vec<char>, lo: usize, hi: usize) -> (r: Vec<char>)
    requires
        lo <= hi <= v.len(),
    ensures
        r@ == cap_entry(v@.subrange(lo as int, hi as int)),
{
    let (i, j) = trim_bounds(v, lo, hi);
    if i == j {
        return Vec::new();
    }
    let mut r = to_upper(v[i]);
    let mut k = i + 1;
    let ghost base = r@;
    while k < j
        invariant
            i < k <= j <= v.len(),
            r@ == base + v@.subrange(i + 1, k as int),
        decreases j - k,
    {
        r.push(v[k]);
        k = k + 1;
        proof {
            assert(r@ =~= base + v@.subrange(i + 1, k as int));
        }
    }
    proof {
        let t = v@.subrange(i as int, j as int);
        assert(t[0] == v@[i as int]);
        assert(t.subrange(1, t.len() as int) =~= v@.subrange(i + 1, j as int));
    }
    r
}

/// Normalises a comma-separated list: each entry is trimmed and has its first
/// character put in upper case (the rest is kept as it is), and the entries are
/// joined with `", "`. An empty entry stays, as an empty segment between separators.
pub fn format_comma_separated(str: String) -> (r: String)
    ensures
        r@ == normalize_list(str@),
{
    let v = chars_of(str.as_str());
    let mut out: Vec<char> = Vec::new();
    let mut start: usize = 0;
    let mut n: usize = 0;
    let mut k: usize = 0;
    let ghost mut done: Seq<Seq<char>> = Seq::empty();
    let ghost f = |e: Seq<char>| cap_entry(e);
    proof {
        assert(split_on(v@.subrange(0, 0), ',') =~~= done.push(v@.subrange(0, 0)));
    }
    while k < v.len()
        invariant
            start <= k <= v.len(),
            n == done.len(),
            n <= k,
            f == (|e: Seq<char>| cap_entry(e)),
            split_on(v@.subrange(0, k as int), ',') == done.push(v@.subrange(start as int, k as int)),
            out@ == join(done.map_values(f), list_sep()),
        decreases v.len() - k,
    {
        let c = v[k];
        proof {
            let s = v@.subrange(0, k + 1);
            assert(s.drop_last() =~= v@.subrange(0, k as int));
            assert(s.last() == c);
        }
        if c == ',' {
            let e = cap_entry_exec(&v, start, k);
            push_joined(&mut out, &e, n, Ghost(done.map_values(f)));
            proof {
                let x = v@.subrange(start as int, k as int);
                assert(f(x) == e@);
                assert(done.push(x).map_values(f) =~~= done.map_values(f).push(e@));
                done = done.push(v@.subrange(start as int, k as int));
                assert(v@.subrange(k + 1, k + 1) =~= Seq::<char>::empty());
            }
            n = n + 1;
            start = k + 1;
        } else {
            proof {
                let prev = done.push(v@.subrange(start as int, k as int));
                assert(v@.subrange(start as int, k as int).push(c) =~= v@.subrange(
                    start as int,
                    k + 1,
                ));
                assert(prev.update(prev.len() - 1, prev.last().push(c)) =~= done.push(
                    v@.subrange(start as int, k + 1),
                ));
            }
        }
        k = k + 1;
    }
    let e = cap_entry_exec(&v, start, k);
    push_joined(&mut out, &e, n, Ghost(done.map_values(f)));
    proof {
        assert(v@.subrange(0, k as int) =~= v@);
        let x = v@.subrange(start as int, k as int);
        assert(f(x) == e@);
        assert(done.push(x).map_values(f) =~~= done.map_values(f).push(e@));
    }
    string_of(out)
}

/// Appends the fragment `x`, trimmed, to a joined location of `n` parts, unless it is
/// blank.
fn keep_part_exec(out: &mut Vec<char>, x: &str, n: usize, Ghost(parts): Ghost<Seq<Seq<char>>>) -> (r: usize)
    requires
        old(out)@ == join(parts, list_sep()),
        n == parts.len(),
        n < 3,
    ensures
        final(out)@ == join(keep_part(parts, x@), list_sep()),
        r == keep_part(parts, x@).len(),
{
    let v = chars_of(x);
    let (i, j) = trim_bounds(&v, 0, v.len());
    proof {
        assert(v@.subrange(0, v@.len() as int) =~= v@);
    }
    if i == j {
        return n;
    }
    let t = sub_vec(&v, i, j);
    push_joined(out, &t, n, Ghost(parts));
    n + 1
}

/// Joins the non-blank fragments of a location, each trimmed, in the order city,
/// region, country, with `", "`. Blank fragments leave no trace.
pub fn format_location(city: &str, region: &str, country: &str) -> (r: String)
    ensures
        r@ == join(location_parts(city@, region@, country@), list_sep()),
{
    let mut out: Vec<char> = Vec::new();
    let ghost p0 = Seq::<Seq<char>>::empty();
    let n = keep_part_exec(&mut out, city, 0, Ghost(p0));
    let ghost p1 = keep_part(p0, city@);
    let n = keep_part_exec(&mut out, region, n, Ghost(p1));
    let ghost p2 = keep_part(p1, region@);
    let _ = keep_part_exec(&mut out, country, n, Ghost(p2));
    string_of(out)
}

/// A text column as read from the store: an empty string means no value.
pub fn opt_str_from_db(s: Option<String>) -> (r: Option<String>)
    ensures
        match s {
            Some(t) => if t@.len() == 0 {
                r is None
            } else {
                r == Some(t)
            },
            None => r is None,
        },
{
    match s {
        Some(t) => if t.as_str().is_empty() {
            None
        } else {
            Some(t)
        },
        None => None,
    }
}

/// The quotient of `a` by `b` rounded towards zero, as Rust's `/` gives it.
pub open spec fn trunc_div(a: int, b: int) -> int {
    let q = (if a < 0 {
        -a
    } else {
        a
    }) / (if b < 0 {
        -b
    } else {
        b
    });
    if (a < 0) == (b < 0) {
        q
    } else {
        -q
    }
}

/// Number of pages needed to show `total_items` items, `page_size` per page:
/// `(total_items + page_size - 1) / page_size`, rounding towards zero.
pub fn total_pages(total_items: i64, page_size: i64) -> (r: i64)
    requires
        page_size != 0,
        i64::MIN <= total_items + page_size - 1 <= i64::MAX,
        !(total_items + page_size - 1 == i64::MIN && page_size == -1),
    ensures
        r as int == trunc_div(total_items + page_size - 1, page_size as int),
{
    let x: i128 = total_items as i128 + page_size as i128 - 1;
    let y: i128 = page_size as i128;
    let ax: i128 = if x < 0 {
        -x
    } else {
        x
    };
    let ay: i128 = if y < 0 {
        -y
    } else {
        y
    };
    let q: i128 = ax / ay;
    let r: i128 = if (x < 0) == (y < 0) {
        q
    } else {
        -q
    };
    proof {
        assert(q <= ax) by (nonlinear_arith)
            requires
                q == ax / ay,
                ax >= 0,
                ay >= 1,
        ;
        if ay == 1 && x == i64::MIN {
            assert(y == -1 || y == 1);
        }
        if ay >= 2 {
            assert(q * 2 <= ax) by (nonlinear_arith)
                requires
                    q == ax / ay,
                    ax >= 0,
                    ay >= 2,
            ;
        }
    }
    r as i64
}

/// Upper case settles after one step on `c`: its upper-case form is not empty, holds
/// no whitespace and no comma, and begins with a character that is its own upper case.
pub open spec fn upper_settled(c: char) -> bool {
    let u = upper_of(c);
    &&& u.len() > 0
    &&& forall|i: int| 0 <= i < u.len() ==> !is_ws(#[trigger] u[i]) && u[i] != ','
    &&& upper_of(u[0]) == seq![u[0]]
}

proof fn lemma_cap_entry_settled(x: Seq<char>)
    requires
        free_of(x, ','),
        forall|k: int| 0 <= k < x.len() ==> upper_settled(#[trigger] x[k]),
    ensures
        free_of(cap_entry(x), ','),
        cap_entry(cap_entry(x)) == cap_entry(x),
{
    lemma_trim_shape(x);
    let t = trim(x);
    if t.len() > 0 {
        let c = t[0];
        assert(x.contains(t[0]));
        let m = choose|m: int| 0 <= m < x.len() && x[m] == c;
        assert(upper_settled(x[m]));
        let u = upper_of(c);
        let rest = t.subrange(1, t.len() as int);
        let e = u + rest;
        assert(e == cap_entry(x));
        assert forall|i: int| 0 <= i < e.len() implies #[trigger] e[i] != ',' by {
            if i < u.len() {
                assert(e[i] == u[i]);
            } else {
                assert(e[i] == t[i - u.len() + 1]);
                assert(x.contains(t[i - u.len() + 1]));
                let m2 = choose|m2: int| 0 <= m2 < x.len() && x[m2] == t[i - u.len() + 1];
                assert(x[m2] != ',');
            }
        }
        assert(e[0] == u[0]);
        if rest.len() > 0 {
            assert(e.last() == t.last());
        } else {
            assert(e.last() == u[u.len() - 1]);
        }
        lemma_trim_fixed(e);
        assert(upper_of(e[0]) + e.subrange(1, e.len() as int) =~= e);
    }
}

/// Normalising a list twice gives what normalising it once gives, wherever upper case
/// settles after one step on the characters of the list.
pub proof fn lemma_normalize_list_idempotent(s: Seq<char>)
    requires
        forall|k: int| 0 <= k < s.len() ==> upper_settled(#[trigger] s[k]),
    ensures
        normalize_list(normalize_list(s)) == normalize_list(s),
{
    let ps = split_on(s, ',');
    lemma_split_on_pieces(s, ',');
    lemma_split_on_nonempty(s, ',');
    let f = |e: Seq<char>| cap_entry(e);
    let es = ps.map_values(f);
    assert forall|i: int| 0 <= i < es.len() implies free_of(#[trigger] es[i], ',') && f(es[i])
        == es[i] by {
        let x = ps[i];
        assert forall|k: int| 0 <= k < x.len() implies upper_settled(#[trigger] x[k]) by {
            assert(s.contains(ps[i][k]));
            let m = choose|m: int| 0 <= m < s.len() && s[m] == x[k];
            assert(upper_settled(s[m]));
        }
        lemma_cap_entry_settled(x);
    }
    lemma_split_join(es);
    let rp = rejoined_pieces(es);
    assert forall|i: int| 0 <= i < rp.len() implies #[trigger] f(rp[i]) == es[i] by {
        if i > 0 {
            lemma_trim_space(es[i]);
            assert(cap_entry(seq![' '] + es[i]) == cap_entry(es[i]));
        }
    }
    assert(rp.map_values(f) =~~= es);
}

/// Blank fragments leave no separator behind. Where no fragment holds a comma,
/// splitting the location at its commas gives one segment per non-blank fragment,
/// and each segment, trimmed, is that fragment: never empty. With every fragment
/// blank the location is empty.
pub proof fn lemma_location_separators(city: Seq<char>, region: Seq<char>, country: Seq<char>)
    requires
        free_of(city, ','),
        free_of(region, ','),
        free_of(country, ','),
    ensures
        ({
            let parts = location_parts(city, region, country);
            let r = join(parts, list_sep());
            let segs = split_on(r, ',');
            &&& parts.len() == 0 ==> r.len() == 0
            &&& parts.len() > 0 ==> segs.len() == parts.len()
            &&& forall|i: int|
                0 <= i < parts.len() ==> (#[trigger] parts[i]).len() > 0 && trim(segs[i]) == parts[i]
        }),
{
    lemma_keep_part_free(Seq::empty(), city);
    lemma_keep_part_free(keep_part(Seq::empty(), city), region);
    lemma_keep_part_free(keep_part(keep_part(Seq::empty(), city), region), country);
    let parts = location_parts(city, region, country);
    if parts.len() > 0 {
        lemma_split_join(parts);
        let segs = split_on(join(parts, list_sep()), ',');
        assert forall|i: int| 0 <= i < parts.len() implies trim(segs[i]) == parts[i] by {
            if i > 0 {
                lemma_trim_space(parts[i]);
            }
        }
    }
}

/// Keeping a fragment keeps the parts free of commas, not empty and trimmed.
proof fn lemma_keep_part_free(parts: Seq<Seq<char>>, x: Seq<char>)
    requires
        free_of(x, ','),
        forall|i: int|
            0 <= i < parts.len() ==> free_of(#[trigger] parts[i], ',') && parts[i].len() > 0 && trim(
                parts[i],
            ) == parts[i],
    ensures
        forall|i: int|
            0 <= i < keep_part(parts, x).len() ==> free_of(#[trigger] keep_part(parts, x)[i], ',')
                && keep_part(parts, x)[i].len() > 0 && trim(keep_part(parts, x)[i]) == keep_part(
                parts,
                x,
            )[i],
{
    lemma_trim_shape(x);
    let t = trim(x);
    if t.len() > 0 {
        lemma_trim_fixed(t);
        assert forall|k: int| 0 <= k < t.len() implies #[trigger] t[k] != ',' by {
            assert(x.contains(t[k]));
        }
    }
}

} // verus!
