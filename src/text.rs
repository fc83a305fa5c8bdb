use vstd::prelude::*;
use vstd::std_specs::iter::IteratorSpec;

verus! {

broadcast use vstd::string::group_string_axioms;

/// The characters that `char::is_whitespace` accepts: Unicode's White_Space set.
pub open spec fn is_ws(c: char) -> bool {
    let u = c as u32;
    (0x9 <= u <= 0xd) || u == 0x20 || u == 0x85 || u == 0xa0 || u == 0x1680 || (0x2000 <= u
        <= 0x200a) || u == 0x2028 || u == 0x2029 || u == 0x202f || u == 0x205f || u == 0x3000
}

pub fn is_whitespace(c: char) -> (r: bool)
    ensures
        r == is_ws(c),
{
    let u = c as u32;
    (0x9 <= u && u <= 0xd) || u == 0x20 || u == 0x85 || u == 0xa0 || u == 0x1680 || (0x2000 <= u
        && u <= 0x200a) || u == 0x2028 || u == 0x2029 || u == 0x202f || u == 0x205f || u == 0x3000
}

/// `s` with surrounding whitespace removed, as `str::trim` does.
pub open spec fn trim(s: Seq<char>) -> Seq<char>
    decreases s.len(),
{
    if s.len() == 0 {
        s
    } else if is_ws(s[0]) {
        trim(s.drop_first())
    } else if is_ws(s.last()) {
        trim(s.drop_last())
    } else {
        s
    }
}

/// The pieces of `s` between occurrences of `sep`, as `str::split` gives them.
pub open spec fn split_on(s: Seq<char>, sep: char) -> Seq<Seq<char>>
    decreases s.len(),
{
    if s.len() == 0 {
        seq![Seq::<char>::empty()]
    } else {
        let prev = split_on(s.drop_last(), sep);
        if s.last() == sep {
            prev.push(Seq::<char>::empty())
        } else {
            prev.update(prev.len() - 1, prev.last().push(s.last()))
        }
    }
}

/// The parts joined with `sep` between each two neighbours, as `slice::join` does.
pub open spec fn join(parts: Seq<Seq<char>>, sep: Seq<char>) -> Seq<char>
    decreases parts.len(),
{
    if parts.len() == 0 {
        Seq::<char>::empty()
    } else if parts.len() == 1 {
        parts[0]
    } else {
        join(parts.drop_last(), sep) + sep + parts.last()
    }
}

/// Joining one more part adds the separator and the part, unless it is the first.
pub proof fn lemma_join_push(parts: Seq<Seq<char>>, x: Seq<char>, sep: Seq<char>)
    ensures
        join(parts.push(x), sep) == (if parts.len() == 0 {
            x
        } else {
            join(parts, sep) + sep + x
        }),
{
    assert(parts.push(x).drop_last() =~= parts);
}

pub proof fn lemma_split_on_nonempty(s: Seq<char>, sep: char)
    ensures
        split_on(s, sep).len() >= 1,
    decreases s.len(),
{
    if s.len() > 0 {
        lemma_split_on_nonempty(s.drop_last(), sep);
    }
}

/// No character of `x` is `sep`.
pub open spec fn free_of(x: Seq<char>, sep: char) -> bool {
    forall|i: int| 0 <= i < x.len() ==> #[trigger] x[i] != sep
}

/// Splitting `a`, a separator and `b` (which holds none) adds `b` as the last piece.
pub proof fn lemma_split_on_append(a: Seq<char>, sep: char, b: Seq<char>)
    requires
        free_of(b, sep),
    ensures
        split_on(a + seq![sep] + b, sep) == split_on(a, sep).push(b),
    decreases b.len(),
{
    if b.len() == 0 {
        assert(a + seq![sep] + b =~= a.push(sep));
        assert((a.push(sep)).drop_last() =~= a);
        assert(b =~= Seq::<char>::empty());
        assert(split_on(a.push(sep), sep) == split_on(a, sep).push(Seq::<char>::empty()));
    } else {
        let b0 = b.drop_last();
        lemma_split_on_append(a, sep, b0);
        let whole = a + seq![sep] + b;
        assert(whole.drop_last() =~= a + seq![sep] + b0);
        assert(whole.last() == b.last());
        assert(b.last() != sep);
        let prev = split_on(a + seq![sep] + b0, sep);
        assert(prev.update(prev.len() - 1, prev.last().push(b.last())) =~~= split_on(a, sep).push(b)) by {
            assert(b0.push(b.last()) =~= b);
        }
    }
}

/// A text without separators is one piece.
pub proof fn lemma_split_on_free(x: Seq<char>, sep: char)
    requires
        free_of(x, sep),
    ensures
        split_on(x, sep) == seq![x],
    decreases x.len(),
{
    if x.len() > 0 {
        let x0 = x.drop_last();
        lemma_split_on_free(x0, sep);
        assert(x0.push(x.last()) =~= x);
        assert(seq![x0].update(0, x0.push(x.last())) =~~= seq![x]);
    } else {
        assert(seq![Seq::<char>::empty()] =~~= seq![x]);
    }
}

/// The parts of a list joined with `", "`, as splitting on `,` gives them back: the
/// first as it is, the others with the space that followed the comma.
pub open spec fn rejoined_pieces(parts: Seq<Seq<char>>) -> Seq<Seq<char>> {
    Seq::new(parts.len(), |i: int| if i == 0 { parts[0] } else { seq![' '] + parts[i] })
}

/// Splitting a list joined with `", "` on `,` gives its parts back, where none holds
/// a comma.
pub proof fn lemma_split_join(parts: Seq<Seq<char>>)
    requires
        parts.len() > 0,
        forall|i: int| 0 <= i < parts.len() ==> free_of(#[trigger] parts[i], ','),
    ensures
        split_on(join(parts, seq![',', ' ']), ',') == rejoined_pieces(parts),
    decreases parts.len(),
{
    if parts.len() == 1 {
        lemma_split_on_free(parts[0], ',');
        assert(rejoined_pieces(parts) =~~= seq![parts[0]]);
    } else {
        let init = parts.drop_last();
        lemma_split_join(init);
        let last = parts.last();
        let b = seq![' '] + last;
        assert(free_of(b, ',')) by {
            assert forall|i: int| 0 <= i < b.len() implies #[trigger] b[i] != ',' by {
                if i > 0 {
                    assert(b[i] == last[i - 1]);
                }
            }
        }
        let j = join(init, seq![',', ' ']);
        assert(join(parts, seq![',', ' ']) =~= j + seq![','] + b);
        lemma_split_on_append(j, ',', b);
        assert(rejoined_pieces(init).push(b) =~~= rejoined_pieces(parts));
    }
}

/// The pieces of a split hold no separator, and only characters of the text.
pub proof fn lemma_split_on_pieces(s: Seq<char>, sep: char)
    ensures
        forall|i: int| 0 <= i < split_on(s, sep).len() ==> free_of(#[trigger] split_on(s, sep)[i], sep),
        forall|i: int, k: int|
            0 <= i < split_on(s, sep).len() && 0 <= k < split_on(s, sep)[i].len() ==> s.contains(
                #[trigger] split_on(s, sep)[i][k],
            ),
    decreases s.len(),
{
    if s.len() > 0 {
        let s0 = s.drop_last();
        lemma_split_on_pieces(s0, sep);
        lemma_split_on_nonempty(s0, sep);
        let prev = split_on(s0, sep);
        let cur = split_on(s, sep);
        assert forall|i: int, k: int| 0 <= i < cur.len() && 0 <= k < cur[i].len() implies s.contains(
            #[trigger] cur[i][k],
        ) by {
            if i < prev.len() && (s.last() == sep || i < prev.len() - 1 || k < prev[i].len()) {
                let c = prev[i][k];
                assert(cur[i][k] == c);
                assert(s0.contains(c));
                let m = choose|m: int| 0 <= m < s0.len() && s0[m] == c;
                assert(s[m] == c);
            } else {
                assert(cur[i][k] == s.last());
                assert(s[s.len() - 1] == s.last());
            }
        }
        assert forall|i: int| 0 <= i < cur.len() implies free_of(#[trigger] cur[i], sep) by {
            assert forall|k: int| 0 <= k < cur[i].len() implies #[trigger] cur[i][k] != sep by {
                if i < prev.len() && (s.last() == sep || i < prev.len() - 1 || k < prev[i].len()) {
                    assert(cur[i][k] == prev[i][k]);
                    assert(free_of(prev[i], sep));
                }
            }
        }
    }
}

/// What `trim` keeps holds only characters of the text, and no whitespace at either end.
pub proof fn lemma_trim_shape(s: Seq<char>)
    ensures
        forall|k: int| 0 <= k < trim(s).len() ==> s.contains(#[trigger] trim(s)[k]),
        trim(s).len() > 0 ==> !is_ws(trim(s)[0]) && !is_ws(trim(s).last()),
    decreases s.len(),
{
    if s.len() == 0 {
    } else if is_ws(s[0]) {
        let t = s.drop_first();
        lemma_trim_shape(t);
        assert forall|k: int| 0 <= k < trim(s).len() implies s.contains(#[trigger] trim(s)[k]) by {
            let c = trim(t)[k];
            let m = choose|m: int| 0 <= m < t.len() && t[m] == c;
            assert(s[m + 1] == c);
        }
    } else if is_ws(s.last()) {
        let t = s.drop_last();
        lemma_trim_shape(t);
        assert forall|k: int| 0 <= k < trim(s).len() implies s.contains(#[trigger] trim(s)[k]) by {
            let c = trim(t)[k];
            let m = choose|m: int| 0 <= m < t.len() && t[m] == c;
            assert(s[m] == c);
        }
    } else {
        assert forall|k: int| 0 <= k < trim(s).len() implies s.contains(#[trigger] trim(s)[k]) by {
            assert(s[k] == trim(s)[k]);
        }
    }
}

/// Text with no whitespace at either end is its own trim.
pub proof fn lemma_trim_fixed(s: Seq<char>)
    requires
        s.len() > 0 ==> !is_ws(s[0]) && !is_ws(s.last()),
    ensures
        trim(s) == s,
{
}

/// A space in front changes nothing that `trim` keeps.
pub proof fn lemma_trim_space(s: Seq<char>)
    ensures
        trim(seq![' '] + s) == trim(s),
{
    assert((seq![' '] + s).drop_first() =~= s);
    assert(is_ws((seq![' '] + s)[0]));
}

proof fn lemma_trim_bounds(s: Seq<char>, i: int, j: int)
    requires
        0 <= i <= j <= s.len(),
        forall|k: int| 0 <= k < i ==> is_ws(#[trigger] s[k]),
        forall|k: int| j <= k < s.len() ==> is_ws(#[trigger] s[k]),
        i < j ==> !is_ws(s[i]) && !is_ws(s[j - 1]),
    ensures
        trim(s) == s.subrange(i, j),
    decreases s.len(),
{
    if s.len() == 0 {
    } else if is_ws(s[0]) {
        let t = s.drop_first();
        if i == 0 {
            assert(j == 0);
            assert forall|k: int| 0 <= k < t.len() implies is_ws(#[trigger] t[k]) by {
                assert(t[k] == s[k + 1]);
            }
            lemma_trim_bounds(t, 0, 0);
            assert(s.subrange(0, 0) =~= t.subrange(0, 0));
        } else {
            assert forall|k: int| j - 1 <= k < t.len() implies is_ws(#[trigger] t[k]) by {
                assert(t[k] == s[k + 1]);
            }
            assert forall|k: int| 0 <= k < i - 1 implies is_ws(#[trigger] t[k]) by {
                assert(t[k] == s[k + 1]);
            }
            lemma_trim_bounds(t, i - 1, j - 1);
            assert(t.subrange(i - 1, j - 1) =~= s.subrange(i, j));
        }
    } else if is_ws(s.last()) {
        let t = s.drop_last();
        assert(j < s.len());
        lemma_trim_bounds(t, i, j);
        assert(t.subrange(i, j) =~= s.subrange(i, j));
    } else {
        assert(s.subrange(i, j) =~= s);
    }
}

pub open spec fn is_digit(c: char) -> bool {
    48 <= c as u32 <= 57
}

pub open spec fn digit_val(c: char) -> int {
    c as u32 - 48
}

/// `s` without the character `c`.
pub open spec fn without_char(s: Seq<char>, c: char) -> Seq<char>
    decreases s.len(),
{
    if s.len() == 0 {
        s
    } else if s.last() == c {
        without_char(s.drop_last(), c)
    } else {
        without_char(s.drop_last(), c).push(s.last())
    }
}

/// The strings joined with `sep` between each two neighbours.
pub fn join_strings(parts: &Vec<String>, sep: &str) -> (r: String)
    ensures
        r@ == join(parts@.map_values(|s: String| s@), sep@),
{
    let ghost views = parts@.map_values(|s: String| s@);
    let mut out: Vec<char> = Vec::new();
    let sep_chars = chars_of(sep);
    let mut i: usize = 0;
    while i < parts.len()
        invariant
            i <= parts.len(),
            views == parts@.map_values(|s: String| s@),
            sep_chars@ == sep@,
            out@ == join(views.subrange(0, i as int), sep@),
        decreases parts.len() - i,
    {
        let ghost before = out@;
        if i > 0 {
            append_chars(&mut out, &sep_chars);
        }
        let part = chars_of(parts[i].as_str());
        append_chars(&mut out, &part);
        proof {
            let sub = views.subrange(0, i + 1);
            assert(sub.drop_last() =~= views.subrange(0, i as int));
            assert(sub.last() == parts@[i as int]@);
            if i == 0 {
                assert(out@ =~= sub[0]);
            } else {
                assert(out@ =~= before + sep@ + sub.last());
            }
        }
        i = i + 1;
    }
    proof {
        assert(views.subrange(0, parts.len() as int) =~= views);
    }
    string_of(out)
}

/// Appends the characters of `extra` to `out`.
pub fn append_chars(out: &mut Vec<char>, extra: &Vec<char>)
    ensures
        final(out)@ == old(out)@ + extra@,
{
    let mut k: usize = 0;
    while k < extra.len()
        invariant
            k <= extra.len(),
            out@ == old(out)@ + extra@.subrange(0, k as int),
        decreases extra.len() - k,
    {
        out.push(extra[k]);
        k = k + 1;
        proof {
            assert(out@ =~= old(out)@ + extra@.subrange(0, k as int));
        }
    }
    proof {
        assert(extra@.subrange(0, k as int) =~= extra@);
    }
}

/// A Unicode decimal digit (general category Nd, Unicode 16.0): the class that `\d`
/// stands for in the regex crate.
pub open spec fn is_dec_digit(c: char) -> bool {
    let u = c as u32;
    (0x30 <= u <= 0x39) || (0x660 <= u <= 0x669) || (0x6f0 <= u <= 0x6f9) ||
        (0x7c0 <= u <= 0x7c9) || (0x966 <= u <= 0x96f) || (0x9e6 <= u <= 0x9ef) ||
        (0xa66 <= u <= 0xa6f) || (0xae6 <= u <= 0xaef) || (0xb66 <= u <= 0xb6f) ||
        (0xbe6 <= u <= 0xbef) || (0xc66 <= u <= 0xc6f) || (0xce6 <= u <= 0xcef) ||
        (0xd66 <= u <= 0xd6f) || (0xde6 <= u <= 0xdef) || (0xe50 <= u <= 0xe59) ||
        (0xed0 <= u <= 0xed9) || (0xf20 <= u <= 0xf29) || (0x1040 <= u <= 0x1049) ||
        (0x1090 <= u <= 0x1099) || (0x17e0 <= u <= 0x17e9) || (0x1810 <= u <= 0x1819) ||
        (0x1946 <= u <= 0x194f) || (0x19d0 <= u <= 0x19d9) || (0x1a80 <= u <= 0x1a89) ||
        (0x1a90 <= u <= 0x1a99) || (0x1b50 <= u <= 0x1b59) || (0x1bb0 <= u <= 0x1bb9) ||
        (0x1c40 <= u <= 0x1c49) || (0x1c50 <= u <= 0x1c59) || (0xa620 <= u <= 0xa629) ||
        (0xa8d0 <= u <= 0xa8d9) || (0xa900 <= u <= 0xa909) || (0xa9d0 <= u <= 0xa9d9) ||
        (0xa9f0 <= u <= 0xa9f9) || (0xaa50 <= u <= 0xaa59) || (0xabf0 <= u <= 0xabf9) ||
        (0xff10 <= u <= 0xff19) || (0x104a0 <= u <= 0x104a9) || (0x10d30 <= u <= 0x10d39) ||
        (0x10d40 <= u <= 0x10d49) || (0x11066 <= u <= 0x1106f) || (0x110f0 <= u <= 0x110f9) ||
        (0x11136 <= u <= 0x1113f) || (0x111d0 <= u <= 0x111d9) || (0x112f0 <= u <= 0x112f9) ||
        (0x11450 <= u <= 0x11459) || (0x114d0 <= u <= 0x114d9) || (0x11650 <= u <= 0x11659) ||
        (0x116c0 <= u <= 0x116c9) || (0x116d0 <= u <= 0x116e3) || (0x11730 <= u <= 0x11739) ||
        (0x118e0 <= u <= 0x118e9) || (0x11950 <= u <= 0x11959) || (0x11bf0 <= u <= 0x11bf9) ||
        (0x11c50 <= u <= 0x11c59) || (0x11d50 <= u <= 0x11d59) || (0x11da0 <= u <= 0x11da9) ||
        (0x11f50 <= u <= 0x11f59) || (0x16130 <= u <= 0x16139) || (0x16a60 <= u <= 0x16a69) ||
        (0x16ac0 <= u <= 0x16ac9) || (0x16b50 <= u <= 0x16b59) || (0x16d70 <= u <= 0x16d79) ||
        (0x1ccf0 <= u <= 0x1ccf9) || (0x1d7ce <= u <= 0x1d7ff) || (0x1e140 <= u <= 0x1e149) ||
        (0x1e2f0 <= u <= 0x1e2f9) || (0x1e4f0 <= u <= 0x1e4f9) || (0x1e5f1 <= u <= 0x1e5fa) ||
        (0x1e950 <= u <= 0x1e959) || (0x1fbf0 <= u <= 0x1fbf9)
}

pub fn is_decimal_digit(c: char) -> (r: bool)
    ensures
        r == is_dec_digit(c),
{
    let u = c as u32;
    (0x30 <= u && u <= 0x39) || (0x660 <= u && u <= 0x669) || (0x6f0 <= u && u <= 0x6f9) ||
        (0x7c0 <= u && u <= 0x7c9) || (0x966 <= u && u <= 0x96f) || (0x9e6 <= u && u <= 0x9ef) ||
        (0xa66 <= u && u <= 0xa6f) || (0xae6 <= u && u <= 0xaef) || (0xb66 <= u && u <= 0xb6f) ||
        (0xbe6 <= u && u <= 0xbef) || (0xc66 <= u && u <= 0xc6f) || (0xce6 <= u && u <= 0xcef) ||
        (0xd66 <= u && u <= 0xd6f) || (0xde6 <= u && u <= 0xdef) || (0xe50 <= u && u <= 0xe59) ||
        (0xed0 <= u && u <= 0xed9) || (0xf20 <= u && u <= 0xf29) || (0x1040 <= u && u <= 0x1049) ||
        (0x1090 <= u && u <= 0x1099) || (0x17e0 <= u && u <= 0x17e9) ||
        (0x1810 <= u && u <= 0x1819) || (0x1946 <= u && u <= 0x194f) ||
        (0x19d0 <= u && u <= 0x19d9) || (0x1a80 <= u && u <= 0x1a89) ||
        (0x1a90 <= u && u <= 0x1a99) || (0x1b50 <= u && u <= 0x1b59) ||
        (0x1bb0 <= u && u <= 0x1bb9) || (0x1c40 <= u && u <= 0x1c49) ||
        (0x1c50 <= u && u <= 0x1c59) || (0xa620 <= u && u <= 0xa629) ||
        (0xa8d0 <= u && u <= 0xa8d9) || (0xa900 <= u && u <= 0xa909) ||
        (0xa9d0 <= u && u <= 0xa9d9) || (0xa9f0 <= u && u <= 0xa9f9) ||
        (0xaa50 <= u && u <= 0xaa59) || (0xabf0 <= u && u <= 0xabf9) ||
        (0xff10 <= u && u <= 0xff19) || (0x104a0 <= u && u <= 0x104a9) ||
        (0x10d30 <= u && u <= 0x10d39) || (0x10d40 <= u && u <= 0x10d49) ||
        (0x11066 <= u && u <= 0x1106f) || (0x110f0 <= u && u <= 0x110f9) ||
        (0x11136 <= u && u <= 0x1113f) || (0x111d0 <= u && u <= 0x111d9) ||
        (0x112f0 <= u && u <= 0x112f9) || (0x11450 <= u && u <= 0x11459) ||
        (0x114d0 <= u && u <= 0x114d9) || (0x11650 <= u && u <= 0x11659) ||
        (0x116c0 <= u && u <= 0x116c9) || (0x116d0 <= u && u <= 0x116e3) ||
        (0x11730 <= u && u <= 0x11739) || (0x118e0 <= u && u <= 0x118e9) ||
        (0x11950 <= u && u <= 0x11959) || (0x11bf0 <= u && u <= 0x11bf9) ||
        (0x11c50 <= u && u <= 0x11c59) || (0x11d50 <= u && u <= 0x11d59) ||
        (0x11da0 <= u && u <= 0x11da9) || (0x11f50 <= u && u <= 0x11f59) ||
        (0x16130 <= u && u <= 0x16139) || (0x16a60 <= u && u <= 0x16a69) ||
        (0x16ac0 <= u && u <= 0x16ac9) || (0x16b50 <= u && u <= 0x16b59) ||
        (0x16d70 <= u && u <= 0x16d79) || (0x1ccf0 <= u && u <= 0x1ccf9) ||
        (0x1d7ce <= u && u <= 0x1d7ff) || (0x1e140 <= u && u <= 0x1e149) ||
        (0x1e2f0 <= u && u <= 0x1e2f9) || (0x1e4f0 <= u && u <= 0x1e4f9) ||
        (0x1e5f1 <= u && u <= 0x1e5fa) || (0x1e950 <= u && u <= 0x1e959) ||
        (0x1fbf0 <= u && u <= 0x1fbf9)
}

/// Every character of `d` is an ASCII digit.
pub open spec fn all_ascii_digits(d: Seq<char>) -> bool {
    forall|i: int| 0 <= i < d.len() ==> is_digit(#[trigger] d[i])
}

/// Whether `v[lo..hi]` holds only ASCII digits.
pub fn ascii_digits_only(v: &Vec<char>, lo: usize, hi: usize) -> (r: bool)
    requires
        lo <= hi <= v.len(),
    ensures
        r == all_ascii_digits(v@.subrange(lo as int, hi as int)),
{
    let mut k = lo;
    while k < hi
        invariant
            lo <= k <= hi <= v.len(),
            forall|m: int| lo <= m < k ==> is_digit(#[trigger] v@[m]),
        decreases hi - k,
    {
        if !is_ascii_digit(v[k]) {
            proof {
                assert(v@.subrange(lo as int, hi as int)[k - lo] == v@[k as int]);
            }
            return false;
        }
        k = k + 1;
    }
    proof {
        let s = v@.subrange(lo as int, hi as int);
        assert forall|i: int| 0 <= i < s.len() implies is_digit(#[trigger] s[i]) by {
            assert(s[i] == v@[lo + i]);
        }
    }
    true
}

/// The length of the run of decimal digits (any script) that starts at `i` in `s`.
pub open spec fn dec_run(s: Seq<char>, i: int) -> nat
    decreases s.len() - i,
{
    if 0 <= i < s.len() && is_dec_digit(s[i]) {
        1 + dec_run(s, i + 1)
    } else {
        0
    }
}

pub fn dec_run_at(v: &Vec<char>, i: usize) -> (r: usize)
    requires
        i <= v.len(),
    ensures
        r == dec_run(v@, i as int),
        i + r <= v.len(),
        forall|k: int| i <= k < i + r ==> is_dec_digit(#[trigger] v@[k]),
{
    let mut j = i;
    while j < v.len() && is_decimal_digit(v[j])
        invariant
            i <= j <= v.len(),
            dec_run(v@, i as int) == (j - i) + dec_run(v@, j as int),
            forall|k: int| i <= k < j ==> is_dec_digit(#[trigger] v@[k]),
        decreases v.len() - j,
    {
        j = j + 1;
    }
    j - i
}

/// The length of the run of ASCII digits that starts at `i` in `s`.
pub open spec fn digit_run(s: Seq<char>, i: int) -> nat
    decreases s.len() - i,
{
    if 0 <= i < s.len() && is_digit(s[i]) {
        1 + digit_run(s, i + 1)
    } else {
        0
    }
}

/// The number that a sequence of ASCII digits writes in base ten.
pub open spec fn digits_value(d: Seq<char>) -> nat
    decreases d.len(),
{
    if d.len() == 0 {
        0
    } else {
        (digits_value(d.drop_last()) * 10 + digit_val(d.last())) as nat
    }
}

pub fn is_ascii_digit(c: char) -> (r: bool)
    ensures
        r == is_digit(c),
{
    let u = c as u32;
    48 <= u && u <= 57
}

pub proof fn lemma_digit_run_digits(s: Seq<char>, i: int)
    ensures
        forall|k: int| i <= k < i + digit_run(s, i) ==> is_digit(#[trigger] s[k]),
        0 <= i <= s.len() ==> i + digit_run(s, i) <= s.len(),
    decreases s.len() - i,
{
    if 0 <= i < s.len() && is_digit(s[i]) {
        lemma_digit_run_digits(s, i + 1);
    }
}

pub fn digit_run_at(v: &Vec<char>, i: usize) -> (r: usize)
    requires
        i <= v.len(),
    ensures
        r == digit_run(v@, i as int),
        i + r <= v.len(),
{
    let mut j = i;
    while j < v.len() && is_ascii_digit(v[j])
        invariant
            i <= j <= v.len(),
            digit_run(v@, i as int) == (j - i) + digit_run(v@, j as int),
        decreases v.len() - j,
    {
        j = j + 1;
    }
    j - i
}

pub proof fn lemma_digits_value_push(d: Seq<char>, c: char)
    requires
        is_digit(c),
    ensures
        digits_value(d.push(c)) == digits_value(d) * 10 + digit_val(c),
{
    assert(d.push(c).drop_last() =~= d);
}

/// The value of the digits `v[lo..hi]`, where it is not empty and fits in an `i64`.
pub fn parse_digits(v: &Vec<char>, lo: usize, hi: usize) -> (r: Option<i64>)
    requires
        lo <= hi <= v.len(),
        forall|k: int| lo <= k < hi ==> is_digit(#[trigger] v@[k]),
    ensures
        r == (if lo < hi && digits_value(v@.subrange(lo as int, hi as int)) <= i64::MAX {
            Some(digits_value(v@.subrange(lo as int, hi as int)) as i64)
        } else {
            None::<i64>
        }),
{
    if lo == hi {
        return None;
    }
    let mut acc: i64 = 0;
    let mut k = lo;
    while k < hi
        invariant
            lo <= k <= hi <= v.len(),
            forall|m: int| lo <= m < hi ==> is_digit(#[trigger] v@[m]),
            acc as int == digits_value(v@.subrange(lo as int, k as int)),
        decreases hi - k,
    {
        let d = (v[k] as u32 - 48) as i64;
        proof {
            assert(v@.subrange(lo as int, k + 1) =~= v@.subrange(lo as int, k as int).push(v@[k as int]));
            lemma_digits_value_push(v@.subrange(lo as int, k as int), v@[k as int]);
        }
        if acc > (i64::MAX - d) / 10 {
            proof {
                lemma_digits_value_grows(v@.subrange(lo as int, hi as int), (k + 1 - lo) as nat);
                assert(v@.subrange(lo as int, hi as int).subrange(0, k + 1 - lo) =~= v@.subrange(lo as int, k + 1));
            }
            return None;
        }
        acc = acc * 10 + d;
        k = k + 1;
    }
    Some(acc)
}

/// A prefix of a digit sequence is worth no more than the whole.
pub proof fn lemma_digits_value_grows(d: Seq<char>, n: nat)
    requires
        n <= d.len(),
        forall|k: int| 0 <= k < d.len() ==> is_digit(#[trigger] d[k]),
    ensures
        digits_value(d.subrange(0, n as int)) <= digits_value(d),
    decreases d.len() - n,
{
    if n < d.len() {
        let p = d.subrange(0, n as int);
        let q = d.subrange(0, n + 1 as int);
        assert(q =~= p.push(d[n as int]));
        lemma_digits_value_push(p, d[n as int]);
        lemma_digits_value_grows(d, n + 1);
    } else {
        assert(d.subrange(0, n as int) =~= d);
    }
}

/// A copy of `v[lo..hi]`.
pub fn sub_vec(v: &Vec<char>, lo: usize, hi: usize) -> (r: Vec<char>)
    requires
        lo <= hi <= v.len(),
    ensures
        r@ == v@.subrange(lo as int, hi as int),
{
    let mut r: Vec<char> = Vec::new();
    let mut k = lo;
    while k < hi
        invariant
            lo <= k <= hi <= v.len(),
            r@ == v@.subrange(lo as int, k as int),
        decreases hi - k,
    {
        r.push(v[k]);
        k = k + 1;
        proof {
            assert(r@ =~= v@.subrange(lo as int, k as int));
        }
    }
    r
}

/// Whether `v[lo..hi]` is the word `w`.
pub fn word_eq(v: &Vec<char>, lo: usize, hi: usize, w: &Vec<char>) -> (r: bool)
    requires
        lo <= hi <= v.len(),
    ensures
        r == (v@.subrange(lo as int, hi as int) == w@),
{
    if hi - lo != w.len() {
        proof {
            assert(v@.subrange(lo as int, hi as int).len() != w@.len());
        }
        return false;
    }
    let mut k: usize = 0;
    while k < w.len()
        invariant
            hi - lo == w.len(),
            lo <= hi <= v.len(),
            k <= w.len(),
            forall|m: int| 0 <= m < k ==> v@[lo + m] == w@[m],
        decreases w.len() - k,
    {
        if v[lo + k] != w[k] {
            proof {
                assert(v@.subrange(lo as int, hi as int)[k as int] != w@[k as int]);
            }
            return false;
        }
        k = k + 1;
    }
    proof {
        assert(v@.subrange(lo as int, hi as int) =~= w@);
    }
    true
}

/// `n` occurs in `h`.
pub open spec fn contains_seq(h: Seq<char>, n: Seq<char>) -> bool {
    exists|i: int| 0 <= i && i + n.len() <= h.len() && #[trigger] h.subrange(i, i + n.len()) == n
}

/// Whether `n` occurs in `h`.
pub fn find_seq(h: &Vec<char>, n: &Vec<char>) -> (r: bool)
    ensures
        r == contains_seq(h@, n@),
{
    if n.len() > h.len() {
        return false;
    }
    let last = h.len() - n.len();
    let mut i: usize = 0;
    while i <= last
        invariant
            last + n.len() == h.len(),
            forall|j: int| 0 <= j < i ==> #[trigger] h@.subrange(j, j + n@.len()) != n@,
        decreases last + 1 - i,
    {
        if word_eq(h, i, i + n.len(), n) {
            return true;
        }
        if i == last {
            return false;
        }
        i = i + 1;
    }
    false
}

/// Whether two character vectors hold the same characters.
pub fn same_chars(a: &Vec<char>, b: &Vec<char>) -> (r: bool)
    ensures
        r == (a@ == b@),
{
    if a.len() != b.len() {
        return false;
    }
    let mut k: usize = 0;
    while k < a.len()
        invariant
            a.len() == b.len(),
            k <= a.len(),
            forall|m: int| 0 <= m < k ==> a@[m] == b@[m],
        decreases a.len() - k,
    {
        if a[k] != b[k] {
            return false;
        }
        k = k + 1;
    }
    proof {
        assert(a@ =~= b@);
    }
    true
}

/// The characters of `s`, in order.
pub fn chars_of(s: &str) -> (r: Vec<char>)
    ensures
        r@ == s@,
{
    let mut it = s.chars();
    let mut v: Vec<char> = Vec::new();
    loop
        invariant
            it.remaining() == s@.subrange(v.len() as int, s@.len() as int),
            v@ == s@.subrange(0, v.len() as int),
            v.len() <= s@.len(),
        decreases s@.len() - v.len(),
    {
        match it.next() {
            Some(c) => {
                v.push(c);
            },
            None => {
                assert(v@ =~= s@);
                return v;
            },
        }
    }
}

/// Relies on `String::from_iter`: the string holds exactly the given characters, in order.
#[verifier::external_body]
pub fn string_of(v: Vec<char>) -> (r: String)
    ensures
        r@ == v@,
{
    String::from_iter(v)
}

/// The bounds `i..j` of `trim(v@)` in `v`.
pub fn trim_bounds(v: &Vec<char>, lo: usize, hi: usize) -> (r: (usize, usize))
    requires
        lo <= hi <= v.len(),
    ensures
        lo <= r.0 <= r.1 <= hi,
        trim(v@.subrange(lo as int, hi as int)) == v@.subrange(r.0 as int, r.1 as int),
{
    let mut i = lo;
    while i < hi && is_whitespace(v[i])
        invariant
            lo <= i <= hi <= v.len(),
            forall|k: int| lo <= k < i ==> is_ws(#[trigger] v@[k]),
        decreases hi - i,
    {
        i = i + 1;
    }
    let mut j = hi;
    while j > i && is_whitespace(v[j - 1])
        invariant
            lo <= i <= j <= hi <= v.len(),
            forall|k: int| j <= k < hi ==> is_ws(#[trigger] v@[k]),
        decreases j,
    {
        j = j - 1;
    }
    proof {
        let s = v@.subrange(lo as int, hi as int);
        assert forall|k: int| 0 <= k < i - lo implies is_ws(#[trigger] s[k]) by {
            assert(s[k] == v@[k + lo]);
        }
        assert forall|k: int| j - lo <= k < s.len() implies is_ws(#[trigger] s[k]) by {
            assert(s[k] == v@[k + lo]);
        }
        if i < j {
            assert(s[i - lo] == v@[i as int]);
            assert(s[j - lo - 1] == v@[j - 1]);
        }
        lemma_trim_bounds(s, i - lo, j - lo);
        assert(s.subrange(i - lo, j - lo) =~= v@.subrange(i as int, j as int));
    }
    (i, j)
}

} // verus!
