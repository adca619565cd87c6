//! Character-level text operations that the selector core is built on:
//! whitespace tokenisation of listing rows, line splitting of listing output,
//! joining, comparison and decimal rendering.  Every operation is specified
//! against a `Seq<char>` model of the string it works on.

use vstd::prelude::*;

verus! {

/// The whitespace characters that separate row tokens and that the listing
/// command emits: space, tab, carriage return and line feed.
pub open spec fn spec_is_space(c: char) -> bool {
    c == ' ' || c == '\t' || c == '\r' || c == '\n'
}

/// Whether `c` separates tokens.
pub fn is_space(c: char) -> (r: bool)
    ensures
        r == spec_is_space(c),
{
    c == ' ' || c == '\t' || c == '\r' || c == '\n'
}

/// Length of the leading run of non-whitespace characters of `s`.
pub open spec fn spec_token_len(s: Seq<char>) -> nat
    decreases s.len(),
{
    if s.len() == 0 || spec_is_space(s[0]) {
        0
    } else {
        1 + spec_token_len(s.drop_first())
    }
}

pub proof fn lemma_token_len_bounds(s: Seq<char>)
    ensures
        spec_token_len(s) <= s.len(),
        s.len() > 0 && !spec_is_space(s[0]) ==> spec_token_len(s) >= 1,
    decreases s.len(),
{
    if s.len() > 0 && !spec_is_space(s[0]) {
        lemma_token_len_bounds(s.drop_first());
    }
}

/// The whitespace-delimited tokens of `s`, in order, with empty tokens
/// impossible: the model of `str::split_whitespace` restricted to the
/// separators of `spec_is_space`.
pub open spec fn spec_split_ws(s: Seq<char>) -> Seq<Seq<char>>
    decreases s.len(),
    via spec_split_ws_decreases
{
    if s.len() == 0 {
        Seq::empty()
    } else if spec_is_space(s[0]) {
        spec_split_ws(s.drop_first())
    } else {
        seq![s.take(spec_token_len(s) as int)] + spec_split_ws(s.skip(spec_token_len(s) as int))
    }
}

#[via_fn]
proof fn spec_split_ws_decreases(s: Seq<char>) {
    lemma_token_len_bounds(s);
}

/// If the first `m` characters of `s` are not whitespace and the character
/// after them (if any) is, then the leading token is exactly `m` long.
pub proof fn lemma_token_len_from_scan(s: Seq<char>, m: int)
    requires
        0 <= m <= s.len(),
        forall|k: int| 0 <= k < m ==> !spec_is_space(s[k]),
        m < s.len() ==> spec_is_space(s[m]),
    ensures
        spec_token_len(s) == m,
    decreases m,
{
    if m == 0 {
    } else {
        assert(!spec_is_space(s[0]));
        lemma_token_len_from_scan(s.drop_first(), m - 1);
    }
}

/// Splits `s` into its whitespace-delimited tokens.
pub fn split_whitespace(s: &str) -> (r: Vec<String>)
    ensures
        r.deep_view() == spec_split_ws(s@),
{
    let len = s.unicode_len();
    let mut r: Vec<String> = Vec::new();
    let mut i: usize = 0;
    proof {
        assert(s@.skip(0) =~= s@);
        assert(r.deep_view() =~= Seq::<Seq<char>>::empty());
        assert(r.deep_view() + spec_split_ws(s@) =~= spec_split_ws(s@));
    }
    while i < len
        invariant
            len == s@.len(),
            i <= len,
            spec_split_ws(s@) == r.deep_view() + spec_split_ws(s@.skip(i as int)),
        decreases len - i,
    {
        if is_space(s.get_char(i)) {
            proof {
                let t = s@.skip(i as int);
                assert(t.drop_first() =~= s@.skip(i + 1));
                assert(spec_split_ws(t) == spec_split_ws(s@.skip(i + 1)));
            }
            i = i + 1;
        } else {
            let start = i;
            let mut j: usize = i + 1;
            while j < len && !is_space(s.get_char(j))
                invariant
                    len == s@.len(),
                    start < j <= len,
                    forall|k: int| start <= k < j ==> !spec_is_space(s@[k]),
                decreases len - j,
            {
                j = j + 1;
            }
            let tok = s.substring_char(start, j);
            let ghost old_r = r.deep_view();
            r.push(String::from_str(tok));
            proof {
                let t = s@.skip(start as int);
                assert forall|k: int| 0 <= k < j - start implies !spec_is_space(t[k]) by {
                    assert(t[k] == s@[start + k]);
                }
                if j < len {
                    assert(t[j - start] == s@[j as int]);
                }
                lemma_token_len_from_scan(t, j - start);
                assert(t.take(j - start) =~= s@.subrange(start as int, j as int));
                assert(t.skip(j - start) =~= s@.skip(j as int));
                assert(spec_split_ws(t) == seq![tok@] + spec_split_ws(s@.skip(j as int)));
                assert(r.deep_view() =~= old_r.push(tok@));
                assert(r.deep_view() + spec_split_ws(s@.skip(j as int)) =~= old_r + spec_split_ws(
                    t,
                ));
            }
            i = j;
        }
    }
    proof {
        assert(s@.skip(len as int) =~= Seq::<char>::empty());
        assert(spec_split_ws(s@) =~= r.deep_view());
    }
    r
}

/// Appends clones of all of `src` to `dst`, in order.
pub fn append_all(dst: &mut Vec<String>, src: &Vec<String>)
    ensures
        final(dst).deep_view() == old(dst).deep_view() + src.deep_view(),
{
    let ghost orig = dst.deep_view();
    let ghost sv = src.deep_view();
    let mut i: usize = 0;
    proof {
        assert(sv.take(0) =~= Seq::<Seq<char>>::empty());
        assert(orig + sv.take(0) =~= orig);
    }
    while i < src.len()
        invariant
            i <= src@.len(),
            sv == src.deep_view(),
            dst.deep_view() == orig + sv.take(i as int),
        decreases src@.len() - i,
    {
        let ghost pre = dst.deep_view();
        dst.push(src[i].clone());
        proof {
            assert(dst.deep_view() =~= pre.push(sv[i as int]));
            assert(sv.take(i + 1) =~= sv.take(i as int).push(sv[i as int]));
            assert(pre.push(sv[i as int]) =~= orig + sv.take(i + 1));
        }
        i = i + 1;
    }
    proof {
        assert(sv.take(src@.len() as int) =~= sv);
    }
}

/// The parts joined with `sep` between consecutive parts.
pub open spec fn spec_join(parts: Seq<Seq<char>>, sep: Seq<char>) -> Seq<char>
    decreases parts.len(),
{
    if parts.len() == 0 {
        Seq::empty()
    } else if parts.len() == 1 {
        parts[0]
    } else {
        parts[0] + sep + spec_join(parts.drop_first(), sep)
    }
}

pub proof fn lemma_join_push(parts: Seq<Seq<char>>, sep: Seq<char>, x: Seq<char>)
    requires
        parts.len() >= 1,
    ensures
        spec_join(parts.push(x), sep) == spec_join(parts, sep) + sep + x,
    decreases parts.len(),
{
    if parts.len() == 1 {
        assert(parts.push(x).drop_first() =~= seq![x]);
        assert(spec_join(seq![x], sep) == x);
        assert(parts.push(x)[0] == parts[0]);
    } else {
        assert(parts.push(x).drop_first() =~= parts.drop_first().push(x));
        lemma_join_push(parts.drop_first(), sep, x);
        assert(parts.push(x)[0] == parts[0]);
        assert((parts[0] + sep + (spec_join(parts.drop_first(), sep) + sep + x)) =~= (parts[0]
            + sep + spec_join(parts.drop_first(), sep)) + sep + x);
    }
}

/// Joins the parts with `sep` between consecutive parts.
pub fn join(parts: &Vec<String>, sep: &str) -> (r: String)
    ensures
        r@ == spec_join(parts.deep_view(), sep@),
{
    let ghost dv = parts.deep_view();
    let mut r = String::new();
    let n = parts.len();
    let mut i: usize = 0;
    proof {
        assert(dv.take(0) =~= Seq::<Seq<char>>::empty());
    }
    while i < n
        invariant
            i <= n,
            n == parts@.len(),
            dv == parts.deep_view(),
            r@ == spec_join(dv.take(i as int), sep@),
        decreases n - i,
    {
        if i > 0 {
            r.append(sep);
        }
        r.append(parts[i].as_str());
        proof {
            assert(dv.take(i + 1) =~= dv.take(i as int).push(dv[i as int]));
            if i > 0 {
                lemma_join_push(dv.take(i as int), sep@, dv[i as int]);
            } else {
                assert(dv.take(1) =~= seq![dv[0]]);
                assert(spec_join(seq![dv[0]], sep@) == dv[0]);
            }
        }
        i = i + 1;
    }
    proof {
        assert(dv.take(n as int) =~= dv);
    }
    r
}

/// Whether two string slices hold the same characters.
pub fn str_eq(a: &str, b: &str) -> (r: bool)
    ensures
        r == (a@ == b@),
{
    let alen = a.unicode_len();
    let blen = b.unicode_len();
    if alen != blen {
        return false;
    }
    let mut i: usize = 0;
    while i < alen
        invariant
            alen == a@.len(),
            alen == b@.len(),
            i <= alen,
            forall|k: int| 0 <= k < i ==> a@[k] == b@[k],
        decreases alen - i,
    {
        if a.get_char(i) != b.get_char(i) {
            return false;
        }
        i = i + 1;
    }
    proof {
        assert(a@ =~= b@);
    }
    true
}

/// Length of the leading run of characters of `s` before the first line feed.
pub open spec fn spec_line_len(s: Seq<char>) -> nat
    decreases s.len(),
{
    if s.len() == 0 || s[0] == '\n' {
        0
    } else {
        1 + spec_line_len(s.drop_first())
    }
}

pub proof fn lemma_line_len_bounds(s: Seq<char>)
    ensures
        spec_line_len(s) <= s.len(),
    decreases s.len(),
{
    if s.len() > 0 && s[0] != '\n' {
        lemma_line_len_bounds(s.drop_first());
    }
}

pub proof fn lemma_line_len_from_scan(s: Seq<char>, m: int)
    requires
        0 <= m <= s.len(),
        forall|k: int| 0 <= k < m ==> s[k] != '\n',
        m < s.len() ==> s[m] == '\n',
    ensures
        spec_line_len(s) == m,
    decreases m,
{
    if m == 0 {
    } else {
        lemma_line_len_from_scan(s.drop_first(), m - 1);
    }
}

/// A line with a trailing carriage return removed.
pub open spec fn spec_strip_cr(t: Seq<char>) -> Seq<char> {
    if t.len() > 0 && t.last() == '\r' {
        t.drop_last()
    } else {
        t
    }
}

/// The lines of `s`: the model of `str::lines`.  Lines are separated by line
/// feeds, a trailing carriage return is removed from each line, and a final
/// line feed does not open an empty last line.
pub open spec fn spec_lines(s: Seq<char>) -> Seq<Seq<char>>
    decreases s.len(),
    via spec_lines_decreases
{
    if s.len() == 0 {
        Seq::empty()
    } else {
        let k = spec_line_len(s) as int;
        if k == s.len() {
            seq![spec_strip_cr(s)]
        } else {
            seq![spec_strip_cr(s.take(k))] + spec_lines(s.skip(k + 1))
        }
    }
}

#[via_fn]
proof fn spec_lines_decreases(s: Seq<char>) {
    lemma_line_len_bounds(s);
}

/// Splits `s` into its lines.
pub fn split_lines(s: &str) -> (r: Vec<String>)
    ensures
        r.deep_view() == spec_lines(s@),
{
    let len = s.unicode_len();
    let mut r: Vec<String> = Vec::new();
    let mut i: usize = 0;
    proof {
        assert(s@.skip(0) =~= s@);
        assert(r.deep_view() =~= Seq::<Seq<char>>::empty());
        assert(r.deep_view() + spec_lines(s@) =~= spec_lines(s@));
    }
    while i < len
        invariant
            len == s@.len(),
            i <= len,
            spec_lines(s@) == r.deep_view() + spec_lines(s@.skip(i as int)),
        decreases len - i,
    {
        let start = i;
        let mut j: usize = i;
        while j < len && s.get_char(j) != '\n'
            invariant
                len == s@.len(),
                start <= j <= len,
                forall|k: int| start <= k < j ==> s@[k] != '\n',
            decreases len - j,
        {
            j = j + 1;
        }
        let end = if j > start && s.get_char(j - 1) == '\r' {
            j - 1
        } else {
            j
        };
        let line = s.substring_char(start, end);
        let ghost old_r = r.deep_view();
        r.push(String::from_str(line));
        proof {
            let t = s@.skip(start as int);
            assert forall|k: int| 0 <= k < j - start implies t[k] != '\n' by {
                assert(t[k] == s@[start + k]);
            }
            if j < len {
                assert(t[j - start] == s@[j as int]);
            }
            lemma_line_len_from_scan(t, j - start);
            let raw = t.take(j - start);
            assert(raw =~= s@.subrange(start as int, j as int));
            if j > start && s@[j - 1] == '\r' {
                assert(raw.last() == s@[j - 1]);
                assert(spec_strip_cr(raw) =~= s@.subrange(start as int, j - 1));
            } else {
                if raw.len() > 0 {
                    assert(raw.last() == s@[j - 1]);
                }
                assert(spec_strip_cr(raw) =~= s@.subrange(start as int, j as int));
            }
            assert(line@ == spec_strip_cr(raw));
            assert(r.deep_view() =~= old_r.push(line@));
            if j < len {
                assert(t.skip(j - start + 1) =~= s@.skip(j + 1));
                assert(spec_lines(t) == seq![spec_strip_cr(raw)] + spec_lines(s@.skip(j + 1)));
                assert(r.deep_view() + spec_lines(s@.skip(j + 1)) =~= old_r + spec_lines(t));
            } else {
                assert(raw =~= t);
                assert(spec_lines(t) == seq![spec_strip_cr(t)]);
                assert(s@.skip(len as int) =~= Seq::<char>::empty());
                assert(r.deep_view() + spec_lines(s@.skip(len as int)) =~= old_r + spec_lines(t));
            }
        }
        if j < len {
            i = j + 1;
        } else {
            i = len;
        }
    }
    proof {
        assert(s@.skip(len as int) =~= Seq::<char>::empty());
        assert(spec_lines(s@) =~= r.deep_view());
    }
    r
}

/// The decimal digit character for `d`.
pub open spec fn spec_digit(d: nat) -> char {
    if d == 0 {
        '0'
    } else if d == 1 {
        '1'
    } else if d == 2 {
        '2'
    } else if d == 3 {
        '3'
    } else if d == 4 {
        '4'
    } else if d == 5 {
        '5'
    } else if d == 6 {
        '6'
    } else if d == 7 {
        '7'
    } else if d == 8 {
        '8'
    } else {
        '9'
    }
}

/// The decimal rendering of `n`, most significant digit first, no sign and no
/// leading zero except for `n == 0` itself.
pub open spec fn spec_dec(n: nat) -> Seq<char>
    decreases n,
{
    if n < 10 {
        seq![spec_digit(n)]
    } else {
        spec_dec(n / 10).push(spec_digit(n % 10))
    }
}

fn digit_str(d: usize) -> (r: &'static str)
    requires
        d < 10,
    ensures
        r@ == seq![spec_digit(d as nat)],
{
    let r = match d {
        0 => "0",
        1 => "1",
        2 => "2",
        3 => "3",
        4 => "4",
        5 => "5",
        6 => "6",
        7 => "7",
        8 => "8",
        _ => "9",
    };
    proof {
        reveal_strlit("0");
        reveal_strlit("1");
        reveal_strlit("2");
        reveal_strlit("3");
        reveal_strlit("4");
        reveal_strlit("5");
        reveal_strlit("6");
        reveal_strlit("7");
        reveal_strlit("8");
        reveal_strlit("9");
        assert(r@ =~= seq![spec_digit(d as nat)]);
    }
    r
}

pub proof fn lemma_dec_len(n: nat)
    ensures
        spec_dec(n).len() >= 1,
    decreases n,
{
    if n >= 10 {
        lemma_dec_len(n / 10);
    }
}

/// Distinct numbers have distinct decimal renderings.
pub proof fn lemma_dec_injective(a: nat, b: nat)
    requires
        a != b,
    ensures
        spec_dec(a) != spec_dec(b),
    decreases a + b,
{
    if a < 10 && b < 10 {
        assert(spec_dec(a)[0] == spec_digit(a));
        assert(spec_dec(b)[0] == spec_digit(b));
        assert(spec_digit(a) != spec_digit(b));
    } else if a < 10 {
        lemma_dec_len(b / 10);
        assert(spec_dec(b).len() == spec_dec(b / 10).len() + 1);
        assert(spec_dec(a).len() == 1);
    } else if b < 10 {
        lemma_dec_len(a / 10);
        assert(spec_dec(a).len() == spec_dec(a / 10).len() + 1);
        assert(spec_dec(b).len() == 1);
    } else {
        if a % 10 != b % 10 {
            assert(spec_dec(a).last() == spec_digit(a % 10));
            assert(spec_dec(b).last() == spec_digit(b % 10));
            assert(spec_digit(a % 10) != spec_digit(b % 10));
        } else {
            if a / 10 == b / 10 {
                assert(a == b) by (nonlinear_arith)
                    requires
                        a / 10 == b / 10,
                        a % 10 == b % 10,
                        a >= 10,
                        b >= 10,
                ;
            }
            lemma_dec_injective(a / 10, b / 10);
            if spec_dec(a) == spec_dec(b) {
                assert(spec_dec(a).drop_last() =~= spec_dec(a / 10));
                assert(spec_dec(b).drop_last() =~= spec_dec(b / 10));
            }
        }
    }
}

/// Equal sequences with the same prefix have equal remainders.
pub proof fn lemma_concat_cancel_prefix(p: Seq<char>, s1: Seq<char>, s2: Seq<char>)
    requires
        p + s1 == p + s2,
    ensures
        s1 == s2,
{
    assert((p + s1).skip(p.len() as int) =~= s1);
    assert((p + s2).skip(p.len() as int) =~= s2);
}

/// Renders `n` in decimal.
pub fn usize_to_string(n: usize) -> (r: String)
    ensures
        r@ == spec_dec(n as nat),
    decreases n,
{
    if n < 10 {
        String::from_str(digit_str(n))
    } else {
        let mut s = usize_to_string(n / 10);
        s.append(digit_str(n % 10));
        proof {
            assert(s@ =~= spec_dec((n / 10) as nat).push(spec_digit((n % 10) as nat)));
        }
        s
    }
}

} // verus!
