//! Verified character-level string utilities: substring matching, leftmost
//! non-overlapping replacement, splitting, joining, and decimal conversions.
//! All contracts are stated over `Seq<char>` views.

use vstd::prelude::*;
use vstd::string::*;

verus! {

/// The pattern `pat` occurs in `s` at position `i`.
pub open spec fn match_at(s: Seq<char>, pat: Seq<char>, i: int) -> bool {
    0 <= i && i + pat.len() <= s.len() && s.subrange(i, i + pat.len() as int) == pat
}

/// The pattern `pat` occurs somewhere in `s`.
pub open spec fn contains_seq(s: Seq<char>, pat: Seq<char>) -> bool {
    exists|i: int| match_at(s, pat, i)
}

/// Whether `pat` occurs in `s` at position `i`.
pub fn is_match_at(s: &str, pat: &str, i: usize) -> (r: bool)
    ensures
        r == match_at(s@, pat@, i as int),
{
    let n = s.unicode_len();
    let m = pat.unicode_len();
    if i > n || m > n - i {
        return false;
    }
    let mut j: usize = 0;
    while j < m
        invariant
            0 <= j <= m,
            i + m <= n,
            n == s@.len(),
            m == pat@.len(),
            forall|k: int| 0 <= k < j ==> s@[i + k] == pat@[k],
        decreases m - j,
    {
        if s.get_char(i + j) != pat.get_char(j) {
            assert(s@[i + j] != pat@[j as int]);
            assert(!match_at(s@, pat@, i as int)) by {
                if match_at(s@, pat@, i as int) {
                    assert(s@.subrange(i as int, i + m)[j as int] == pat@[j as int]);
                }
            }
            return false;
        }
        j = j + 1;
    }
    assert(s@.subrange(i as int, i + m) =~= pat@);
    true
}

/// Whether `pat` occurs anywhere in `s`.
pub fn contains_sub(s: &str, pat: &str) -> (r: bool)
    ensures
        r == contains_seq(s@, pat@),
{
    let n = s.unicode_len();
    let mut i: usize = 0;
    loop
        invariant
            0 <= i <= n,
            n == s@.len(),
            forall|k: int| 0 <= k < i ==> !match_at(s@, pat@, k),
        decreases n - i,
    {
        if is_match_at(s, pat, i) {
            return true;
        }
        if i >= n {
            assert forall|k: int| !match_at(s@, pat@, k) by {
                if match_at(s@, pat@, k) {
                    assert(0 <= k <= n);
                }
            }
            return false;
        }
        i = i + 1;
    }
}

/// Leftmost, non-overlapping replacement of `pat` by `rep`, scanning from the
/// front: at each position, if `pat` starts there it is replaced and the scan
/// resumes after it, else one character is kept.
pub open spec fn spec_replace(s: Seq<char>, pat: Seq<char>, rep: Seq<char>) -> Seq<char>
    decreases s.len(),
{
    if pat.len() == 0 || s.len() == 0 {
        s
    } else if match_at(s, pat, 0) {
        rep + spec_replace(s.skip(pat.len() as int), pat, rep)
    } else {
        seq![s[0]] + spec_replace(s.skip(1), pat, rep)
    }
}

pub proof fn lemma_skip_skip(s: Seq<char>, a: int, b: int)
    requires
        0 <= a,
        0 <= b,
        a + b <= s.len(),
    ensures
        s.skip(a).skip(b) =~= s.skip(a + b),
{
}

/// Replaces every leftmost, non-overlapping occurrence of `pat` in `s` by `rep`.
pub fn replace_all(s: &str, pat: &str, rep: &str) -> (r: String)
    requires
        pat@.len() > 0,
    ensures
        r@ == spec_replace(s@, pat@, rep@),
{
    let n = s.unicode_len();
    let m = pat.unicode_len();
    let mut out = String::new();
    let mut i: usize = 0;
    proof {
        assert(s@.skip(0) =~= s@);
        assert(Seq::<char>::empty() + spec_replace(s@, pat@, rep@) =~= spec_replace(
            s@,
            pat@,
            rep@,
        ));
    }
    while i < n
        invariant
            0 <= i <= n,
            n == s@.len(),
            m == pat@.len(),
            m > 0,
            out@ + spec_replace(s@.skip(i as int), pat@, rep@) == spec_replace(s@, pat@, rep@),
        decreases n - i,
    {
        let ghost t = s@.skip(i as int);
        if is_match_at(s, pat, i) {
            out.append(rep);
            proof {
                assert(t.subrange(0, m as int) =~= s@.subrange(i as int, i + m));
                assert(match_at(t, pat@, 0));
                lemma_skip_skip(s@, i as int, m as int);
                assert(spec_replace(t, pat@, rep@) == rep@ + spec_replace(
                    s@.skip(i + m),
                    pat@,
                    rep@,
                ));
            }
            i = i + m;
        } else {
            let piece = s.substring_char(i, i + 1);
            out.append(piece);
            proof {
                assert(!match_at(t, pat@, 0)) by {
                    if match_at(t, pat@, 0) {
                        assert(s@.subrange(i as int, i + m) =~= t.subrange(0, m as int));
                    }
                }
                assert(t[0] == s@[i as int]);
                assert(piece@ =~= seq![t[0]]);
                lemma_skip_skip(s@, i as int, 1);
                assert(spec_replace(t, pat@, rep@) == seq![t[0]] + spec_replace(
                    s@.skip(i + 1),
                    pat@,
                    rep@,
                ));
            }
            i = i + 1;
        }
        assert(out@ + spec_replace(s@.skip(i as int), pat@, rep@) == spec_replace(
            s@,
            pat@,
            rep@,
        ));
    }
    assert(s@.skip(n as int) =~= Seq::<char>::empty());
    assert(out@ + Seq::<char>::empty() =~= out@);
    out
}

/// The pieces of `s` between occurrences of `sep`; an empty string yields one
/// empty piece, and `n` separators yield `n + 1` pieces.
pub open spec fn spec_split(s: Seq<char>, sep: char) -> Seq<Seq<char>>
    decreases s.len(),
{
    if s.len() == 0 {
        seq![s]
    } else if s[0] == sep {
        seq![Seq::<char>::empty()] + spec_split(s.skip(1), sep)
    } else {
        let rest = spec_split(s.skip(1), sep);
        seq![seq![s[0]] + rest[0]] + rest.skip(1)
    }
}

pub proof fn lemma_split_nonempty(s: Seq<char>, sep: char)
    ensures
        spec_split(s, sep).len() >= 1,
    decreases s.len(),
{
    if s.len() > 0 {
        lemma_split_nonempty(s.skip(1), sep);
    }
}

/// `seq![p + parts[0]] + parts.skip(1)`: the first piece extended on the left.
pub open spec fn prepend_first(p: Seq<char>, parts: Seq<Seq<char>>) -> Seq<Seq<char>> {
    seq![p + parts[0]] + parts.skip(1)
}

/// Splits `s` at every occurrence of `sep`.
pub fn split_char(s: &str, sep: char) -> (r: Vec<String>)
    ensures
        r.deep_view() == spec_split(s@, sep),
{
    let n = s.unicode_len();
    let mut parts: Vec<String> = Vec::new();
    let mut cur = String::new();
    let mut i: usize = 0;
    proof {
        assert(s@.skip(0) =~= s@);
        lemma_split_nonempty(s@, sep);
        assert(parts.deep_view() + prepend_first(cur@, spec_split(s@, sep)) =~= prepend_first(
            Seq::<char>::empty(),
            spec_split(s@, sep),
        ));
        assert(prepend_first(Seq::<char>::empty(), spec_split(s@, sep)) =~= spec_split(s@, sep)) by {
            assert(Seq::<char>::empty() + spec_split(s@, sep)[0] =~= spec_split(s@, sep)[0]);
        }
    }
    while i < n
        invariant
            0 <= i <= n,
            n == s@.len(),
            spec_split(s@.skip(i as int), sep).len() >= 1,
            parts.deep_view() + prepend_first(cur@, spec_split(s@.skip(i as int), sep))
                == spec_split(s@, sep),
        decreases n - i,
    {
        let ghost t = s@.skip(i as int);
        let ghost old_dv = parts.deep_view();
        let ghost cur0 = cur@;
        let c = s.get_char(i);
        assert(c == t[0]);
        if c == sep {
            parts.push(cur);
            cur = String::new();
            proof {
                lemma_skip_skip(s@, i as int, 1);
                lemma_split_nonempty(s@.skip(i + 1), sep);
                let rest = spec_split(s@.skip(i + 1), sep);
                assert(spec_split(t, sep) == seq![Seq::<char>::empty()] + rest);
                assert(parts.deep_view() =~= old_dv + seq![cur0]);
                assert(prepend_first(cur0, seq![Seq::<char>::empty()] + rest) =~= seq![cur0]
                    + rest) by {
                    assert((seq![Seq::<char>::empty()] + rest)[0] =~= Seq::<char>::empty());
                    assert(cur0 + Seq::<char>::empty() =~= cur0);
                    assert((seq![Seq::<char>::empty()] + rest).skip(1) =~= rest);
                }
                assert(prepend_first(cur@, rest) =~= rest) by {
                    assert(cur@ + rest[0] =~= rest[0]);
                }
                assert(parts.deep_view() + prepend_first(cur@, rest) =~= old_dv + prepend_first(
                    cur0,
                    spec_split(t, sep),
                ));
            }
        } else {
            let piece = s.substring_char(i, i + 1);
            cur.append(piece);
            proof {
                lemma_skip_skip(s@, i as int, 1);
                lemma_split_nonempty(s@.skip(i + 1), sep);
                let rest = spec_split(s@.skip(i + 1), sep);
                assert(spec_split(t, sep) == seq![seq![t[0]] + rest[0]] + rest.skip(1));
                assert(piece@ =~= seq![t[0]]);
                assert(cur@ =~= cur0 + seq![t[0]]);
                assert(prepend_first(cur0, spec_split(t, sep)) =~= prepend_first(cur@, rest)) by {
                    assert((seq![seq![t[0]] + rest[0]] + rest.skip(1)).skip(1) =~= rest.skip(1));
                    assert(cur0 + (seq![t[0]] + rest[0]) =~= (cur0 + seq![t[0]]) + rest[0]);
                }
            }
        }
        i = i + 1;
        proof {
            let rest = spec_split(s@.skip(i as int), sep);
            assert(parts.deep_view() + prepend_first(cur@, rest) =~= spec_split(s@, sep));
        }
    }
    let ghost old_dv = parts.deep_view();
    let ghost cur0 = cur@;
    parts.push(cur);
    proof {
        assert(s@.skip(n as int) =~= Seq::<char>::empty());
        let rest = spec_split(s@.skip(n as int), sep);
        assert(rest =~= seq![Seq::<char>::empty()]);
        assert(parts.deep_view() =~= old_dv + seq![cur0]);
        assert(prepend_first(cur0, rest) =~= seq![cur0]) by {
            assert(cur0 + rest[0] =~= cur0);
            assert(rest.skip(1) =~= Seq::<Seq<char>>::empty());
        }
        assert(parts.deep_view() =~= spec_split(s@, sep));
    }
    parts
}

pub proof fn lemma_split_part_le(s: Seq<char>, sep: char)
    ensures
        forall|i: int|
            0 <= i < spec_split(s, sep).len() ==> (#[trigger] spec_split(s, sep)[i]).len()
                <= s.len(),
    decreases s.len(),
{
    if s.len() > 0 {
        lemma_split_part_le(s.skip(1), sep);
        let rest = spec_split(s.skip(1), sep);
        lemma_split_nonempty(s.skip(1), sep);
        if s[0] == sep {
            assert(forall|i: int|
                1 <= i < spec_split(s, sep).len() ==> spec_split(s, sep)[i] == rest[i - 1]);
        } else {
            assert(spec_split(s, sep)[0] == seq![s[0]] + rest[0]);
            assert(forall|i: int|
                1 <= i < spec_split(s, sep).len() ==> spec_split(s, sep)[i] == rest.skip(1)[i
                    - 1]);
        }
    }
}

pub proof fn lemma_split_count(s: Seq<char>, sep: char)
    ensures
        s.contains(sep) <==> spec_split(s, sep).len() >= 2,
    decreases s.len(),
{
    lemma_split_nonempty(s, sep);
    if s.len() > 0 {
        lemma_split_count(s.skip(1), sep);
        lemma_split_nonempty(s.skip(1), sep);
        if s.contains(sep) {
            let w = choose|i: int| 0 <= i < s.len() && s[i] == sep;
            if s[0] != sep {
                assert(s.skip(1)[w - 1] == sep);
                assert(s.skip(1).contains(sep));
            }
        }
        if s[0] != sep && s.skip(1).contains(sep) {
            let w = choose|i: int| 0 <= i < s.skip(1).len() && s.skip(1)[i] == sep;
            assert(s[w + 1] == sep);
        }
    }
}

/// When a separator occurs, every piece is strictly shorter than the whole.
pub proof fn lemma_split_part_lt(s: Seq<char>, sep: char)
    requires
        spec_split(s, sep).len() >= 2,
    ensures
        forall|i: int|
            0 <= i < spec_split(s, sep).len() ==> (#[trigger] spec_split(s, sep)[i]).len()
                < s.len(),
    decreases s.len(),
{
    lemma_split_count(s, sep);
    assert(s.contains(sep));
    assert(s.len() > 0);
    let rest = spec_split(s.skip(1), sep);
    lemma_split_nonempty(s.skip(1), sep);
    lemma_split_part_le(s.skip(1), sep);
    if s[0] == sep {
        assert(spec_split(s, sep)[0].len() == 0);
        assert(forall|i: int|
            1 <= i < spec_split(s, sep).len() ==> spec_split(s, sep)[i] == rest[i - 1]);
    } else {
        lemma_split_count(s.skip(1), sep);
        let w = choose|i: int| 0 <= i < s.len() && s[i] == sep;
        assert(s.skip(1)[w - 1] == sep);
        assert(s.skip(1).contains(sep));
        assert(rest.len() >= 2);
        lemma_split_part_lt(s.skip(1), sep);
        assert(spec_split(s, sep)[0] == seq![s[0]] + rest[0]);
        assert(rest[0].len() < s.len() - 1);
        assert(forall|i: int|
            1 <= i < spec_split(s, sep).len() ==> spec_split(s, sep)[i] == rest.skip(1)[i - 1]);
    }
}

/// Whether the two strings hold the same characters.
pub fn str_eq(a: &str, b: &str) -> (r: bool)
    ensures
        r == (a@ == b@),
{
    let n = a.unicode_len();
    let m = b.unicode_len();
    if n != m {
        return false;
    }
    let mut i: usize = 0;
    while i < n
        invariant
            0 <= i <= n,
            n == a@.len(),
            n == b@.len(),
            forall|k: int| 0 <= k < i ==> a@[k] == b@[k],
        decreases n - i,
    {
        if a.get_char(i) != b.get_char(i) {
            return false;
        }
        i = i + 1;
    }
    assert(a@ =~= b@);
    true
}

/// An elementwise copy of a vector of strings.
pub fn dup_string_vec(v: &Vec<String>) -> (r: Vec<String>)
    ensures
        r.deep_view() == v.deep_view(),
        r@.len() == v@.len(),
{
    let mut out: Vec<String> = Vec::new();
    let mut i: usize = 0;
    while i < v.len()
        invariant
            0 <= i <= v@.len(),
            out@.len() == i,
            forall|k: int| 0 <= k < i ==> (#[trigger] out@[k])@ == v@[k]@,
        decreases v@.len() - i,
    {
        out.push(v[i].clone());
        i = i + 1;
    }
    proof {
        assert(out.deep_view() =~= v.deep_view());
    }
    out
}

/// Whether `c` occurs in `s`.
pub fn contains_char(s: &str, c: char) -> (r: bool)
    ensures
        r == s@.contains(c),
{
    let n = s.unicode_len();
    let mut i: usize = 0;
    while i < n
        invariant
            0 <= i <= n,
            n == s@.len(),
            forall|k: int| 0 <= k < i ==> s@[k] != c,
        decreases n - i,
    {
        if s.get_char(i) == c {
            assert(s@.contains(c));
            return true;
        }
        i = i + 1;
    }
    assert(!s@.contains(c));
    false
}

/// The pieces joined with a single space between consecutive pieces.
pub open spec fn spec_join_spaces(parts: Seq<Seq<char>>) -> Seq<char>
    decreases parts.len(),
{
    if parts.len() == 0 {
        Seq::<char>::empty()
    } else if parts.len() == 1 {
        parts[0]
    } else {
        spec_join_spaces(parts.drop_last()) + seq![' '] + parts.last()
    }
}

/// Joins the strings with a single space between consecutive elements.
pub fn join_spaces(parts: &Vec<String>) -> (r: String)
    ensures
        r@ == spec_join_spaces(parts.deep_view()),
{
    let mut out = String::new();
    let mut i: usize = 0;
    let ghost dv = parts.deep_view();
    while i < parts.len()
        invariant
            0 <= i <= parts@.len(),
            dv == parts.deep_view(),
            dv.len() == parts@.len(),
            out@ == spec_join_spaces(dv.take(i as int)),
        decreases parts@.len() - i,
    {
        if i > 0 {
            out.append(" ");
            proof {
                reveal_strlit(" ");
            }
        }
        out.append(parts[i].as_str());
        proof {
            let pre = dv.take(i + 1);
            assert(pre.drop_last() =~= dv.take(i as int));
            assert(pre.last() == dv[i as int]);
            if i == 0 {
                assert(spec_join_spaces(pre) == pre[0]);
                assert(out@ =~= pre[0]);
            } else {
                assert(spec_join_spaces(pre) == spec_join_spaces(dv.take(i as int)) + seq![' ']
                    + dv[i as int]);
            }
        }
        i = i + 1;
    }
    proof {
        assert(dv.take(parts@.len() as int) =~= dv);
    }
    out
}

/// Whether `c` is a decimal digit.
pub open spec fn is_digit(c: char) -> bool {
    '0' <= c && c <= '9'
}

/// The numeric value of a digit character.
pub open spec fn digit_val(c: char) -> int {
    c as int - '0' as int
}

/// Every character of `s` is a decimal digit.
pub open spec fn all_digits(s: Seq<char>) -> bool {
    forall|i: int| 0 <= i < s.len() ==> is_digit(#[trigger] s[i])
}

/// The value of `s` read as a decimal numeral.
pub open spec fn spec_num_val(s: Seq<char>) -> int
    decreases s.len(),
{
    if s.len() == 0 {
        0
    } else {
        spec_num_val(s.drop_last()) * 10 + digit_val(s.last())
    }
}

pub proof fn lemma_num_val_nonneg(s: Seq<char>)
    requires
        all_digits(s),
    ensures
        spec_num_val(s) >= 0,
    decreases s.len(),
{
    if s.len() > 0 {
        assert(all_digits(s.drop_last())) by {
            assert(forall|i: int| 0 <= i < s.len() - 1 ==> s.drop_last()[i] == s[i]);
        }
        lemma_num_val_nonneg(s.drop_last());
    }
}

pub proof fn lemma_num_val_prefix_le(s: Seq<char>, i: int)
    requires
        all_digits(s),
        0 <= i <= s.len(),
    ensures
        spec_num_val(s.take(i)) <= spec_num_val(s),
    decreases s.len() - i,
{
    if i < s.len() {
        lemma_num_val_prefix_le(s, i + 1);
        let p = s.take(i + 1);
        assert(p.drop_last() =~= s.take(i));
        assert(all_digits(s.take(i))) by {
            assert(forall|k: int| 0 <= k < i ==> s.take(i)[k] == s[k]);
        }
        lemma_num_val_nonneg(s.take(i));
        assert(spec_num_val(p) == spec_num_val(s.take(i)) * 10 + digit_val(p.last()));
        assert(digit_val(p.last()) >= 0);
    } else {
        assert(s.take(i) =~= s);
    }
}

/// Reads the decimal numeral `s[from..]` as a number of at most `limit`.
/// Returns `None` when the range is empty, holds a non-digit, or exceeds
/// `limit`.
pub fn parse_digits_u32(s: &str, from: usize, limit: u32) -> (r: Option<u32>)
    ensures
        r is Some <==> from < s@.len() && all_digits(s@.skip(from as int)) && spec_num_val(
            s@.skip(from as int),
        ) <= limit,
        r is Some ==> r->Some_0 as int == spec_num_val(s@.skip(from as int)),
{
    let n = s.unicode_len();
    if from >= n {
        return None;
    }
    let ghost t = s@.skip(from as int);
    let mut acc: u32 = 0;
    let mut i: usize = from;
    while i < n
        invariant
            from <= i <= n,
            n == s@.len(),
            from < n,
            t == s@.skip(from as int),
            acc <= limit,
            all_digits(t.take(i - from)),
            acc as int == spec_num_val(t.take(i - from)),
        decreases n - i,
    {
        let c = s.get_char(i);
        assert(c == t[i - from]);
        if c < '0' || c > '9' {
            assert(!all_digits(t)) by {
                assert(!is_digit(t[i - from]));
            }
            return None;
        }
        let d: u32 = (c as u32) - 48;
        assert(d as int == digit_val(t[i - from]));
        if acc > limit / 10 {
            proof {
                let p = t.take(i - from + 1);
                assert(p.drop_last() =~= t.take(i - from));
                assert(p.last() == t[i - from]);
                assert(spec_num_val(p) == acc * 10 + d);
                assert(limit as int == 10 * (limit as int / 10) + (limit as int % 10));
                assert(acc as int * 10 > limit as int);
                if all_digits(t) {
                    lemma_num_val_prefix_le(t, i - from + 1);
                }
            }
            return None;
        }
        assert(acc * 10 <= limit) by {
            assert(limit as int == 10 * (limit as int / 10) + (limit as int % 10));
        }
        let next: u32 = acc * 10;
        if d > limit - next {
            proof {
                let p = t.take(i - from + 1);
                assert(p.drop_last() =~= t.take(i - from));
                assert(p.last() == t[i - from]);
                assert(spec_num_val(p) == acc * 10 + d);
                assert(spec_num_val(p) > limit);
                if all_digits(t) {
                    lemma_num_val_prefix_le(t, i - from + 1);
                }
            }
            return None;
        }
        proof {
            let p = t.take(i - from + 1);
            assert(p.drop_last() =~= t.take(i - from));
            assert(p.last() == t[i - from]);
            assert(all_digits(p)) by {
                assert(forall|k: int| 0 <= k < p.len() - 1 ==> p[k] == t.take(i - from)[k]);
            }
        }
        acc = next + d;
        i = i + 1;
    }
    proof {
        assert(t.take(n - from) =~= t);
    }
    Some(acc)
}

/// Whether `s` is a decimal numeral, optionally preceded by `-`, whose value
/// fits an `i32`.
pub open spec fn is_i32_numeral(s: Seq<char>) -> bool {
    if s.len() > 0 && s[0] == '-' {
        s.len() > 1 && all_digits(s.skip(1)) && spec_num_val(s.skip(1)) <= 0x8000_0000
    } else {
        s.len() > 0 && all_digits(s) && spec_num_val(s) <= 0x7fff_ffff
    }
}

/// The value of an `i32` numeral.
pub open spec fn spec_i32_val(s: Seq<char>) -> int {
    if s.len() > 0 && s[0] == '-' {
        -spec_num_val(s.skip(1))
    } else {
        spec_num_val(s)
    }
}

/// Parses `s` as a decimal `i32`, with an optional leading `-`.
pub fn parse_i32(s: &str) -> (r: Option<i32>)
    ensures
        r is Some <==> is_i32_numeral(s@),
        r is Some ==> r->Some_0 as int == spec_i32_val(s@),
{
    let n = s.unicode_len();
    if n > 0 && s.get_char(0) == '-' {
        match parse_digits_u32(s, 1, 0x8000_0000) {
            Some(v) => {
                let r: i32 = if v == 0x8000_0000 {
                    i32::MIN
                } else {
                    -((v) as i32)
                };
                Some(r)
            },
            None => None,
        }
    } else {
        match parse_digits_u32(s, 0, 0x7fff_ffff) {
            Some(v) => {
                proof {
                    assert(s@.skip(0) =~= s@);
                }
                Some(v as i32)
            },
            None => {
                proof {
                    assert(s@.skip(0) =~= s@);
                }
                None
            },
        }
    }
}

/// Parses `s` as a decimal `u16` (digits only).
pub fn parse_u16(s: &str) -> (r: Option<u16>)
    ensures
        r is Some <==> s@.len() > 0 && all_digits(s@) && spec_num_val(s@) <= 0xffff,
        r is Some ==> r->Some_0 as int == spec_num_val(s@),
{
    proof {
        assert(s@.skip(0) =~= s@);
    }
    match parse_digits_u32(s, 0, 0xffff) {
        Some(v) => Some(v as u16),
        None => None,
    }
}

/// The character for the digit `d`.
pub open spec fn spec_digit_char(d: int) -> char {
    if d == 0 {
        '0'
    } else if d == 1 {
        '1'
    } else if d == 2 {
        '2'
    } else if d == 3 {
        '3'
    } else if d == 4 {
        '4'
    } else if d == 5 {
        '5'
    } else if d == 6 {
        '6'
    } else if d == 7 {
        '7'
    } else if d == 8 {
        '8'
    } else {
        '9'
    }
}

/// The decimal numeral of `n`, most significant digit first.
pub open spec fn spec_u64_digits(n: nat) -> Seq<char>
    decreases n,
{
    if n < 10 {
        seq![spec_digit_char(n as int)]
    } else {
        spec_u64_digits(n / 10) + seq![spec_digit_char((n % 10) as int)]
    }
}

fn digit_str(d: u64) -> (r: &'static str)
    requires
        d < 10,
    ensures
        r@ == seq![spec_digit_char(d as int)],
{
    proof {
        reveal_strlit("0");
        reveal_strlit("1");
        reveal_strlit("2");
        reveal_strlit("3");
        reveal_strlit("4");
        reveal_strlit("5");
        reveal_strlit("6");
        reveal_strlit("7");
        reveal_strlit("8");
        reveal_strlit("9");
    }
    let r = match d {
        0 => "0",
        1 => "1",
        2 => "2",
        3 => "3",
        4 => "4",
        5 => "5",
        6 => "6",
        7 => "7",
        8 => "8",
        _ => "9",
    };
    proof {
        assert(r@ =~= seq![spec_digit_char(d as int)]);
    }
    r
}

/// Renders `n` as its decimal numeral.
pub fn u64_to_string(n: u64) -> (r: String)
    ensures
        r@ == spec_u64_digits(n as nat),
    decreases n,
{
    if n < 10 {
        let mut out = String::new();
        out.append(digit_str(n));
        proof {
            assert(out@ =~= spec_u64_digits(n as nat));
        }
        out
    } else {
        let mut out = u64_to_string(n / 10);
        out.append(digit_str(n % 10));
        proof {
            assert(out@ =~= spec_u64_digits(n as nat));
        }
        out
    }
}

} // verus!
