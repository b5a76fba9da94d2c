//! Character-level helpers shared by the parsers.

use vstd::prelude::*;

verus! {

/// The characters of `s`, in order.
pub fn chars_of(s: &str) -> (r: Vec<char>)
    ensures
        r@ == s@,
{
    let mut r: Vec<char> = Vec::new();
    for c in it: s.chars()
        invariant
            r@ == it.seq().take(it.index() as int),
    {
        r.push(c);
    }
    r
}

} // verus!

verus! {

/// Relies on `String::push`: the character is appended at the end.
#[verifier::external_body]
pub(crate) fn push_char(s: &mut String, c: char)
    ensures
        final(s)@ == old(s)@.push(c),
{
    s.push(c)
}

/// The string made of the characters of `v`, in order.
pub fn string_of(v: &Vec<char>) -> (r: String)
    ensures
        r@ == v@,
{
    let mut r = String::new();
    let mut i: usize = 0;
    while i < v.len()
        invariant
            i <= v.len(),
            r@ == v@.take(i as int),
        decreases v.len() - i,
    {
        push_char(&mut r, v[i]);
        i = i + 1;
        assert(r@ == v@.take(i as int));
    }
    assert(v@.take(v.len() as int) == v@);
    r
}

/// The characters of `s` from index `lo` up to, not including, `hi`.
pub fn substring(s: &Vec<char>, lo: usize, hi: usize) -> (r: String)
    requires
        lo <= hi <= s.len(),
    ensures
        r@ == s@.subrange(lo as int, hi as int),
{
    let mut r = String::new();
    let mut i: usize = lo;
    while i < hi
        invariant
            lo <= i <= hi <= s.len(),
            r@ == s@.subrange(lo as int, i as int),
        decreases hi - i,
    {
        push_char(&mut r, s[i]);
        i = i + 1;
        assert(r@ == s@.subrange(lo as int, i as int));
    }
    r
}

/// White space as Unicode's `White_Space` property defines it.
pub open spec fn is_white(c: char) -> bool {
    ('\t' <= c && c <= '\r') || c == ' ' || c == '\u{85}' || c == '\u{a0}' || c == '\u{1680}'
        || ('\u{2000}' <= c && c <= '\u{200a}') || c == '\u{2028}' || c == '\u{2029}'
        || c == '\u{202f}' || c == '\u{205f}' || c == '\u{3000}'
}

/// Whether `c` is white space.
pub fn white(c: char) -> (r: bool)
    ensures
        r == is_white(c),
{
    ('\t' <= c && c <= '\r') || c == ' ' || c == '\u{85}' || c == '\u{a0}' || c == '\u{1680}'
        || ('\u{2000}' <= c && c <= '\u{200a}') || c == '\u{2028}' || c == '\u{2029}'
        || c == '\u{202f}' || c == '\u{205f}' || c == '\u{3000}'
}

/// Number of leading white-space characters of `s`.
pub open spec fn leading_white(s: Seq<char>) -> nat
    decreases s.len(),
{
    if s.len() > 0 && is_white(s[0]) {
        1 + leading_white(s.drop_first())
    } else {
        0
    }
}

/// Number of trailing white-space characters of `s`.
pub open spec fn trailing_white(s: Seq<char>) -> nat
    decreases s.len(),
{
    if s.len() > 0 && is_white(s.last()) {
        1 + trailing_white(s.drop_last())
    } else {
        0
    }
}

/// `s` without its leading white space.
pub open spec fn trim_start_of(s: Seq<char>) -> Seq<char> {
    s.skip(leading_white(s) as int)
}

/// `s` without leading or trailing white space.
pub open spec fn trim_of(s: Seq<char>) -> Seq<char> {
    let t = trim_start_of(s);
    t.take(t.len() - trailing_white(t))
}

pub proof fn lemma_trailing_white_bound(s: Seq<char>)
    ensures
        trailing_white(s) <= s.len(),
        forall|k: int| s.len() - trailing_white(s) <= k < s.len() ==> is_white(#[trigger] s[k]),
        trailing_white(s) < s.len() ==> !is_white(s[s.len() - trailing_white(s) - 1]),
    decreases s.len(),
{
    if s.len() > 0 && is_white(s.last()) {
        lemma_trailing_white_bound(s.drop_last());
        assert forall|k: int| s.len() - trailing_white(s) <= k < s.len() implies is_white(
            #[trigger] s[k],
        ) by {
            if k < s.len() - 1 {
                assert(s[k] == s.drop_last()[k]);
            }
        }
    }
}

pub proof fn lemma_leading_white_exact(s: Seq<char>, n: int)
    requires
        0 <= n <= s.len(),
        forall|k: int| 0 <= k < n ==> is_white(#[trigger] s[k]),
        n < s.len() ==> !is_white(s[n]),
    ensures
        leading_white(s) == n,
    decreases s.len(),
{
    if n > 0 {
        let t = s.drop_first();
        assert forall|k: int| 0 <= k < n - 1 implies is_white(#[trigger] t[k]) by {
            assert(t[k] == s[k + 1]);
        }
        if n - 1 < t.len() {
            assert(t[n - 1] == s[n]);
        }
        lemma_leading_white_exact(t, n - 1);
    }
}

proof fn lemma_trailing_white_exact(s: Seq<char>, n: int)
    requires
        0 <= n <= s.len(),
        forall|k: int| s.len() - n <= k < s.len() ==> is_white(#[trigger] s[k]),
        n < s.len() ==> !is_white(s[s.len() - n - 1]),
    ensures
        trailing_white(s) == n,
    decreases s.len(),
{
    if n > 0 {
        let t = s.drop_last();
        assert forall|k: int| t.len() - (n - 1) <= k < t.len() implies is_white(#[trigger] t[k]) by {
            assert(t[k] == s[k]);
        }
        if n - 1 < t.len() {
            assert(t[t.len() - (n - 1) - 1] == s[s.len() - n - 1]);
        }
        lemma_trailing_white_exact(t, n - 1);
    }
}

/// Index of the first character of `s` at or after `from` that is not white space
/// (or `hi` if there is none before `hi`).
fn skip_white(s: &Vec<char>, from: usize, hi: usize) -> (r: usize)
    requires
        from <= hi <= s.len(),
    ensures
        from <= r <= hi,
        forall|k: int| from <= k < r ==> is_white(#[trigger] s@[k]),
        r < hi ==> !is_white(s@[r as int]),
{
    let mut i = from;
    while i < hi && white(s[i])
        invariant
            from <= i <= hi <= s.len(),
            forall|k: int| from <= k < i ==> is_white(#[trigger] s@[k]),
        decreases hi - i,
    {
        i = i + 1;
    }
    i
}

/// `s` with leading and trailing white space removed.
pub fn trim(s: &str) -> (r: String)
    ensures
        r@ == trim_of(s@),
{
    let v = chars_of(s);
    let lo = skip_white(&v, 0, v.len());
    let mut hi = v.len();
    while hi > lo && white(v[hi - 1])
        invariant
            lo <= hi <= v.len(),
            forall|k: int| hi <= k < v.len() ==> is_white(#[trigger] v@[k]),
        decreases hi,
    {
        hi = hi - 1;
    }
    proof {
        let sv = s@;
        lemma_leading_white_exact(sv, lo as int);
        let t = trim_start_of(sv);
        assert forall|k: int| t.len() - (v.len() - hi) <= k < t.len() implies is_white(
            #[trigger] t[k],
        ) by {
            assert(t[k] == sv[k + lo]);
        }
        if hi > lo {
            assert(t[t.len() - (v.len() - hi) - 1] == sv[hi - 1]);
        }
        lemma_trailing_white_exact(t, (v.len() - hi) as int);
        assert(t.take(t.len() - trailing_white(t)) == sv.subrange(lo as int, hi as int));
    }
    substring(&v, lo, hi)
}

} // verus!

verus! {

pub open spec fn is_digit(c: char) -> bool {
    '0' <= c && c <= '9'
}

/// The value of a run of decimal digits.
pub open spec fn digits_value(s: Seq<char>) -> int
    decreases s.len(),
{
    if s.len() == 0 {
        0
    } else {
        digits_value(s.drop_last()) * 10 + (s.last() as int - '0' as int)
    }
}

/// The text that `str::parse::<u32>` reads: a number with an optional `+` sign.
pub open spec fn unsigned_body(s: Seq<char>) -> Seq<char> {
    if s.len() > 0 && s[0] == '+' {
        s.drop_first()
    } else {
        s
    }
}

/// The `u32` that `s` spells in decimal, if it spells one.
pub open spec fn parse_u32_of(s: Seq<char>) -> Option<u32> {
    let d = unsigned_body(s);
    if d.len() > 0 && (forall|i: int| 0 <= i < d.len() ==> is_digit(#[trigger] d[i]))
        && digits_value(d) <= u32::MAX {
        Some(digits_value(d) as u32)
    } else {
        None
    }
}

proof fn lemma_digits_value_grows(d: Seq<char>, i: int)
    requires
        0 <= i <= d.len(),
        forall|k: int| 0 <= k < d.len() ==> is_digit(#[trigger] d[k]),
    ensures
        0 <= digits_value(d.take(i)) <= digits_value(d),
    decreases d.len(),
{
    if d.len() > 0 {
        let p = d.drop_last();
        assert forall|k: int| 0 <= k < p.len() implies is_digit(#[trigger] p[k]) by {
            assert(p[k] == d[k]);
        }
        if i == d.len() {
            assert(d.take(i) == d);
            lemma_digits_value_grows(p, 0);
        } else {
            assert(d.take(i) == p.take(i));
            lemma_digits_value_grows(p, i);
        }
    } else {
        assert(d.take(i) == d);
    }
}

/// Reads an unsigned decimal number, as `str::parse::<u32>` does.
pub fn parse_u32(s: &Vec<char>, lo: usize, hi: usize) -> (r: Option<u32>)
    requires
        lo <= hi <= s.len(),
    ensures
        r == parse_u32_of(s@.subrange(lo as int, hi as int)),
{
    let ghost t = s@.subrange(lo as int, hi as int);
    let mut start = lo;
    if lo < hi && s[lo] == '+' {
        start = lo + 1;
    }
    let ghost d = s@.subrange(start as int, hi as int);
    assert(d == unsigned_body(t));
    if start == hi {
        return None;
    }
    let mut val: u64 = 0;
    let mut i = start;
    while i < hi
        invariant
            start <= i <= hi <= s.len(),
            d == s@.subrange(start as int, hi as int),
            t == s@.subrange(lo as int, hi as int),
            d == unsigned_body(t),
            forall|k: int| 0 <= k < i - start ==> is_digit(#[trigger] d[k]),
            val == digits_value(d.take(i - start)),
            val <= u32::MAX,
        decreases hi - i,
    {
        let c = s[i];
        if !('0' <= c && c <= '9') {
            assert(!is_digit(d[i - start]));
            return None;
        }
        proof {
            let p = d.take(i + 1 - start);
            assert(p.drop_last() == d.take(i - start));
        }
        val = val * 10 + (c as u64 - '0' as u64);
        if val > 0xffff_ffff {
            proof {
                if forall|k: int| 0 <= k < d.len() ==> is_digit(#[trigger] d[k]) {
                    lemma_digits_value_grows(d, i + 1 - start);
                }
            }
            return None;
        }
        i = i + 1;
    }
    assert(d.take(hi - start) == d);
    Some(val as u32)
}

/// The decimal digits of a natural number.
pub open spec fn nat_digits(n: nat) -> Seq<char>
    decreases n,
{
    if n < 10 {
        seq![(('0' as nat) + n) as char]
    } else {
        nat_digits(n / 10).push((('0' as nat) + n % 10) as char)
    }
}

/// An integer in decimal, with a `-` before a negative one, as `Display` writes it.
pub open spec fn decimal_of(n: int) -> Seq<char> {
    if n < 0 {
        seq!['-'] + nat_digits((-n) as nat)
    } else {
        nat_digits(n as nat)
    }
}

/// Appends the decimal digits of `n` to `out`.
pub fn push_nat_digits(out: &mut String, n: u64)
    ensures
        final(out)@ == old(out)@ + nat_digits(n as nat),
    decreases n,
{
    if n >= 10 {
        push_nat_digits(out, n / 10);
    }
    let d = (n % 10) as u32;
    let c = char_from_digit(d);
    push_char(out, c);
    proof {
        if n >= 10 {
            assert(old(out)@ + nat_digits(n as nat) == old(out)@ + nat_digits((n / 10) as nat)
                + seq![c]);
        }
    }
}

fn char_from_digit(d: u32) -> (c: char)
    requires
        d < 10,
    ensures
        c == (('0' as nat) + d) as char,
{
    if d == 0 { '0' }
    else if d == 1 { '1' }
    else if d == 2 { '2' }
    else if d == 3 { '3' }
    else if d == 4 { '4' }
    else if d == 5 { '5' }
    else if d == 6 { '6' }
    else if d == 7 { '7' }
    else if d == 8 { '8' }
    else { '9' }
}

/// Appends `n` in decimal to `out`.
pub fn push_decimal(out: &mut String, n: i64)
    ensures
        final(out)@ == old(out)@ + decimal_of(n as int),
{
    if n < 0 {
        push_char(out, '-');
        let m: u64 = if n == i64::MIN { 0x8000_0000_0000_0000u64 } else { (-n) as u64 };
        push_nat_digits(out, m);
        assert(final(out)@ == old(out)@ + decimal_of(n as int));
    } else {
        push_nat_digits(out, n as u64);
    }
}

} // verus!

verus! {

/// Number of leading characters of `s` that are not white space.
pub open spec fn leading_word(s: Seq<char>) -> nat
    decreases s.len(),
{
    if s.len() > 0 && !is_white(s[0]) {
        1 + leading_word(s.drop_first())
    } else {
        0
    }
}

/// The white-space separated words of `s`, in order, as `str::split_whitespace` gives them.
pub open spec fn words_of(s: Seq<char>) -> Seq<Seq<char>>
    decreases s.len(),
    via words_of_decreases
{
    if s.len() == 0 {
        seq![]
    } else if is_white(s[0]) {
        words_of(s.drop_first())
    } else {
        let w = leading_word(s);
        seq![s.take(w as int)] + words_of(s.skip(w as int))
    }
}

#[via_fn]
proof fn words_of_decreases(s: Seq<char>) {
    if s.len() > 0 && !is_white(s[0]) {
        lemma_leading_word_bound(s);
    }
}

proof fn lemma_leading_word_bound(s: Seq<char>)
    ensures
        leading_word(s) <= s.len(),
        s.len() > 0 && !is_white(s[0]) ==> leading_word(s) >= 1,
    decreases s.len(),
{
    if s.len() > 0 && !is_white(s[0]) {
        lemma_leading_word_bound(s.drop_first());
    }
}

pub open spec fn texts_of(v: Seq<String>) -> Seq<Seq<char>> {
    v.map_values(|x: String| x@)
}

proof fn lemma_leading_word_exact(s: Seq<char>, n: int)
    requires
        0 <= n <= s.len(),
        forall|k: int| 0 <= k < n ==> !is_white(#[trigger] s[k]),
        n < s.len() ==> is_white(s[n]),
    ensures
        leading_word(s) == n,
    decreases s.len(),
{
    if n > 0 {
        let t = s.drop_first();
        assert forall|k: int| 0 <= k < n - 1 implies !is_white(#[trigger] t[k]) by {
            assert(t[k] == s[k + 1]);
        }
        if n - 1 < t.len() {
            assert(t[n - 1] == s[n]);
        }
        lemma_leading_word_exact(t, n - 1);
    }
}

proof fn lemma_words_skip_white(s: Seq<char>, n: int)
    requires
        0 <= n <= s.len(),
        forall|k: int| 0 <= k < n ==> is_white(#[trigger] s[k]),
    ensures
        words_of(s) == words_of(s.skip(n)),
    decreases n,
{
    if n > 0 {
        assert(s.drop_first().skip(n - 1) == s.skip(n));
        assert forall|k: int| 0 <= k < n - 1 implies is_white(#[trigger] s.drop_first()[k]) by {
            assert(s.drop_first()[k] == s[k + 1]);
        }
        lemma_words_skip_white(s.drop_first(), n - 1);
    } else {
        assert(s.skip(0) == s);
    }
}

/// The white-space separated words of `s`, in order.
pub fn split_words(s: &str) -> (r: Vec<String>)
    ensures
        texts_of(r@) == words_of(s@),
{
    let v = chars_of(s);
    let n = v.len();
    let mut r: Vec<String> = Vec::new();
    let mut i: usize = 0;
    assert(v@.skip(0) == v@);
    assert(texts_of(r@) + words_of(v@) == words_of(v@));
    while i < n
        invariant
            i <= n == v.len(),
            v@ == s@,
            words_of(s@) == texts_of(r@) + words_of(v@.skip(i as int)),
        decreases n - i,
    {
        let start = skip_white(&v, i, n);
        proof {
            lemma_words_skip_white(v@.skip(i as int), start - i);
            assert(v@.skip(i as int).skip(start - i) == v@.skip(start as int));
        }
        if start == n {
            assert(v@.skip(n as int).len() == 0);
            assert(texts_of(r@) + words_of(v@.skip(n as int)) == texts_of(r@));
            i = n;
        } else {
            let mut j = start;
            while j < n && !white(v[j])
                invariant
                    start <= j <= n == v.len(),
                    forall|k: int| start <= k < j ==> !is_white(#[trigger] v@[k]),
                decreases n - j,
            {
                j = j + 1;
            }
            let ghost t = v@.skip(start as int);
            proof {
                assert forall|k: int| 0 <= k < j - start implies !is_white(#[trigger] t[k]) by {
                    assert(t[k] == v@[start + k]);
                }
                if j < n {
                    assert(t[j - start] == v@[j as int]);
                }
                lemma_leading_word_exact(t, j - start);
                assert(t.take(j - start) == v@.subrange(start as int, j as int));
                assert(t.skip(j - start) == v@.skip(j as int));
                assert(!is_white(t[0]));
                assert(words_of(t) == seq![t.take(j - start)] + words_of(t.skip(j - start)));
            }
            let w = substring(&v, start, j);
            let ghost before = r@;
            r.push(w);
            assert(texts_of(r@) == texts_of(before) + seq![w@]);
            i = j;
        }
    }
    assert(v@.skip(n as int).len() == 0);
    assert(texts_of(r@) + words_of(v@.skip(n as int)) == texts_of(r@));
    r
}

} // verus!

verus! {

/// `s` with each occurrence of `pat`, found from the left without overlaps,
/// replaced by `rep`, as `str::replace` does for a non-empty pattern.
pub open spec fn replaced(s: Seq<char>, pat: Seq<char>, rep: Seq<char>) -> Seq<char>
    recommends
        pat.len() > 0,
    decreases s.len(),
{
    if s.len() == 0 || pat.len() == 0 {
        s
    } else if s.len() >= pat.len() && s.take(pat.len() as int) == pat {
        rep + replaced(s.skip(pat.len() as int), pat, rep)
    } else {
        seq![s[0]] + replaced(s.drop_first(), pat, rep)
    }
}

fn matches_at(s: &Vec<char>, i: usize, pat: &Vec<char>) -> (r: bool)
    requires
        i <= s.len(),
    ensures
        r == (s@.len() - i >= pat@.len() && s@.skip(i as int).take(pat@.len() as int) == pat@),
{
    if s.len() - i < pat.len() {
        return false;
    }
    let mut k: usize = 0;
    while k < pat.len()
        invariant
            i + pat.len() <= s.len(),
            k <= pat.len(),
            forall|j: int| 0 <= j < k ==> s@[i + j] == pat@[j],
        decreases pat.len() - k,
    {
        if s[i + k] != pat[k] {
            assert(s@.skip(i as int).take(pat@.len() as int)[k as int] != pat@[k as int]);
            return false;
        }
        k = k + 1;
    }
    assert(s@.skip(i as int).take(pat@.len() as int) =~= pat@);
    true
}

/// `s` with each occurrence of `pat` replaced by `rep` (see [`replaced`]).
pub fn replace_text(s: &str, pat: &str, rep: &str) -> (r: String)
    requires
        pat@.len() > 0,
    ensures
        r@ == replaced(s@, pat@, rep@),
{
    let v = chars_of(s);
    let p = chars_of(pat);
    let mut out = String::new();
    let mut i: usize = 0;
    assert(v@.skip(0) == v@);
    while i < v.len()
        invariant
            i <= v.len(),
            v@ == s@,
            p@ == pat@,
            p@.len() > 0,
            replaced(s@, pat@, rep@) == out@ + replaced(v@.skip(i as int), pat@, rep@),
        decreases v.len() - i,
    {
        let ghost t = v@.skip(i as int);
        if matches_at(&v, i, &p) {
            out.append(rep);
            proof {
                assert(t.skip(p@.len() as int) == v@.skip(i + p@.len()));
            }
            i = i + p.len();
        } else {
            let ghost before = out@;
            push_char(&mut out, v[i]);
            proof {
                assert(t[0] == v@[i as int]);
                assert(t.drop_first() == v@.skip(i + 1));
                assert(before + (seq![v@[i as int]] + replaced(v@.skip(i + 1), pat@, rep@)) =~= out@
                    + replaced(v@.skip(i + 1), pat@, rep@));
            }
            i = i + 1;
        }
    }
    assert(v@.skip(v.len() as int) =~= Seq::<char>::empty());
    assert(out@ + Seq::<char>::empty() =~= out@);
    out
}

} // verus!
