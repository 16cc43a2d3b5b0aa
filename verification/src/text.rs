//! Character-level building blocks: conversion between strings and character
//! vectors, decimal numbers, and substitution of a placeholder in a template.

use vstd::prelude::*;

verus! {

// ---------------------------------------------------------------------------
// Decimal numbers
// ---------------------------------------------------------------------------

/// The ASCII digit that stands for `d` (for `d < 10`).
pub open spec fn digit_char(d: nat) -> char {
    ((48 + d) as u8) as char
}

/// `c` is one of the ASCII digits `0` to `9`.
pub open spec fn is_ascii_digit(c: char) -> bool {
    '0' <= c && c <= '9'
}

/// The value of an ASCII digit.
pub open spec fn digit_value(c: char) -> nat {
    (c as int - 48) as nat
}

/// Every character of `s` is an ASCII digit.
pub open spec fn all_ascii_digits(s: Seq<char>) -> bool {
    forall|i: int| 0 <= i < s.len() ==> is_ascii_digit(#[trigger] s[i])
}

/// The value of a string of decimal digits, the most significant first.
pub open spec fn decimal_value(s: Seq<char>) -> nat
    decreases s.len(),
{
    if s.len() == 0 {
        0
    } else {
        decimal_value(s.drop_last()) * 10 + digit_value(s.last())
    }
}

/// The shortest decimal notation of `n`: no leading zero, and `0` for zero.
pub open spec fn decimal_digits(n: nat) -> Seq<char>
    decreases n,
{
    if n < 10 {
        seq![digit_char(n)]
    } else {
        decimal_digits(n / 10).push(digit_char(n % 10))
    }
}

/// `n` in decimal, filled on the left with `0` up to `width` characters.
pub open spec fn zero_padded(n: nat, width: nat) -> Seq<char> {
    let d = decimal_digits(n);
    if d.len() < width {
        Seq::new((width - d.len()) as nat, |i: int| '0') + d
    } else {
        d
    }
}

/// `n` in decimal, zero-filled up to `width` characters, where a minus sign
/// counts toward the width and stands before the zeros.
pub open spec fn signed_zero_padded(n: int, width: nat) -> Seq<char> {
    if n < 0 {
        seq!['-'] + zero_padded((-n) as nat, if width > 0 { (width - 1) as nat } else { 0 })
    } else {
        zero_padded(n as nat, width)
    }
}

pub fn digit_to_char(d: u32) -> (c: char)
    requires
        d < 10,
    ensures
        c == digit_char(d as nat),
        is_ascii_digit(c),
        digit_value(c) == d,
{
    ((48 + d) as u8) as char
}

/// The value of `c` if it is an ASCII digit.
pub fn char_digit(c: char) -> (r: Option<u32>)
    ensures
        r is Some <==> is_ascii_digit(c),
        r matches Some(d) ==> d < 10 && d == digit_value(c),
{
    if '0' <= c && c <= '9' {
        let d: u32 = (c as u32) - 48;
        Some(d)
    } else {
        None
    }
}

pub proof fn lemma_digit_char(d: nat)
    requires
        d < 10,
    ensures
        is_ascii_digit(digit_char(d)),
        digit_value(digit_char(d)) == d,
{
}

pub proof fn lemma_decimal_digits_valid(n: nat)
    ensures
        decimal_digits(n).len() > 0,
        all_ascii_digits(decimal_digits(n)),
        decimal_value(decimal_digits(n)) == n,
    decreases n,
{
    if n < 10 {
        lemma_digit_char(n);
        let one = seq![digit_char(n)];
        assert(one.drop_last() =~= Seq::<char>::empty());
        assert(one.last() == digit_char(n));
        assert(decimal_value(Seq::<char>::empty()) == 0);
        assert(decimal_value(one) == digit_value(digit_char(n)));
        assert(decimal_digits(n) == one);
    } else {
        lemma_digit_char(n % 10);
        lemma_decimal_digits_valid(n / 10);
        let d = decimal_digits(n / 10);
        let e = d.push(digit_char(n % 10));
        assert(e.drop_last() =~= d);
        assert(all_ascii_digits(e)) by {
            assert forall|i: int| 0 <= i < e.len() implies is_ascii_digit(#[trigger] e[i]) by {
                if i < d.len() {
                    assert(e[i] == d[i]);
                }
            }
        }
        assert(decimal_value(e) == decimal_value(d) * 10 + n % 10);
        assert(n == (n / 10) * 10 + n % 10);
        assert(decimal_digits(n) == e);
    }
}

/// A string of decimal digits never shrinks in value when digits are added on the right.
pub proof fn lemma_decimal_value_prefix(s: Seq<char>, k: int)
    requires
        0 <= k <= s.len(),
    ensures
        decimal_value(s.take(k)) <= decimal_value(s),
    decreases s.len() - k,
{
    if k < s.len() {
        lemma_decimal_value_prefix(s, k + 1);
        assert(s.take(k + 1).drop_last() =~= s.take(k));
    } else {
        assert(s.take(k) =~= s);
    }
}

/// Leading zeros do not change the value of a decimal string.
pub proof fn lemma_decimal_value_leading_zeros(z: nat, s: Seq<char>)
    ensures
        decimal_value(Seq::new(z, |i: int| '0') + s) == decimal_value(s),
    decreases s.len(),
{
    let zs = Seq::new(z, |i: int| '0');
    if s.len() == 0 {
        assert(zs + s =~= zs);
        lemma_decimal_value_zeros(z);
    } else {
        lemma_decimal_value_leading_zeros(z, s.drop_last());
        assert((zs + s).drop_last() =~= zs + s.drop_last());
    }
}

proof fn lemma_decimal_value_zeros(z: nat)
    ensures
        decimal_value(Seq::new(z, |i: int| '0')) == 0,
    decreases z,
{
    if z > 0 {
        lemma_decimal_value_zeros((z - 1) as nat);
        assert(Seq::new(z, |i: int| '0').drop_last() =~= Seq::new((z - 1) as nat, |i: int| '0'));
    }
}

/// The characters of `n` in shortest decimal notation.
fn decimal_chars(n: u32) -> (r: Vec<char>)
    ensures
        r@ == decimal_digits(n as nat),
    decreases n,
{
    if n < 10 {
        let mut v: Vec<char> = Vec::new();
        v.push(digit_to_char(n));
        v
    } else {
        let mut v = decimal_chars(n / 10);
        v.push(digit_to_char(n % 10));
        v
    }
}

/// Appends `n` in decimal, zero-filled on the left up to `width` characters.
pub fn push_zero_padded(out: &mut Vec<char>, n: u32, width: usize)
    ensures
        final(out)@ == old(out)@ + zero_padded(n as nat, width as nat),
{
    let digits = decimal_chars(n);
    let ghost start = out@;
    if digits.len() < width {
        let fill: usize = width - digits.len();
        let mut k: usize = 0;
        while k < fill
            invariant
                k <= fill,
                out@ == start + Seq::new(k as nat, |i: int| '0'),
            decreases fill - k,
        {
            out.push('0');
            k = k + 1;
            assert(out@ =~= start + Seq::new(k as nat, |i: int| '0'));
        }
    }
    let ghost mid = out@;
    let mut j: usize = 0;
    while j < digits.len()
        invariant
            j <= digits.len(),
            out@ == mid + digits@.take(j as int),
        decreases digits.len() - j,
    {
        out.push(digits[j]);
        j = j + 1;
        assert(out@ =~= mid + digits@.take(j as int));
    }
    assert(digits@.take(digits.len() as int) =~= digits@);
    assert(out@ =~= old(out)@ + zero_padded(n as nat, width as nat));
}

/// Appends `n` in decimal, zero-filled up to `width` characters, a minus sign
/// counting toward the width (as `{:0width$}` writes a signed integer).
pub fn push_signed_zero_padded(out: &mut Vec<char>, n: i32, width: usize)
    ensures
        final(out)@ == old(out)@ + signed_zero_padded(n as int, width as nat),
{
    if n < 0 {
        out.push('-');
        let ghost after_sign = out@;
        let magnitude: u32 = (0i64 - (n as i64)) as u32;
        let inner: usize = if width > 0 { width - 1 } else { 0 };
        push_zero_padded(out, magnitude, inner);
        assert(out@ =~= old(out)@ + signed_zero_padded(n as int, width as nat));
    } else {
        push_zero_padded(out, n as u32, width);
    }
}

/// Parses `s[start..end]` as an unsigned 16-bit decimal number: it succeeds
/// exactly when the range is nonempty, holds ASCII digits only, and its value
/// fits in 16 bits (leading zeros are allowed).
pub fn parse_u16_digits(s: &Vec<char>, start: usize, end: usize) -> (r: Option<u16>)
    requires
        start <= end <= s.len(),
    ensures
        r is Some <==> ({
            let t = s@.subrange(start as int, end as int);
            t.len() > 0 && all_ascii_digits(t) && decimal_value(t) <= 65535
        }),
        r matches Some(v) ==> v == decimal_value(s@.subrange(start as int, end as int)),
{
    let ghost t = s@.subrange(start as int, end as int);
    if start == end {
        return None;
    }
    let mut acc: u32 = 0;
    let mut i: usize = start;
    while i < end
        invariant
            start <= i <= end <= s.len(),
            t == s@.subrange(start as int, end as int),
            acc <= 65535,
            acc == decimal_value(t.take(i - start)),
            all_ascii_digits(t.take(i - start)),
        decreases end - i,
    {
        let ghost k: int = i - start;
        assert(t.take(k + 1).drop_last() =~= t.take(k));
        assert(t.take(k + 1).last() == s@[i as int]);
        match char_digit(s[i]) {
            None => {
                assert(!is_ascii_digit(t[k]));
                return None;
            },
            Some(d) => {
                let next: u32 = acc * 10 + d;
                if next > 65535 {
                    proof {
                        lemma_decimal_value_prefix(t, k + 1);
                    }
                    return None;
                }
                acc = next;
                i = i + 1;
                assert(all_ascii_digits(t.take(k + 1))) by {
                    assert forall|j: int| 0 <= j < k + 1 implies is_ascii_digit(
                        #[trigger] t.take(k + 1)[j],
                    ) by {
                        if j < k {
                            assert(t.take(k + 1)[j] == t.take(k)[j]);
                        }
                    }
                }
            },
        }
    }
    assert(t.take(end - start) =~= t);
    Some(acc as u16)
}

// ---------------------------------------------------------------------------
// Strings and character vectors
// ---------------------------------------------------------------------------

/// Appends `c` to `s`.
///
/// Trusted: calls `String::push`, which std documents as appending the
/// character to the end of the string.
#[verifier::external_body]
pub(crate) fn push_char(s: &mut String, c: char)
    ensures
        final(s)@ == old(s)@.push(c),
{
    s.push(c)
}

/// The characters of `s`.
pub fn chars_of(s: &str) -> (r: Vec<char>)
    ensures
        r@ == s@,
{
    let n: usize = s.unicode_len();
    let mut v: Vec<char> = Vec::new();
    let mut i: usize = 0;
    while i < n
        invariant
            i <= n,
            n == s@.len(),
            v@ == s@.take(i as int),
        decreases n - i,
    {
        v.push(s.get_char(i));
        i = i + 1;
        assert(v@ =~= s@.take(i as int));
    }
    assert(s@.take(n as int) =~= s@);
    v
}

/// The string made of the characters of `v`.
pub fn string_of(v: &Vec<char>) -> (r: String)
    ensures
        r@ == v@,
{
    let mut s = String::new();
    let mut i: usize = 0;
    while i < v.len()
        invariant
            i <= v.len(),
            s@ == v@.take(i as int),
        decreases v.len() - i,
    {
        push_char(&mut s, v[i]);
        i = i + 1;
        assert(s@ =~= v@.take(i as int));
    }
    assert(v@.take(v.len() as int) =~= v@);
    s
}

/// Appends all characters of `src` to `out`.
pub fn push_all(out: &mut Vec<char>, src: &Vec<char>)
    ensures
        final(out)@ == old(out)@ + src@,
{
    let ghost start = out@;
    let mut j: usize = 0;
    while j < src.len()
        invariant
            j <= src.len(),
            out@ == start + src@.take(j as int),
        decreases src.len() - j,
    {
        out.push(src[j]);
        j = j + 1;
        assert(out@ =~= start + src@.take(j as int));
    }
    assert(src@.take(src.len() as int) =~= src@);
}

// ---------------------------------------------------------------------------
// Placeholder substitution
// ---------------------------------------------------------------------------

/// `s` with every occurrence of `pat` replaced by `rep`, occurrences taken
/// from left to right without overlap (the behaviour of `str::replace` for a
/// nonempty pattern).
pub open spec fn replace_all(s: Seq<char>, pat: Seq<char>, rep: Seq<char>) -> Seq<char>
    decreases s.len(),
{
    if s.len() == 0 {
        Seq::empty()
    } else if 0 < pat.len() <= s.len() && s.take(pat.len() as int) == pat {
        rep + replace_all(s.skip(pat.len() as int), pat, rep)
    } else {
        seq![s[0]] + replace_all(s.skip(1), pat, rep)
    }
}

/// Whether `pat` occurs in `s` at position `i`.
fn occurs_at(s: &Vec<char>, i: usize, pat: &Vec<char>) -> (r: bool)
    requires
        i <= s.len(),
    ensures
        r == (pat.len() <= s.len() - i && s@.skip(i as int).take(pat.len() as int) == pat@),
{
    if pat.len() > s.len() - i {
        return false;
    }
    let mut j: usize = 0;
    while j < pat.len()
        invariant
            j <= pat.len() <= s.len() - i,
            forall|k: int| 0 <= k < j ==> s@[i + k] == pat@[k],
        decreases pat.len() - j,
    {
        if s[i + j] != pat[j] {
            assert(s@.skip(i as int).take(pat.len() as int)[j as int] != pat@[j as int]);
            return false;
        }
        j = j + 1;
    }
    assert(s@.skip(i as int).take(pat.len() as int) =~= pat@);
    true
}

/// `s` with every occurrence of the nonempty `pat` replaced by `rep`.
pub fn replace_all_chars(s: &Vec<char>, pat: &Vec<char>, rep: &Vec<char>) -> (r: Vec<char>)
    requires
        pat.len() > 0,
    ensures
        r@ == replace_all(s@, pat@, rep@),
{
    let mut out: Vec<char> = Vec::new();
    let mut i: usize = 0;
    assert(s@.skip(0) =~= s@);
    while i < s.len()
        invariant
            i <= s.len(),
            pat.len() > 0,
            out@ + replace_all(s@.skip(i as int), pat@, rep@) == replace_all(s@, pat@, rep@),
        decreases s.len() - i,
    {
        let ghost t = s@.skip(i as int);
        let ghost before = out@;
        if occurs_at(s, i, pat) {
            push_all(&mut out, rep);
            assert(t.skip(pat.len() as int) =~= s@.skip(i + pat.len()));
            i = i + pat.len();
            assert(out@ + replace_all(s@.skip(i as int), pat@, rep@) =~= before + replace_all(t, pat@, rep@));
        } else {
            out.push(s[i]);
            assert(t.skip(1) =~= s@.skip(i + 1));
            i = i + 1;
            assert(out@ + replace_all(s@.skip(i as int), pat@, rep@) =~= before + replace_all(t, pat@, rep@));
        }
    }
    assert(s@.skip(i as int) =~= Seq::<char>::empty());
    assert(out@ + Seq::<char>::empty() =~= out@);
    out
}

} // verus!

verus! {

/// Ten to the power `w`.
pub open spec fn pow10(w: nat) -> nat
    decreases w,
{
    if w == 0 {
        1
    } else {
        10 * pow10((w - 1) as nat)
    }
}

/// A number below `10^w` takes at most `w` digits.
pub proof fn lemma_decimal_digits_len(n: nat, w: nat)
    requires
        w >= 1,
        n < pow10(w),
    ensures
        decimal_digits(n).len() <= w,
    decreases w,
{
    if n >= 10 {
        if w == 1 {
            assert(pow10(0) == 1);
        } else {
            let w1 = (w - 1) as nat;
            assert(pow10(w) == 10 * pow10(w1));
            assert(n / 10 < pow10(w1));
            lemma_decimal_digits_len(n / 10, w1);
        }
    }
}

/// A zero-filled number has the wanted width (or more, when its digits do not
/// fit), holds ASCII digits only, and keeps its value.
pub proof fn lemma_zero_padded_value(n: nat, width: nat)
    ensures
        zero_padded(n, width).len() == if decimal_digits(n).len() < width {
            width
        } else {
            decimal_digits(n).len()
        },
        zero_padded(n, width).len() > 0,
        all_ascii_digits(zero_padded(n, width)),
        decimal_value(zero_padded(n, width)) == n,
{
    lemma_decimal_digits_valid(n);
    let d = decimal_digits(n);
    if d.len() < width {
        let z = (width - d.len()) as nat;
        lemma_decimal_value_leading_zeros(z, d);
        let p = Seq::new(z, |i: int| '0') + d;
        assert forall|i: int| 0 <= i < p.len() implies is_ascii_digit(#[trigger] p[i]) by {
            if i >= z {
                assert(p[i] == d[i - z]);
            }
        }
    }
}

// ---------------------------------------------------------------------------
// Searching from the right
// ---------------------------------------------------------------------------

/// The largest index below `end` at which `s` holds `c`, or -1.
pub open spec fn last_index_before(s: Seq<char>, c: char, end: int) -> int
    decreases end,
{
    if end <= 0 {
        -1
    } else if s[end - 1] == c {
        end - 1
    } else {
        last_index_before(s, c, end - 1)
    }
}

pub proof fn lemma_last_index_before_bounds(s: Seq<char>, c: char, end: int)
    requires
        end <= s.len(),
    ensures
        -1 <= last_index_before(s, c, end) < if end > 0 { end } else { 0 },
        last_index_before(s, c, end) >= 0 ==> s[last_index_before(s, c, end)] == c,
        forall|j: int| last_index_before(s, c, end) < j < end ==> s[j] != c,
    decreases end,
{
    if end > 0 && s[end - 1] != c {
        lemma_last_index_before_bounds(s, c, end - 1);
    }
}

pub proof fn lemma_last_index_before_is(s: Seq<char>, c: char, end: int, k: int)
    requires
        0 <= k < end <= s.len(),
        s[k] == c,
        forall|j: int| k < j < end ==> s[j] != c,
    ensures
        last_index_before(s, c, end) == k,
    decreases end,
{
    if end - 1 != k {
        lemma_last_index_before_is(s, c, end - 1, k);
    }
}

/// The largest index below `end` at which `v` holds `c`.
pub fn last_index_of(v: &Vec<char>, c: char, end: usize) -> (r: Option<usize>)
    requires
        end <= v.len(),
    ensures
        match r {
            Some(k) => last_index_before(v@, c, end as int) == k,
            None => last_index_before(v@, c, end as int) == -1,
        },
{
    let mut i: usize = end;
    while i > 0
        invariant
            i <= end <= v.len(),
            last_index_before(v@, c, end as int) == last_index_before(v@, c, i as int),
        decreases i,
    {
        if v[i - 1] == c {
            return Some(i - 1);
        }
        i = i - 1;
    }
    None
}

// ---------------------------------------------------------------------------
// File name extensions
// ---------------------------------------------------------------------------

/// Where the extension of file name `name` starts: the index of the last `.`
/// of its last `/`-separated component, when that `.` is not the first
/// character of the component; -1 when the name has no extension.
pub open spec fn extension_dot(name: Seq<char>) -> int {
    let slash = last_index_before(name, '/', name.len() as int);
    let dot = last_index_before(name, '.', name.len() as int);
    if dot > slash + 1 {
        dot
    } else {
        -1
    }
}

/// `name` with `text` inserted directly in front of its extension, or
/// appended when it has none.
pub open spec fn insert_before_extension(name: Seq<char>, text: Seq<char>) -> Seq<char> {
    let dot = extension_dot(name);
    if dot >= 0 {
        name.take(dot) + text + name.skip(dot)
    } else {
        name + text
    }
}

/// `name` with `text` inserted directly in front of its extension, or
/// appended when it has none.
pub fn insert_before_extension_chars(name: &Vec<char>, text: &Vec<char>) -> (r: Vec<char>)
    ensures
        r@ == insert_before_extension(name@, text@),
{
    let slash = last_index_of(name, '/', name.len());
    let dot = last_index_of(name, '.', name.len());
    proof {
        lemma_last_index_before_bounds(name@, '/', name.len() as int);
        lemma_last_index_before_bounds(name@, '.', name.len() as int);
    }
    let base_start: usize = match slash {
        Some(k) => k + 1,
        None => 0,
    };
    let mut out: Vec<char> = Vec::new();
    match dot {
        Some(k) => {
            if k > base_start {
                let mut i: usize = 0;
                while i < k
                    invariant
                        i <= k < name.len(),
                        out@ == name@.take(i as int),
                    decreases k - i,
                {
                    out.push(name[i]);
                    i = i + 1;
                    assert(out@ =~= name@.take(i as int));
                }
                push_all(&mut out, text);
                let ghost mid = out@;
                let mut j: usize = k;
                while j < name.len()
                    invariant
                        k <= j <= name.len(),
                        out@ == mid + name@.subrange(k as int, j as int),
                    decreases name.len() - j,
                {
                    out.push(name[j]);
                    j = j + 1;
                    assert(out@ =~= mid + name@.subrange(k as int, j as int));
                }
                assert(name@.subrange(k as int, name.len() as int) =~= name@.skip(k as int));
                return out;
            }
        },
        None => {},
    }
    push_all(&mut out, name);
    push_all(&mut out, text);
    assert(out@ =~= name@ + text@);
    out
}

/// A string in which the pattern's first character never occurs is left
/// as it is.
pub proof fn lemma_replace_absent(s: Seq<char>, pat: Seq<char>, rep: Seq<char>)
    requires
        pat.len() > 0,
        !s.contains(pat[0]),
    ensures
        replace_all(s, pat, rep) == s,
    decreases s.len(),
{
    if s.len() > 0 {
        assert(!(pat.len() <= s.len() && s.take(pat.len() as int) == pat)) by {
            if pat.len() <= s.len() && s.take(pat.len() as int) == pat {
                assert(s.take(pat.len() as int)[0] == s[0]);
                assert(s[0] != pat[0]);
            }
        }
        assert(!s.skip(1).contains(pat[0])) by {
            if s.skip(1).contains(pat[0]) {
                let j = choose|j: int| 0 <= j < s.skip(1).len() && s.skip(1)[j] == pat[0];
                assert(s[j + 1] == pat[0]);
            }
        }
        lemma_replace_absent(s.skip(1), pat, rep);
        assert(seq![s[0]] + s.skip(1) =~= s);
    }
}

/// After a prefix in which the pattern's first character never occurs, an
/// occurrence of the pattern is replaced, and replacing goes on after it.
pub proof fn lemma_replace_after_plain_prefix(
    prefix: Seq<char>,
    pat: Seq<char>,
    rep: Seq<char>,
    rest: Seq<char>,
)
    requires
        pat.len() > 0,
        !prefix.contains(pat[0]),
    ensures
        replace_all(prefix + pat + rest, pat, rep) == prefix + rep + replace_all(rest, pat, rep),
    decreases prefix.len(),
{
    let s = prefix + pat + rest;
    if prefix.len() == 0 {
        assert(s =~= pat + rest);
        assert(s.take(pat.len() as int) =~= pat);
        assert(s.skip(pat.len() as int) =~= rest);
        assert(prefix + rep =~= rep);
    } else {
        assert(s.take(pat.len() as int) != pat) by {
            assert(s[0] == prefix[0]);
            assert(prefix[0] != pat[0]);
            assert(s.take(pat.len() as int)[0] == s[0]);
            if s.take(pat.len() as int) == pat {
                assert(s.take(pat.len() as int)[0] == pat[0]);
            }
        }
        let p1 = prefix.skip(1);
        assert(!p1.contains(pat[0])) by {
            if p1.contains(pat[0]) {
                let j = choose|j: int| 0 <= j < p1.len() && p1[j] == pat[0];
                assert(prefix[j + 1] == pat[0]);
            }
        }
        lemma_replace_after_plain_prefix(p1, pat, rep, rest);
        assert(s.skip(1) =~= p1 + pat + rest);
        assert(seq![prefix[0]] + (p1 + rep + replace_all(rest, pat, rep)) =~= prefix + rep
            + replace_all(rest, pat, rep));
    }
}

} // verus!
