//! The two literal forms of an expression token: quoted strings and decimal
//! numerals.

use vstd::prelude::*;
use vstd::string::*;
use crate::text::to_chars;

verus! {

/// Whether `tok` is a string literal: at least two characters, the first
/// and the last a double quote.
pub open spec fn is_string_literal(tok: Seq<char>) -> bool {
    tok.len() >= 2 && tok[0] == '"' && tok.last() == '"'
}

/// What stands between the delimiters of a string literal, taken as it is.
pub open spec fn literal_text(tok: Seq<char>) -> Seq<char> {
    tok.subrange(1, tok.len() - 1)
}

/// Whether `c` is one of `0` to `9`.
pub open spec fn is_digit(c: char) -> bool {
    0x30 <= c as u32 <= 0x39
}

/// Whether `c` is `+` or `-`.
pub open spec fn is_sign(c: char) -> bool {
    c == '+' || c == '-'
}

/// How many digits stand at the front of `s`.
pub open spec fn digit_run(s: Seq<char>) -> int
    decreases s.len(),
{
    if s.len() > 0 && is_digit(s[0]) {
        1 + digit_run(s.skip(1))
    } else {
        0
    }
}

/// `s` without one leading sign, if it has one.
pub open spec fn unsigned(s: Seq<char>) -> Seq<char> {
    if s.len() > 0 && is_sign(s[0]) {
        s.skip(1)
    } else {
        s
    }
}

/// Whether `s` is an exponent: `e` or `E`, an optional sign, then one or
/// more digits and nothing else.
pub open spec fn is_exponent(s: Seq<char>) -> bool {
    &&& s.len() > 0
    &&& s[0] == 'e' || s[0] == 'E'
    &&& unsigned(s.skip(1)).len() > 0
    &&& digit_run(unsigned(s.skip(1))) == unsigned(s.skip(1)).len()
}

/// Whether `s` is digits with an optional `.` among, before or after them,
/// at least one digit in all, followed by an optional exponent.
pub open spec fn is_decimal_number(s: Seq<char>) -> bool {
    let whole = digit_run(s);
    let rest = s.skip(whole);
    let has_dot = rest.len() > 0 && rest[0] == '.';
    let frac = if has_dot {
        rest.skip(1)
    } else {
        rest
    };
    let fraction = if has_dot {
        digit_run(frac)
    } else {
        0
    };
    let tail = frac.skip(fraction);
    &&& whole + fraction >= 1
    &&& tail.len() == 0 || is_exponent(tail)
}

/// The code point of `c`, with the ASCII capitals mapped to their small
/// letters.
pub open spec fn folded(c: char) -> u32 {
    let n = c as u32;
    if 0x41 <= n <= 0x5A {
        (n + 0x20) as u32
    } else {
        n
    }
}

/// Whether `s` spells the lower-case ASCII word `w`, in any mix of case.
pub open spec fn spells(s: Seq<char>, w: Seq<char>) -> bool {
    &&& s.len() == w.len()
    &&& forall|i: int| 0 <= i < s.len() ==> folded(#[trigger] s[i]) == w[i] as u32
}

/// Whether `s` is one of the words `inf`, `infinity` and `nan`, in any mix
/// of case.
pub open spec fn is_special_number(s: Seq<char>) -> bool {
    ||| spells(s, seq!['i', 'n', 'f'])
    ||| spells(s, seq!['i', 'n', 'f', 'i', 'n', 'i', 't', 'y'])
    ||| spells(s, seq!['n', 'a', 'n'])
}

/// Whether `tok` is a numeral: an optional sign, then a decimal number or
/// one of the special words. No whitespace, digit separators or radix
/// prefixes are part of a numeral.
pub open spec fn is_numeral(tok: Seq<char>) -> bool {
    is_decimal_number(unsigned(tok)) || is_special_number(unsigned(tok))
}

/// The index after the digits that stand in `v` from `from` on.
fn skip_digits(v: &Vec<char>, from: usize) -> (k: usize)
    requires
        from <= v.len(),
    ensures
        from <= k <= v.len(),
        k - from == digit_run(v@.skip(from as int)),
{
    let mut k: usize = from;
    while k < v.len() && 0x30 <= v[k] as u32 && v[k] as u32 <= 0x39
        invariant
            from <= k <= v.len(),
            digit_run(v@.skip(from as int)) == (k - from) + digit_run(v@.skip(k as int)),
        decreases v.len() - k,
    {
        assert(v@.skip(k as int).skip(1) =~= v@.skip(k + 1));
        k += 1;
    }
    k
}

/// The index after one sign at `from`, or `from` if none stands there.
fn skip_sign(v: &Vec<char>, from: usize) -> (k: usize)
    requires
        from <= v.len(),
    ensures
        from <= k <= v.len(),
        v@.skip(k as int) == unsigned(v@.skip(from as int)),
{
    if from < v.len() && (v[from] == '+' || v[from] == '-') {
        from + 1
    } else {
        from
    }
}

/// Whether `v` from `from` on spells `word`, in any mix of ASCII case.
fn spells_from(v: &Vec<char>, from: usize, word: &str) -> (r: bool)
    requires
        from <= v.len(),
    ensures
        r == spells(v@.skip(from as int), word@),
{
    let w = to_chars(word);
    if v.len() - from != w.len() {
        return false;
    }
    let mut i: usize = 0;
    while i < w.len()
        invariant
            i <= w.len(),
            from + w.len() == v.len(),
            w@ == word@,
            forall|j: int|
                0 <= j < i ==> folded(#[trigger] v@.skip(from as int)[j]) == w@[j] as u32,
        decreases w.len() - i,
    {
        let n: u32 = v[from + i] as u32;
        let low: u32 = if 0x41 <= n && n <= 0x5A {
            n + 0x20
        } else {
            n
        };
        if low != w[i] as u32 {
            assert(folded(v@.skip(from as int)[i as int]) != w@[i as int] as u32);
            return false;
        }
        i += 1;
    }
    true
}

/// Whether `v` from `from` on is a decimal number.
fn decimal_number_from(v: &Vec<char>, from: usize) -> (r: bool)
    requires
        from <= v.len(),
    ensures
        r == is_decimal_number(v@.skip(from as int)),
{
    let ghost s = v@.skip(from as int);
    let dot = skip_digits(v, from);
    let has_dot = dot < v.len() && v[dot] == '.';
    let frac: usize = if has_dot {
        dot + 1
    } else {
        dot
    };
    let end: usize = if has_dot {
        skip_digits(v, frac)
    } else {
        frac
    };
    proof {
        assert(s.skip(dot - from) =~= v@.skip(dot as int));
        if has_dot {
            assert(v@.skip(dot as int).skip(1) =~= v@.skip(frac as int));
        }
        assert(v@.skip(frac as int).skip(end - frac) =~= v@.skip(end as int));
    }
    if end - from == 0 || (has_dot && end - from == 1) {
        return false;
    }
    if end == v.len() {
        return true;
    }
    if v[end] != 'e' && v[end] != 'E' {
        return false;
    }
    assert(v@.skip(end as int).skip(1) =~= v@.skip(end + 1));
    let digits = skip_sign(v, end + 1);
    let stop = skip_digits(v, digits);
    digits < v.len() && stop == v.len()
}

/// Whether `tok` is a numeral.
pub fn is_numeric(tok: &str) -> (r: bool)
    ensures
        r == is_numeral(tok@),
{
    let v = to_chars(tok);
    assert(v@.skip(0) =~= v@);
    let body = skip_sign(&v, 0);
    if decimal_number_from(&v, body) {
        return true;
    }
    proof {
        reveal_strlit("inf");
        reveal_strlit("infinity");
        reveal_strlit("nan");
    }
    spells_from(&v, body, "inf") || spells_from(&v, body, "infinity") || spells_from(
        &v,
        body,
        "nan",
    )
}

} // verus!
