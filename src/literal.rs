//! The form of a number literal: the text that std's `f32::from_str`
//! accepts. Its documented grammar is
//! `Sign? ('inf' | 'infinity' | 'nan' | Number)`, where
//! `Number ::= (Digit+ | Digit+ '.' Digit* | Digit* '.' Digit+) Exp?` and
//! `Exp ::= 'e' Sign? Digit+`, letters in either case.
use vstd::prelude::*;
use crate::builtin::{is_word, same_word};

verus! {

pub open spec fn is_digit(c: char) -> bool {
    '0' <= c && c <= '9'
}

pub open spec fn is_sign(c: char) -> bool {
    c == '+' || c == '-'
}

/// Digits with at most one `.` among them, and at least one digit.
pub open spec fn is_mantissa(s: Seq<char>) -> bool {
    &&& forall|i: int| 0 <= i < s.len() ==> is_digit(#[trigger] s[i]) || s[i] == '.'
    &&& forall|i: int, j: int|
        #![trigger s[i], s[j]]
        0 <= i < s.len() && 0 <= j < s.len() && s[i] == '.' && s[j] == '.' ==> i == j
    &&& exists|i: int| 0 <= i < s.len() && is_digit(#[trigger] s[i])
}

/// `s` without its leading sign, if it has one.
pub open spec fn unsigned(s: Seq<char>) -> Seq<char> {
    if s.len() > 0 && is_sign(s[0]) {
        s.drop_first()
    } else {
        s
    }
}

pub open spec fn all_digits(s: Seq<char>) -> bool {
    forall|i: int| 0 <= i < s.len() ==> is_digit(#[trigger] s[i])
}

/// An optional sign, then at least one digit.
pub open spec fn is_exponent(s: Seq<char>) -> bool {
    unsigned(s).len() > 0 && all_digits(unsigned(s))
}

/// A mantissa, then an optional exponent marked by `e` or `E`.
pub open spec fn is_decimal(s: Seq<char>) -> bool {
    ||| is_mantissa(s)
    ||| exists|k: int|
        0 <= k < s.len() && (s[k] == 'e' || s[k] == 'E') && #[trigger] is_mantissa(s.take(k))
            && is_exponent(s.skip(k + 1))
}

/// `s` is the text of a number.
pub open spec fn is_number_literal(s: Seq<char>) -> bool {
    let t = unsigned(s);
    ||| same_word(t, "inf"@)
    ||| same_word(t, "infinity"@)
    ||| same_word(t, "nan"@)
    ||| is_decimal(t)
}

fn is_mantissa_at(s: &[char], lo: usize, hi: usize) -> (r: bool)
    requires
        lo <= hi <= s@.len(),
    ensures
        r == is_mantissa(s@.subrange(lo as int, hi as int)),
{
    let ghost t = s@.subrange(lo as int, hi as int);
    let mut i: usize = lo;
    let mut dot: Option<usize> = None;
    let mut digit: Option<usize> = None;
    while i < hi
        invariant
            lo <= i <= hi <= s@.len(),
            t == s@.subrange(lo as int, hi as int),
            forall|j: int| lo <= j < i ==> is_digit(#[trigger] s@[j]) || s@[j] == '.',
            match dot {
                None => forall|j: int| lo <= j < i ==> #[trigger] s@[j] != '.',
                Some(d) => lo <= d < i && s@[d as int] == '.' && forall|j: int|
                    lo <= j < i && #[trigger] s@[j] == '.' ==> j == d,
            },
            match digit {
                None => forall|j: int| lo <= j < i ==> !is_digit(#[trigger] s@[j]),
                Some(d) => lo <= d < i && is_digit(s@[d as int]),
            },
        decreases hi - i,
    {
        let c = s[i];
        if c == '.' {
            if dot.is_some() {
                let d = dot.unwrap();
                assert(t[d - lo] == '.' && t[i - lo] == '.');
                return false;
            }
            dot = Some(i);
        } else if '0' <= c && c <= '9' {
            digit = Some(i);
        } else {
            assert(!(is_digit(t[i - lo]) || t[i - lo] == '.'));
            return false;
        }
        i = i + 1;
    }
    match digit {
        Some(d) => {
            assert(is_digit(t[d - lo]));
            assert forall|a: int, b: int|
                #![trigger t[a], t[b]]
                0 <= a < t.len() && 0 <= b < t.len() && t[a] == '.' && t[b] == '.' implies a
                    == b by {
                assert(s@[lo + a] == '.' && s@[lo + b] == '.');
            }
            assert forall|a: int| 0 <= a < t.len() implies is_digit(#[trigger] t[a]) || t[a]
                == '.' by {
                assert(s@[lo + a] == t[a]);
            }
            true
        },
        None => {
            assert forall|a: int| 0 <= a < t.len() implies !is_digit(#[trigger] t[a]) by {
                assert(s@[lo + a] == t[a]);
            }
            false
        },
    }
}

fn is_exponent_at(s: &[char], lo: usize, hi: usize) -> (r: bool)
    requires
        lo <= hi <= s@.len(),
    ensures
        r == is_exponent(s@.subrange(lo as int, hi as int)),
{
    let ghost u = s@.subrange(lo as int, hi as int);
    let start = if lo < hi && (s[lo] == '+' || s[lo] == '-') { lo + 1 } else { lo };
    let ghost t = unsigned(u);
    assert(t == s@.subrange(start as int, hi as int));
    if start == hi {
        return false;
    }
    let mut i: usize = start;
    while i < hi
        invariant
            lo <= start <= i <= hi <= s@.len(),
            t == s@.subrange(start as int, hi as int),
            u == s@.subrange(lo as int, hi as int),
            t == unsigned(u),
            forall|j: int| start <= j < i ==> is_digit(#[trigger] s@[j]),
        decreases hi - i,
    {
        if !('0' <= s[i] && s[i] <= '9') {
            assert(!is_digit(t[i - start]));
            assert(!is_exponent(u));
            return false;
        }
        i = i + 1;
    }
    assert forall|a: int| 0 <= a < t.len() implies is_digit(#[trigger] t[a]) by {
        assert(s@[start + a] == t[a]);
    }
    true
}

fn is_decimal_at(s: &[char], lo: usize, hi: usize) -> (r: bool)
    requires
        lo <= hi <= s@.len(),
    ensures
        r == is_decimal(s@.subrange(lo as int, hi as int)),
{
    let ghost t = s@.subrange(lo as int, hi as int);
    let mut k: usize = lo;
    while k < hi && ('0' <= s[k] && s[k] <= '9' || s[k] == '.')
        invariant
            lo <= k <= hi <= s@.len(),
            forall|j: int| lo <= j < k ==> is_digit(#[trigger] s@[j]) || s@[j] == '.',
        decreases hi - k,
    {
        k = k + 1;
    }
    if k == hi {
        let r = is_mantissa_at(s, lo, hi);
        assert forall|m: int| 0 <= m < t.len() implies !(t[m] == 'e' || t[m] == 'E') by {
            assert(t[m] == s@[lo + m]);
        }
        return r;
    }
    let ghost kk = k - lo;
    assert(!(is_digit(t[kk]) || t[kk] == '.'));
    assert(!is_mantissa(t));
    if s[k] == 'e' || s[k] == 'E' {
        let m = is_mantissa_at(s, lo, k);
        let e = is_exponent_at(s, k + 1, hi);
        assert(t.take(kk) == s@.subrange(lo as int, k as int));
        assert(t.skip(kk + 1) == s@.subrange(k + 1, hi as int));
        if m && e {
            assert(is_mantissa(t.take(kk)));
        } else {
            assert forall|m2: int|
                0 <= m2 < t.len() && (t[m2] == 'e' || t[m2] == 'E') && is_mantissa(
                    #[trigger] t.take(m2),
                ) implies m2 == kk by {
                if m2 > kk {
                    assert(t.take(m2)[kk] == t[kk]);
                } else if m2 < kk {
                    assert(t[m2] == s@[lo + m2]);
                }
            }
        }
        m && e
    } else {
        assert forall|m2: int|
            0 <= m2 < t.len() && (t[m2] == 'e' || t[m2] == 'E') implies !is_mantissa(
                #[trigger] t.take(m2),
            ) by {
            if m2 > kk {
                assert(t.take(m2)[kk] == t[kk]);
            } else if m2 < kk {
                assert(t[m2] == s@[lo + m2]);
            }
        }
        false
    }
}

/// Tells whether `s[lo..hi]` is the text of a number.
pub fn is_number_literal_at(s: &[char], lo: usize, hi: usize) -> (r: bool)
    requires
        lo <= hi <= s@.len(),
    ensures
        r == is_number_literal(s@.subrange(lo as int, hi as int)),
{
    let ghost u = s@.subrange(lo as int, hi as int);
    let start = if lo < hi && (s[lo] == '+' || s[lo] == '-') { lo + 1 } else { lo };
    let ghost t = unsigned(u);
    assert(t == s@.subrange(start as int, hi as int));
    is_word(s, start, hi, "inf") || is_word(s, start, hi, "infinity") || is_word(
        s,
        start,
        hi,
        "nan",
    ) || is_decimal_at(s, start, hi)
}

} // verus!
