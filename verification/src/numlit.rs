//! The literal grammars behind scalar type inference: whether a string
//! parses as a 32-bit signed integer, and whether it parses as a float.
//! Both follow the grammars that std documents for `FromStr`; a float
//! parse never fails on a grammatical literal (it saturates instead), so
//! grammar membership is exactly parse success, for `f32` and `f64` alike.

use vstd::prelude::*;
use crate::strutil::{is_ascii_digit_char, eq_ignore_case, str_eq_ignore_case, char_is_digit};

verus! {

pub open spec fn all_digits(s: Seq<char>) -> bool {
    forall|i: int| 0 <= i < s.len() ==> is_ascii_digit_char(s[i])
}

pub open spec fn is_sign_char(c: char) -> bool {
    c == '+' || c == '-'
}

/// `s` with one leading sign removed, if any.
pub open spec fn strip_sign(s: Seq<char>) -> Seq<char> {
    if s.len() > 0 && is_sign_char(s[0]) {
        s.drop_first()
    } else {
        s
    }
}

/// A float mantissa: digits with at most one point among them, and at
/// least one digit.
pub open spec fn is_mantissa(s: Seq<char>) -> bool {
    &&& s.len() > 0
    &&& forall|i: int| 0 <= i < s.len() ==> is_ascii_digit_char(s[i]) || s[i] == '.'
    &&& exists|i: int| 0 <= i < s.len() && is_ascii_digit_char(s[i])
    &&& forall|i: int, j: int|
        0 <= i < s.len() && 0 <= j < s.len() && s[i] == '.' && s[j] == '.' ==> i == j
}

/// An exponent tail: an optional sign, then at least one digit.
pub open spec fn is_exp_part(t: Seq<char>) -> bool {
    strip_sign(t).len() > 0 && all_digits(strip_sign(t)) && t.len() > 0
}

/// A mantissa, optionally followed by `e`/`E` and an exponent tail.
pub open spec fn is_number_part(s: Seq<char>) -> bool {
    ||| is_mantissa(s)
    ||| exists|k: int|
        0 <= k < s.len() && (s[k] == 'e' || s[k] == 'E') && is_mantissa(s.subrange(0, k))
            && is_exp_part(s.subrange(k + 1, s.len() as int))
}

/// The words float parsing accepts besides numbers, up to ASCII case.
pub open spec fn is_special_word(s: Seq<char>) -> bool {
    eq_ignore_case(s, "inf"@) || eq_ignore_case(s, "infinity"@) || eq_ignore_case(s, "nan"@)
}

/// Whether `s` parses as a float: an optional sign, then a special word or
/// a number. This is the grammar std documents for `f32`/`f64` `FromStr`;
/// out-of-range values saturate rather than fail, so membership here is
/// parse success.
pub open spec fn spec_is_float_literal(s: Seq<char>) -> bool {
    is_special_word(strip_sign(s)) || is_number_part(strip_sign(s))
}

fn check_mantissa(m: &str) -> (r: bool)
    ensures
        r == is_mantissa(m@),
{
    let len = m.unicode_len();
    if len == 0 {
        return false;
    }
    let mut has_digit = false;
    let mut dot: Option<usize> = None;
    let mut i: usize = 0;
    while i < len
        invariant
            len == m@.len(),
            i <= len,
            forall|j: int| 0 <= j < i ==> is_ascii_digit_char(m@[j]) || m@[j] == '.',
            has_digit == exists|j: int| 0 <= j < i && is_ascii_digit_char(m@[j]),
            match dot {
                None => forall|j: int| 0 <= j < i ==> m@[j] != '.',
                Some(d) => d < i && m@[d as int] == '.' && forall|j: int|
                    0 <= j < i && m@[j] == '.' ==> j == d,
            },
        decreases len - i,
    {
        let c = m.get_char(i);
        if char_is_digit(c) {
            has_digit = true;
        } else if c == '.' {
            match dot {
                None => {
                    dot = Some(i);
                },
                Some(d) => {
                    proof {
                        assert(m@[d as int] == '.' && m@[i as int] == '.' && d != i);
                    }
                    return false;
                },
            }
        } else {
            return false;
        }
        i = i + 1;
    }
    has_digit
}

fn check_exp(t: &str) -> (r: bool)
    ensures
        r == is_exp_part(t@),
{
    let len = t.unicode_len();
    if len == 0 {
        return false;
    }
    let c0 = t.get_char(0);
    let start: usize = if c0 == '+' || c0 == '-' {
        1
    } else {
        0
    };
    proof {
        if start == 1 {
            assert(strip_sign(t@) =~= t@.subrange(1, t@.len() as int));
        } else {
            assert(strip_sign(t@) =~= t@);
        }
    }
    if start == len {
        return false;
    }
    let mut i: usize = start;
    while i < len
        invariant
            len == t@.len(),
            start == 0 || start == 1,
            start <= i <= len,
            start == 1 ==> strip_sign(t@) == t@.subrange(1, t@.len() as int),
            start == 0 ==> strip_sign(t@) == t@,
            forall|j: int| start <= j < i ==> is_ascii_digit_char(t@[j]),
        decreases len - i,
    {
        if !char_is_digit(t.get_char(i)) {
            proof {
                assert(!is_ascii_digit_char(strip_sign(t@)[i - start]));
            }
            return false;
        }
        i = i + 1;
    }
    proof {
        assert(forall|j: int| 0 <= j < strip_sign(t@).len() ==> is_ascii_digit_char(
            strip_sign(t@)[j],
        ));
    }
    true
}

/// Whether `value` parses as a float (`f32` and `f64` agree on this).
pub fn is_float_literal(s: &str) -> (r: bool)
    ensures
        r == spec_is_float_literal(s@),
{
    let len = s.unicode_len();
    let start: usize = if len > 0 {
        let c0 = s.get_char(0);
        if c0 == '+' || c0 == '-' {
            1
        } else {
            0
        }
    } else {
        0
    };
    let rest = s.substring_char(start, len);
    proof {
        assert(rest@ =~= strip_sign(s@));
    }
    if str_eq_ignore_case(rest, "inf") || str_eq_ignore_case(rest, "infinity")
        || str_eq_ignore_case(rest, "nan") {
        return true;
    }
    let rlen = rest.unicode_len();
    // find the first exponent marker, if any
    let mut k: usize = 0;
    let mut found = false;
    while k < rlen && !found
        invariant
            rlen == rest@.len(),
            k <= rlen,
            forall|j: int| 0 <= j < k ==> rest@[j] != 'e' && rest@[j] != 'E',
            found ==> k < rlen && (rest@[k as int] == 'e' || rest@[k as int] == 'E'),
        decreases rlen - k + (if found { 0int } else { 1int }),
    {
        let c = rest.get_char(k);
        if c == 'e' || c == 'E' {
            found = true;
        } else {
            k = k + 1;
        }
    }
    if !found {
        let r = check_mantissa(rest);
        proof {
            if !r {
                assert forall|kk: int|
                    !(0 <= kk < rest@.len() && (rest@[kk] == 'e' || rest@[kk] == 'E')
                        && is_mantissa(rest@.subrange(0, kk)) && is_exp_part(
                        rest@.subrange(kk + 1, rest@.len() as int),
                    )) by {}
            }
        }
        return r;
    }
    let head = rest.substring_char(0, k);
    let tail = rest.substring_char(k + 1, rlen);
    let ok = check_mantissa(head) && check_exp(tail);
    proof {
        assert(head@ =~= rest@.subrange(0, k as int));
        assert(tail@ =~= rest@.subrange(k + 1, rest@.len() as int));
        if ok {
            assert(is_number_part(rest@));
        } else {
            assert forall|kk: int|
                0 <= kk < rest@.len() && (rest@[kk] == 'e' || rest@[kk] == 'E')
                    implies !(is_mantissa(rest@.subrange(0, kk)) && is_exp_part(
                    rest@.subrange(kk + 1, rest@.len() as int),
                )) by {
                if kk > k {
                    let sub = rest@.subrange(0, kk);
                    assert(sub[k as int] == rest@[k as int]);
                    assert(!is_mantissa(sub));
                }
            }
            assert(!is_mantissa(rest@));
        }
    }
    ok
}

// --- 32-bit signed integers ---

/// The value of a digit string, most significant first.
pub open spec fn digits_val(s: Seq<char>) -> int
    decreases s.len(),
{
    if s.len() == 0 {
        0
    } else {
        digits_val(s.drop_last()) * 10 + (s.last() as int - 48)
    }
}

/// Whether `s` parses as an `i32`: an optional sign, at least one digit,
/// and a value within the 32-bit signed range.
pub open spec fn spec_is_i32_literal(s: Seq<char>) -> bool {
    let neg = s.len() > 0 && s[0] == '-';
    let t = strip_sign(s);
    t.len() > 0 && all_digits(t) && (if neg {
        digits_val(t) <= 0x8000_0000
    } else {
        digits_val(t) <= 0x7fff_ffff
    })
}

proof fn lemma_digits_val_nonneg(s: Seq<char>)
    requires
        all_digits(s),
    ensures
        digits_val(s) >= 0,
    decreases s.len(),
{
    if s.len() > 0 {
        assert(all_digits(s.drop_last()));
        lemma_digits_val_nonneg(s.drop_last());
        assert(is_ascii_digit_char(s.last()));
    }
}

pub fn is_i32_literal(s: &str) -> (r: bool)
    ensures
        r == spec_is_i32_literal(s@),
{
    let len = s.unicode_len();
    if len == 0 {
        return false;
    }
    let c0 = s.get_char(0);
    let neg = c0 == '-';
    let start: usize = if c0 == '+' || c0 == '-' {
        1
    } else {
        0
    };
    proof {
        if start == 1 {
            assert(strip_sign(s@) =~= s@.subrange(1, s@.len() as int));
        } else {
            assert(strip_sign(s@) =~= s@);
        }
    }
    if start == len {
        return false;
    }
    let ghost t = strip_sign(s@);
    let mut acc: u64 = 0;
    let mut i: usize = start;
    while i < len
        invariant
            len == s@.len(),
            start == 0 || start == 1,
            start <= i <= len,
            start == 1 ==> t == s@.subrange(1, s@.len() as int),
            start == 0 ==> t == s@,
            t == strip_sign(s@),
            forall|j: int| start <= j < i ==> is_ascii_digit_char(s@[j]),
            all_digits(t.subrange(0, i - start)),
            digits_val(t.subrange(0, i - start)) <= 0x1_0000_0000 ==> acc == digits_val(
                t.subrange(0, i - start),
            ),
            digits_val(t.subrange(0, i - start)) > 0x1_0000_0000 ==> acc > 0x1_0000_0000,
            acc <= 0xa_0000_0009,
        decreases len - i,
    {
        let c = s.get_char(i);
        if !char_is_digit(c) {
            proof {
                assert(!is_ascii_digit_char(t[i - start]));
            }
            return false;
        }
        let d: u64 = (c as u32 as u64) - 48;
        let ghost pre = t.subrange(0, i - start);
        let ghost post = t.subrange(0, i + 1 - start);
        proof {
            assert(post.drop_last() =~= pre);
            assert(post.last() == t[i - start] == s@[i as int]);
            assert(digits_val(post) == digits_val(pre) * 10 + (c as int - 48));
            lemma_digits_val_nonneg(pre);
        }
        if acc <= 0x1_0000_0000 {
            acc = acc * 10 + d;
        }
        proof {
            if digits_val(pre) > 0x1_0000_0000 {
                assert(digits_val(post) > 0x1_0000_0000);
            }
        }
        i = i + 1;
    }
    proof {
        assert(t.subrange(0, t.len() as int) =~= t);
        lemma_digits_val_nonneg(t);
    }
    if neg {
        acc <= 0x8000_0000
    } else {
        acc <= 0x7fff_ffff
    }
}

} // verus!
