//! Syntax checking for floating-point tokens.
//!
//! The dispatcher itself never computes with floating-point values; it only
//! decides whether a token is a well-formed float literal, in the standard
//! decimal or scientific notation (optionally signed digits with at most one
//! point, an optional `e`/`E` exponent, or a case-variant spelling of `inf`,
//! `infinity` or `nan`).  The numeric value is produced by the host when the
//! registered function is invoked.

use vstd::prelude::*;
use crate::chars::str_to_chars;
use crate::scan::{all_digits, is_digit};

verus! {

/// Whether `c` is the lowercase letter `l` or its uppercase form.
pub open spec fn eq_letter(c: char, l: char) -> bool {
    c == l || c as int == l as int - 32
}

/// A case-variant spelling of `inf`.
pub open spec fn is_word_inf(s: Seq<char>) -> bool {
    s.len() == 3 && eq_letter(s[0], 'i') && eq_letter(s[1], 'n') && eq_letter(s[2], 'f')
}

/// A case-variant spelling of `infinity`.
pub open spec fn is_word_infinity(s: Seq<char>) -> bool {
    s.len() == 8 && eq_letter(s[0], 'i') && eq_letter(s[1], 'n') && eq_letter(s[2], 'f')
        && eq_letter(s[3], 'i') && eq_letter(s[4], 'n') && eq_letter(s[5], 'i') && eq_letter(
        s[6],
        't',
    ) && eq_letter(s[7], 'y')
}

/// A case-variant spelling of `nan`.
pub open spec fn is_word_nan(s: Seq<char>) -> bool {
    s.len() == 3 && eq_letter(s[0], 'n') && eq_letter(s[1], 'a') && eq_letter(s[2], 'n')
}

/// The index of the first occurrence of `a` or `b` in `s`, or `s.len()`.
pub open spec fn first_idx(s: Seq<char>, a: char, b: char) -> int
    decreases s.len(),
{
    if s.len() == 0 {
        0
    } else if s[0] == a || s[0] == b {
        0
    } else {
        1 + first_idx(s.drop_first(), a, b)
    }
}

/// The search stays between the start and the end of the text.
pub proof fn lemma_first_idx_bounds(s: Seq<char>, a: char, b: char)
    ensures
        0 <= first_idx(s, a, b) <= s.len(),
    decreases s.len(),
{
    if s.len() > 0 && s[0] != a && s[0] != b {
        lemma_first_idx_bounds(s.drop_first(), a, b);
    }
}

/// `first_idx` is the unique position with nothing matching before it and a
/// match (or the end) at it.
pub proof fn lemma_first_idx(s: Seq<char>, a: char, b: char, i: int)
    requires
        0 <= i <= s.len(),
        forall|j: int| 0 <= j < i ==> s[j] != a && s[j] != b,
        i < s.len() ==> s[i] == a || s[i] == b,
    ensures
        first_idx(s, a, b) == i,
    decreases s.len(),
{
    if s.len() > 0 && i > 0 {
        lemma_first_idx(s.drop_first(), a, b, i - 1);
    }
}

/// One or more decimal digits.
pub open spec fn is_digits(s: Seq<char>) -> bool {
    s.len() >= 1 && all_digits(s, 10)
}

/// A mantissa: decimal digits with at most one point and at least one digit.
pub open spec fn is_mantissa(s: Seq<char>) -> bool {
    let d = first_idx(s, '.', '.');
    if d == s.len() {
        is_digits(s)
    } else {
        all_digits(s.take(d), 10) && all_digits(s.skip(d + 1), 10) && (d >= 1 || s.len() >= d + 2)
    }
}

/// An exponent body: an optional sign, then one or more decimal digits.
pub open spec fn is_exp_part(s: Seq<char>) -> bool {
    let d = if s.len() >= 1 && (s[0] == '+' || s[0] == '-') {
        s.skip(1)
    } else {
        s
    };
    is_digits(d)
}

/// A number: a mantissa optionally followed by `e`/`E` and an exponent.
pub open spec fn is_number(s: Seq<char>) -> bool {
    let e = first_idx(s, 'e', 'E');
    if e == s.len() {
        is_mantissa(s)
    } else {
        is_mantissa(s.take(e)) && is_exp_part(s.skip(e + 1))
    }
}

/// Whether a token is a well-formed float literal.
pub open spec fn is_float_token(s: Seq<char>) -> bool {
    let t = if s.len() >= 1 && (s[0] == '+' || s[0] == '-') {
        s.skip(1)
    } else {
        s
    };
    is_word_inf(t) || is_word_infinity(t) || is_word_nan(t) || is_number(t)
}

/// Copies the characters of `v` between `lo` and `hi` into a new vector.
fn subvec(v: &Vec<char>, lo: usize, hi: usize) -> (r: Vec<char>)
    requires
        lo <= hi <= v@.len(),
    ensures
        r@ == v@.subrange(lo as int, hi as int),
{
    let mut r: Vec<char> = Vec::new();
    let mut i: usize = lo;
    while i < hi
        invariant
            lo <= i <= hi <= v@.len(),
            r@ == v@.subrange(lo as int, i as int),
        decreases hi - i,
    {
        r.push(v[i]);
        i = i + 1;
        proof {
            assert(r@ =~= v@.subrange(lo as int, i as int));
        }
    }
    r
}

/// Executable test matching [`eq_letter`].
fn letter(c: char, l: char) -> (r: bool)
    requires
        'a' <= l && l <= 'z',
    ensures
        r == eq_letter(c, l),
{
    c == l || c as u32 == l as u32 - 32
}

/// Whether every character of `v` is a decimal digit.
fn all_digits10(v: &Vec<char>) -> (r: bool)
    ensures
        r == all_digits(v@, 10),
{
    let mut i: usize = 0;
    while i < v.len()
        invariant
            i <= v@.len(),
            forall|j: int| 0 <= j < i ==> is_digit(v@[j], 10),
        decreases v@.len() - i,
    {
        match crate::scan::digit_in(v[i], 10) {
            Some(_) => {},
            None => {
                return false;
            },
        }
        i = i + 1;
    }
    true
}

/// The first position of `a` or `b` in `v`, or `v.len()`.
pub fn find_first(v: &Vec<char>, a: char, b: char) -> (r: usize)
    ensures
        r as int == first_idx(v@, a, b),
        r <= v@.len(),
{
    let mut i: usize = 0;
    while i < v.len()
        invariant
            i <= v@.len(),
            forall|j: int| 0 <= j < i ==> v@[j] != a && v@[j] != b,
        decreases v@.len() - i,
    {
        if v[i] == a || v[i] == b {
            proof {
                lemma_first_idx(v@, a, b, i as int);
            }
            return i;
        }
        i = i + 1;
    }
    proof {
        lemma_first_idx(v@, a, b, v@.len() as int);
    }
    v.len()
}

/// Executable test matching [`is_mantissa`].
fn mantissa_ok(v: &Vec<char>) -> (r: bool)
    ensures
        r == is_mantissa(v@),
{
    let d = find_first(v, '.', '.');
    if d == v.len() {
        v.len() >= 1 && all_digits10(v)
    } else {
        let before = subvec(v, 0, d);
        let after = subvec(v, d + 1, v.len());
        proof {
            assert(before@ =~= v@.take(d as int));
            assert(after@ =~= v@.skip(d as int + 1));
        }
        all_digits10(&before) && all_digits10(&after) && (d >= 1 || v.len() >= d + 2)
    }
}

/// Executable test matching [`is_exp_part`].
fn exp_part_ok(v: &Vec<char>) -> (r: bool)
    ensures
        r == is_exp_part(v@),
{
    let w = if v.len() >= 1 && (v[0] == '+' || v[0] == '-') {
        subvec(v, 1, v.len())
    } else {
        subvec(v, 0, v.len())
    };
    proof {
        if v@.len() >= 1 && (v@[0] == '+' || v@[0] == '-') {
            assert(w@ =~= v@.skip(1));
        } else {
            assert(w@ =~= v@);
        }
    }
    w.len() >= 1 && all_digits10(&w)
}

/// Whether the token is a well-formed float literal.
pub fn float_token_ok(s: &str) -> (r: bool)
    ensures
        r == is_float_token(s@),
{
    let v = str_to_chars(s);
    let t = if v.len() >= 1 && (v[0] == '+' || v[0] == '-') {
        subvec(&v, 1, v.len())
    } else {
        subvec(&v, 0, v.len())
    };
    proof {
        if v@.len() >= 1 && (v@[0] == '+' || v@[0] == '-') {
            assert(t@ =~= v@.skip(1));
        } else {
            assert(t@ =~= v@);
        }
    }
    if t.len() == 3 && letter(t[0], 'i') && letter(t[1], 'n') && letter(t[2], 'f') {
        return true;
    }
    if t.len() == 8 && letter(t[0], 'i') && letter(t[1], 'n') && letter(t[2], 'f') && letter(
        t[3],
        'i',
    ) && letter(t[4], 'n') && letter(t[5], 'i') && letter(t[6], 't') && letter(t[7], 'y') {
        return true;
    }
    if t.len() == 3 && letter(t[0], 'n') && letter(t[1], 'a') && letter(t[2], 'n') {
        return true;
    }
    let e = find_first(&t, 'e', 'E');
    if e == t.len() {
        mantissa_ok(&t)
    } else {
        let m = subvec(&t, 0, e);
        let x = subvec(&t, e + 1, t.len());
        proof {
            assert(m@ =~= t@.take(e as int));
            assert(x@ =~= t@.skip(e as int + 1));
        }
        mantissa_ok(&m) && exp_part_ok(&x)
    }
}

} // verus!
