//! Token-level parsers for the primitive argument types: radix-prefixed
//! integers, booleans and single characters, together with the spec-level
//! model of each numeral form.
//!
//! An integer token is trimmed, may carry a `0x`/`0X`, `0o`/`0O` or `0b`/`0B`
//! radix prefix, then an optional sign (`+` for unsigned, `+`/`-` for
//! signed), then one or more digits of the radix.

use vstd::prelude::*;
use crate::chars::{trimmed, trim_chars, str_to_chars};

verus! {

/// The numeric value of a digit character; at least 36 for characters that
/// are digits in no radix.
pub open spec fn digit_val(c: char) -> int {
    if '0' <= c && c <= '9' {
        c as int - '0' as int
    } else if 'a' <= c && c <= 'z' {
        c as int - 'a' as int + 10
    } else if 'A' <= c && c <= 'Z' {
        c as int - 'A' as int + 10
    } else {
        99
    }
}

/// Whether `c` is a digit of the given radix.
pub open spec fn is_digit(c: char, radix: int) -> bool {
    digit_val(c) < radix
}

/// Whether every character of `s` is a digit of the given radix.
pub open spec fn all_digits(s: Seq<char>, radix: int) -> bool {
    forall|i: int| 0 <= i < s.len() ==> is_digit(s[i], radix)
}

/// The value of a digit string read in the given radix.
pub open spec fn digits_val(s: Seq<char>, radix: int) -> int
    decreases s.len(),
{
    if s.len() == 0 {
        0
    } else {
        digits_val(s.drop_last(), radix) * radix + digit_val(s.last())
    }
}

/// The radix selected by a `0x`/`0o`/`0b` prefix, or 10 without one.
pub open spec fn radix_of(s: Seq<char>) -> int {
    if s.len() >= 2 && s[0] == '0' && (s[1] == 'x' || s[1] == 'X') {
        16
    } else if s.len() >= 2 && s[0] == '0' && (s[1] == 'o' || s[1] == 'O') {
        8
    } else if s.len() >= 2 && s[0] == '0' && (s[1] == 'b' || s[1] == 'B') {
        2
    } else {
        10
    }
}

/// The token with its radix prefix removed.
pub open spec fn radix_body(s: Seq<char>) -> Seq<char> {
    if radix_of(s) == 10 {
        s
    } else {
        s.skip(2)
    }
}

/// The mathematical value of an unsigned integer token (trimmed, radix
/// prefix, optional `+`, one or more digits), or `None` if malformed.
pub open spec fn unsigned_num(s0: Seq<char>) -> Option<int> {
    let s = trimmed(s0);
    let b = radix_body(s);
    let d = if b.len() >= 1 && b[0] == '+' {
        b.skip(1)
    } else {
        b
    };
    if d.len() >= 1 && all_digits(d, radix_of(s)) {
        Some(digits_val(d, radix_of(s)))
    } else {
        None
    }
}

/// The mathematical value of a signed integer token (trimmed, radix prefix,
/// optional `+`/`-`, one or more digits), or `None` if malformed.
pub open spec fn signed_num(s0: Seq<char>) -> Option<int> {
    let s = trimmed(s0);
    let b = radix_body(s);
    let neg = b.len() >= 1 && b[0] == '-';
    let d = if b.len() >= 1 && (b[0] == '+' || b[0] == '-') {
        b.skip(1)
    } else {
        b
    };
    if d.len() >= 1 && all_digits(d, radix_of(s)) {
        if neg {
            Some(-digits_val(d, radix_of(s)))
        } else {
            Some(digits_val(d, radix_of(s)))
        }
    } else {
        None
    }
}

/// What an unsigned parse returns for a token, given the type's maximum.
pub open spec fn unsigned_result(s: Seq<char>, max: int) -> Option<int> {
    match unsigned_num(s) {
        Some(v) => if v <= max {
            Some(v)
        } else {
            None
        },
        None => None,
    }
}

/// What a signed parse returns for a token, given the type's bounds.
pub open spec fn signed_result(s: Seq<char>, min: int, max: int) -> Option<int> {
    match signed_num(s) {
        Some(v) => if min <= v && v <= max {
            Some(v)
        } else {
            None
        },
        None => None,
    }
}

/// The value of digit strings is never negative.
pub proof fn lemma_digits_val_nonneg(s: Seq<char>, radix: int)
    requires
        radix >= 2,
    ensures
        digits_val(s, radix) >= 0,
    decreases s.len(),
{
    if s.len() > 0 {
        lemma_digits_val_nonneg(s.drop_last(), radix);
        assert(digits_val(s.drop_last(), radix) * radix >= 0) by (nonlinear_arith)
            requires
                digits_val(s.drop_last(), radix) >= 0,
                radix >= 2,
        ;
    }
}

/// Reading one more digit never decreases the value of a digit string.
pub proof fn lemma_digits_val_grows(s: Seq<char>, radix: int)
    requires
        radix >= 2,
        s.len() > 0,
    ensures
        digits_val(s, radix) >= digits_val(s.drop_last(), radix),
        digits_val(s, radix) >= digit_val(s.last()),
{
    lemma_digits_val_nonneg(s.drop_last(), radix);
    assert(digits_val(s.drop_last(), radix) * radix >= digits_val(s.drop_last(), radix))
        by (nonlinear_arith)
        requires
            digits_val(s.drop_last(), radix) >= 0,
            radix >= 2,
    ;
    assert(digit_val(s.last()) >= 0);
}

/// A prefix of a digit string never exceeds the whole string's value.
pub proof fn lemma_digits_val_prefix(s: Seq<char>, k: int, radix: int)
    requires
        radix >= 2,
        0 <= k <= s.len(),
    ensures
        digits_val(s.take(k), radix) <= digits_val(s, radix),
    decreases s.len() - k,
{
    if k < s.len() {
        lemma_digits_val_prefix(s, k + 1, radix);
        assert(s.take(k + 1).drop_last() =~= s.take(k));
        lemma_digits_val_grows(s.take(k + 1), radix);
    } else {
        assert(s.take(k) =~= s);
    }
}

/// The digit value of a character in the given radix, as executable code.
pub fn digit_in(c: char, radix: u32) -> (r: Option<u32>)
    requires
        2 <= radix <= 16,
    ensures
        r is Some <==> is_digit(c, radix as int),
        r matches Some(d) ==> d == digit_val(c),
{
    let u = c as u32;
    let d: u32 = if u >= 48 && u <= 57 {
        u - 48
    } else if u >= 97 && u <= 122 {
        u - 97 + 10
    } else if u >= 65 && u <= 90 {
        u - 65 + 10
    } else {
        99
    };
    if d < radix {
        Some(d)
    } else {
        None
    }
}

/// Reads the digits of `v` from `start` on in the given radix, failing on a
/// non-digit, an empty digit string, or a value above `bound`.
pub fn scan_digits(v: &Vec<char>, start: usize, radix: u32, bound: u128) -> (r: Option<u128>)
    requires
        2 <= radix <= 16,
        start <= v@.len(),
    ensures
        ({
            let d = v@.skip(start as int);
            &&& (r is Some <==> d.len() >= 1 && all_digits(d, radix as int) && digits_val(
                d,
                radix as int,
            ) <= bound)
            &&& (r matches Some(m) ==> m as int == digits_val(d, radix as int))
        }),
{
    let ghost d = v@.skip(start as int);
    if start >= v.len() {
        return None;
    }
    let mut acc: u128 = 0;
    let mut i: usize = start;
    proof {
        assert(d.take(0) =~= Seq::<char>::empty());
    }
    while i < v.len()
        invariant
            2 <= radix <= 16,
            start <= i <= v@.len(),
            d == v@.skip(start as int),
            all_digits(d.take(i - start), radix as int),
            acc as int == digits_val(d.take(i - start), radix as int),
            acc <= bound,
        decreases v@.len() - i,
    {
        let c = v[i];
        proof {
            assert(d[i - start] == v@[i as int]);
        }
        let dv = match digit_in(c, radix) {
            Some(x) => x,
            None => {
                return None;
            },
        };
        let next = match acc.checked_mul(radix as u128) {
            Some(m) => match m.checked_add(dv as u128) {
                Some(n) => Some(n),
                None => None,
            },
            None => None,
        };
        proof {
            let k = i - start;
            assert(d.take(k + 1).drop_last() =~= d.take(k));
            assert(d.take(k + 1).last() == d[k]);
            assert(digits_val(d.take(k + 1), radix as int) == digits_val(d.take(k), radix as int)
                * radix + digit_val(d[k]));
            lemma_digits_val_prefix(d, k + 1, radix as int);
        }
        let next = match next {
            Some(n) => n,
            None => {
                // The running value already exceeds `u128::MAX`, so the whole
                // digit string exceeds any representable bound.
                return None;
            },
        };
        if next > bound {
            return None;
        }
        acc = next;
        i = i + 1;
    }
    proof {
        assert(d.take(v@.len() - start) =~= d);
    }
    Some(acc)
}

/// Splits a trimmed token into its radix and the index where the digits (or
/// sign) begin.
fn read_radix(t: &Vec<char>) -> (r: (u32, usize))
    ensures
        r.0 as int == radix_of(t@),
        r.1 <= t@.len(),
        t@.skip(r.1 as int) == radix_body(t@),
        2 <= r.0 <= 16,
{
    if t.len() >= 2 && t[0] == '0' && (t[1] == 'x' || t[1] == 'X') {
        proof {
            assert(t@.skip(2) =~= radix_body(t@));
        }
        (16, 2)
    } else if t.len() >= 2 && t[0] == '0' && (t[1] == 'o' || t[1] == 'O') {
        proof {
            assert(t@.skip(2) =~= radix_body(t@));
        }
        (8, 2)
    } else if t.len() >= 2 && t[0] == '0' && (t[1] == 'b' || t[1] == 'B') {
        proof {
            assert(t@.skip(2) =~= radix_body(t@));
        }
        (2, 2)
    } else {
        proof {
            assert(t@.skip(0) =~= t@);
        }
        (10, 0)
    }
}

/// Parses an unsigned integer token, accepting values up to `bound`.
pub fn scan_unsigned(v: &Vec<char>, bound: u128) -> (r: Option<u128>)
    ensures
        r is Some <==> unsigned_result(v@, bound as int) is Some,
        r matches Some(m) ==> Some(m as int) == unsigned_result(v@, bound as int),
{
    let t = trim_chars(v);
    let (radix, mut k) = read_radix(&t);
    let ghost b = radix_body(t@);
    if k < t.len() && t[k] == '+' {
        k = k + 1;
    }
    proof {
        if b.len() >= 1 && b[0] == '+' {
            assert(t@.skip(k as int) =~= b.skip(1));
        } else {
            assert(t@.skip(k as int) =~= b);
        }
    }
    scan_digits(&t, k, radix, bound)
}

/// Parses a signed integer token; accepts magnitudes up to `pos_bound` when
/// non-negative and up to `neg_bound` when negative.
pub fn scan_signed(v: &Vec<char>, neg_bound: u128, pos_bound: u128) -> (r: Option<(bool, u128)>)
    ensures
        ({
            let n = signed_num(v@);
            &&& (r is Some <==> (n matches Some(x) && -(neg_bound as int) <= x <= pos_bound as int))
            &&& (r matches Some((neg, m)) ==> {
                &&& n is Some
                &&& (if neg {
                    n->0 == -(m as int)
                } else {
                    n->0 == m as int
                })
                &&& m <= (if neg {
                    neg_bound
                } else {
                    pos_bound
                })
            })
        }),
{
    let t = trim_chars(v);
    let (radix, mut k) = read_radix(&t);
    let ghost b = radix_body(t@);
    let mut neg = false;
    if k < t.len() && t[k] == '+' {
        k = k + 1;
    } else if k < t.len() && t[k] == '-' {
        neg = true;
        k = k + 1;
    }
    proof {
        if b.len() >= 1 && (b[0] == '+' || b[0] == '-') {
            assert(t@.skip(k as int) =~= b.skip(1));
        } else {
            assert(t@.skip(k as int) =~= b);
        }
    }
    let bound = if neg {
        neg_bound
    } else {
        pos_bound
    };
    match scan_digits(&t, k, radix, bound) {
        Some(m) => Some((neg, m)),
        None => None,
    }
}

/// Whether two character vectors hold the same characters.
pub fn chars_eq(v: &Vec<char>, w: &Vec<char>) -> (r: bool)
    ensures
        r == (v@ == w@),
{
    if v.len() != w.len() {
        return false;
    }
    let mut i: usize = 0;
    while i < v.len()
        invariant
            v@.len() == w@.len(),
            i <= v@.len(),
            forall|j: int| 0 <= j < i ==> v@[j] == w@[j],
        decreases v@.len() - i,
    {
        if v[i] != w[i] {
            return false;
        }
        i = i + 1;
    }
    proof {
        assert(v@ =~= w@);
    }
    true
}

/// The value of a plain decimal numeral (an optional `+`, then digits),
/// with no trimming and no radix prefixes.
pub open spec fn decimal_num(s: Seq<char>) -> Option<int> {
    let d = if s.len() >= 1 && s[0] == '+' {
        s.skip(1)
    } else {
        s
    };
    if d.len() >= 1 && all_digits(d, 10) {
        Some(digits_val(d, 10))
    } else {
        None
    }
}

/// Parses a plain decimal index.
pub fn parse_index(s: &str) -> (r: Option<usize>)
    ensures
        r is Some <==> (decimal_num(s@) matches Some(v) && v <= usize::MAX),
        r matches Some(m) ==> Some(m as int) == decimal_num(s@),
{
    let v = str_to_chars(s);
    let mut k: usize = 0;
    if v.len() >= 1 && v[0] == '+' {
        k = 1;
    }
    proof {
        if v@.len() >= 1 && v@[0] == '+' {
            assert(v@.skip(1) =~= v@.skip(k as int));
        } else {
            assert(v@.skip(0) =~= v@);
        }
    }
    match scan_digits(&v, k, 10, usize::MAX as u128) {
        Some(m) => Some(m as usize),
        None => None,
    }
}

/// Whether two string slices hold the same characters.
pub fn str_eq(a: &str, b: &str) -> (r: bool)
    ensures
        r == (a@ == b@),
{
    chars_eq(&str_to_chars(a), &str_to_chars(b))
}

/// What a boolean parse returns: case-variant spellings of `true`/`false`
/// and the literals `1`/`0`, with no trimming.
pub open spec fn spec_parse_bool(s: Seq<char>) -> Option<bool> {
    if s == "1"@ || s == "true"@ || s == "True"@ || s == "TRUE"@ {
        Some(true)
    } else if s == "0"@ || s == "false"@ || s == "False"@ || s == "FALSE"@ {
        Some(false)
    } else {
        None
    }
}

/// Parses a boolean token.
pub fn parse_bool(s: &str) -> (r: Option<bool>)
    ensures
        r == spec_parse_bool(s@),
{
    let v = str_to_chars(s);
    if chars_eq(&v, &str_to_chars("1")) || chars_eq(&v, &str_to_chars("true")) || chars_eq(
        &v,
        &str_to_chars("True"),
    ) || chars_eq(&v, &str_to_chars("TRUE")) {
        Some(true)
    } else if chars_eq(&v, &str_to_chars("0")) || chars_eq(&v, &str_to_chars("false")) || chars_eq(
        &v,
        &str_to_chars("False"),
    ) || chars_eq(&v, &str_to_chars("FALSE")) {
        Some(false)
    } else {
        None
    }
}

/// Parses a `u8` token.
pub fn parse_u8(s: &str) -> (r: Option<u8>)
    ensures
        r is Some <==> unsigned_result(s@, u8::MAX as int) is Some,
        r matches Some(m) ==> Some(m as int) == unsigned_result(s@, u8::MAX as int),
{
    match scan_unsigned(&str_to_chars(s), u8::MAX as u128) {
        Some(m) => Some(m as u8),
        None => None,
    }
}

/// Parses a `u16` token.
pub fn parse_u16(s: &str) -> (r: Option<u16>)
    ensures
        r is Some <==> unsigned_result(s@, u16::MAX as int) is Some,
        r matches Some(m) ==> Some(m as int) == unsigned_result(s@, u16::MAX as int),
{
    match scan_unsigned(&str_to_chars(s), u16::MAX as u128) {
        Some(m) => Some(m as u16),
        None => None,
    }
}

/// Parses a `u32` token.
pub fn parse_u32(s: &str) -> (r: Option<u32>)
    ensures
        r is Some <==> unsigned_result(s@, u32::MAX as int) is Some,
        r matches Some(m) ==> Some(m as int) == unsigned_result(s@, u32::MAX as int),
{
    match scan_unsigned(&str_to_chars(s), u32::MAX as u128) {
        Some(m) => Some(m as u32),
        None => None,
    }
}

/// Parses a `u64` token.
pub fn parse_u64(s: &str) -> (r: Option<u64>)
    ensures
        r is Some <==> unsigned_result(s@, u64::MAX as int) is Some,
        r matches Some(m) ==> Some(m as int) == unsigned_result(s@, u64::MAX as int),
{
    match scan_unsigned(&str_to_chars(s), u64::MAX as u128) {
        Some(m) => Some(m as u64),
        None => None,
    }
}

/// Parses a `u128` token.
pub fn parse_u128(s: &str) -> (r: Option<u128>)
    ensures
        r is Some <==> unsigned_result(s@, u128::MAX as int) is Some,
        r matches Some(m) ==> Some(m as int) == unsigned_result(s@, u128::MAX as int),
{
    scan_unsigned(&str_to_chars(s), u128::MAX)
}

/// Parses a `usize` token.
pub fn parse_usize(s: &str) -> (r: Option<usize>)
    ensures
        r is Some <==> unsigned_result(s@, usize::MAX as int) is Some,
        r matches Some(m) ==> Some(m as int) == unsigned_result(s@, usize::MAX as int),
{
    match scan_unsigned(&str_to_chars(s), usize::MAX as u128) {
        Some(m) => Some(m as usize),
        None => None,
    }
}

/// Turns the sign-and-magnitude result of [`scan_signed`] into an `i128`.
fn signed_of(neg: bool, m: u128) -> (r: i128)
    requires
        neg ==> m <= i128::MAX as u128 + 1,
        !neg ==> m <= i128::MAX as u128,
    ensures
        r as int == if neg {
            -(m as int)
        } else {
            m as int
        },
{
    if neg {
        if m == 0 {
            0
        } else {
            -((m - 1) as i128) - 1
        }
    } else {
        m as i128
    }
}

/// Parses an `i8` token.
pub fn parse_i8(s: &str) -> (r: Option<i8>)
    ensures
        r is Some <==> signed_result(s@, i8::MIN as int, i8::MAX as int) is Some,
        r matches Some(m) ==> Some(m as int) == signed_result(s@, i8::MIN as int, i8::MAX as int),
{
    match scan_signed(&str_to_chars(s), 128, 127) {
        Some((neg, m)) => Some(signed_of(neg, m) as i8),
        None => None,
    }
}

/// Parses an `i16` token.
pub fn parse_i16(s: &str) -> (r: Option<i16>)
    ensures
        r is Some <==> signed_result(s@, i16::MIN as int, i16::MAX as int) is Some,
        r matches Some(m) ==> Some(m as int) == signed_result(s@, i16::MIN as int, i16::MAX as int),
{
    match scan_signed(&str_to_chars(s), 0x8000, 0x7fff) {
        Some((neg, m)) => Some(signed_of(neg, m) as i16),
        None => None,
    }
}

/// Parses an `i32` token.
pub fn parse_i32(s: &str) -> (r: Option<i32>)
    ensures
        r is Some <==> signed_result(s@, i32::MIN as int, i32::MAX as int) is Some,
        r matches Some(m) ==> Some(m as int) == signed_result(s@, i32::MIN as int, i32::MAX as int),
{
    match scan_signed(&str_to_chars(s), 0x8000_0000, 0x7fff_ffff) {
        Some((neg, m)) => Some(signed_of(neg, m) as i32),
        None => None,
    }
}

/// Parses an `i64` token.
pub fn parse_i64(s: &str) -> (r: Option<i64>)
    ensures
        r is Some <==> signed_result(s@, i64::MIN as int, i64::MAX as int) is Some,
        r matches Some(m) ==> Some(m as int) == signed_result(s@, i64::MIN as int, i64::MAX as int),
{
    match scan_signed(&str_to_chars(s), 0x8000_0000_0000_0000, 0x7fff_ffff_ffff_ffff) {
        Some((neg, m)) => Some(signed_of(neg, m) as i64),
        None => None,
    }
}

/// Parses an `i128` token.
pub fn parse_i128(s: &str) -> (r: Option<i128>)
    ensures
        r is Some <==> signed_result(s@, i128::MIN as int, i128::MAX as int) is Some,
        r matches Some(m) ==> Some(m as int) == signed_result(
            s@,
            i128::MIN as int,
            i128::MAX as int,
        ),
{
    match scan_signed(&str_to_chars(s), i128::MAX as u128 + 1, i128::MAX as u128) {
        Some((neg, m)) => Some(signed_of(neg, m)),
        None => None,
    }
}

/// Parses an `isize` token.
pub fn parse_isize(s: &str) -> (r: Option<isize>)
    ensures
        r is Some <==> signed_result(s@, isize::MIN as int, isize::MAX as int) is Some,
        r matches Some(m) ==> Some(m as int) == signed_result(
            s@,
            isize::MIN as int,
            isize::MAX as int,
        ),
{
    match scan_signed(&str_to_chars(s), isize::MAX as u128 + 1, isize::MAX as u128) {
        Some((neg, m)) => Some(signed_of(neg, m) as isize),
        None => None,
    }
}

/// What a character parse returns: the token's single character, or `None`
/// if the token has any other length.
pub open spec fn spec_parse_char(s: Seq<char>) -> Option<char> {
    if s.len() == 1 {
        Some(s[0])
    } else {
        None
    }
}

/// Parses a character token.
pub fn parse_char(s: &str) -> (r: Option<char>)
    ensures
        r == spec_parse_char(s@),
{
    let v = str_to_chars(s);
    if v.len() == 1 {
        Some(v[0])
    } else {
        None
    }
}

/// The bytes encoded by an even-length string of hex digits, two digits per
/// byte.
pub open spec fn hex_decoded(s: Seq<char>) -> Seq<u8> {
    Seq::new((s.len() / 2) as nat, |i: int| (digit_val(s[2 * i]) * 16 + digit_val(s[2 * i + 1])) as u8)
}

/// What a hex byte-string parse returns: the decoded bytes for a non-empty,
/// even-length, all-hex token of at most `max_bytes` bytes.
pub open spec fn spec_parse_hex(s: Seq<char>, max_bytes: int) -> Option<Seq<u8>> {
    if s.len() >= 1 && s.len() % 2 == 0 && s.len() / 2 <= max_bytes && all_digits(s, 16) {
        Some(hex_decoded(s))
    } else {
        None
    }
}

/// Parses a hex byte-string token of at most `max_bytes` decoded bytes.
pub fn parse_hex(s: &str, max_bytes: usize) -> (r: Option<Vec<u8>>)
    ensures
        r is Some <==> spec_parse_hex(s@, max_bytes as int) is Some,
        r matches Some(v) ==> Some(v@) == spec_parse_hex(s@, max_bytes as int),
{
    let v = str_to_chars(s);
    if v.len() == 0 || v.len() % 2 != 0 || v.len() / 2 > max_bytes {
        return None;
    }
    let mut out: Vec<u8> = Vec::new();
    let mut i: usize = 0;
    while i < v.len()
        invariant
            v@ == s@,
            i <= v@.len(),
            i % 2 == 0,
            v@.len() % 2 == 0,
            v@.len() >= 1,
            v@.len() / 2 <= max_bytes,
            forall|j: int| 0 <= j < i ==> is_digit(v@[j], 16),
            out@.len() == i / 2,
            forall|k: int|
                0 <= k < out@.len() ==> out@[k] == (digit_val(v@[2 * k]) * 16 + digit_val(
                    v@[2 * k + 1],
                )) as u8,
        decreases v@.len() - i,
    {
        let hi = match digit_in(v[i], 16) {
            Some(d) => d,
            None => {
                proof {
                    assert(!is_digit(v@[i as int], 16));
                    assert(!all_digits(v@, 16));
                }
                return None;
            },
        };
        let lo = match digit_in(v[i + 1], 16) {
            Some(d) => d,
            None => {
                proof {
                    assert(!is_digit(v@[i as int + 1], 16));
                    assert(!all_digits(v@, 16));
                }
                return None;
            },
        };
        out.push((hi * 16 + lo) as u8);
        i = i + 2;
    }
    proof {
        assert(out@ =~= hex_decoded(v@));
    }
    Some(out)
}

} // verus!
