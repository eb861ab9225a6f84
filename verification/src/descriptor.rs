//! The compact type-descriptor language.
//!
//! Each character of a descriptor names one positional parameter type, in
//! declaration order: `b w d q x` are the unsigned integers of 8 to 128
//! bits, `B W D Q X` the signed ones, `z`/`Z` are `usize`/`isize`, `f`/`F`
//! the 32- and 64-bit floats, `t` is `bool`, `c` is `char`, `s` a string
//! slice, and `h` a byte string written as hex digits.  The descriptor `v`,
//! alone, marks a function of no arguments.

use vstd::prelude::*;

verus! {

/// Whether `c` denotes an argument type.
pub open spec fn is_arg_code(c: char) -> bool {
    c == 'b' || c == 'w' || c == 'd' || c == 'q' || c == 'x' || c == 'B' || c == 'W' || c == 'D'
        || c == 'Q' || c == 'X' || c == 'z' || c == 'Z' || c == 'f' || c == 'F' || c == 't' || c
        == 'c' || c == 's' || c == 'h'
}

/// A well-formed descriptor: the void marker alone, or one or more argument
/// type codes.
pub open spec fn wf_descriptor(s: Seq<char>) -> bool {
    s == seq!['v'] || (s.len() >= 1 && forall|i: int| 0 <= i < s.len() ==> is_arg_code(s[i]))
}

/// The arity a descriptor demands: zero for the void marker, otherwise one
/// argument per character.
pub open spec fn arity_of(s: Seq<char>) -> int {
    if s == seq!['v'] {
        0
    } else {
        s.len() as int
    }
}

/// How many times `c` occurs in `s`.
pub open spec fn count_code(s: Seq<char>, c: char) -> int
    decreases s.len(),
{
    if s.len() == 0 {
        0
    } else {
        count_code(s.drop_last(), c) + if s.last() == c {
            1int
        } else {
            0int
        }
    }
}

/// Per-descriptor occurrence counts of each primitive type, used to size
/// fixed argument storage.
#[derive(Debug, Clone, Copy, PartialEq, Eq, Structural)]
pub struct HostCounts {
    pub u8_c: usize,
    pub u16_c: usize,
    pub u32_c: usize,
    pub u64_c: usize,
    pub u128_c: usize,
    pub i8_c: usize,
    pub i16_c: usize,
    pub i32_c: usize,
    pub i64_c: usize,
    pub i128_c: usize,
    pub usize_c: usize,
    pub isize_c: usize,
    pub f32_c: usize,
    pub f64_c: usize,
    pub bool_c: usize,
    pub char_c: usize,
    pub str_c: usize,
    pub hexstr_c: usize,
}

impl HostCounts {
    /// The all-zero count.
    pub fn zero() -> (r: HostCounts)
        ensures
            r == HostCounts::spec_zero(),
    {
        HostCounts {
            u8_c: 0,
            u16_c: 0,
            u32_c: 0,
            u64_c: 0,
            u128_c: 0,
            i8_c: 0,
            i16_c: 0,
            i32_c: 0,
            i64_c: 0,
            i128_c: 0,
            usize_c: 0,
            isize_c: 0,
            f32_c: 0,
            f64_c: 0,
            bool_c: 0,
            char_c: 0,
            str_c: 0,
            hexstr_c: 0,
        }
    }

    /// The all-zero count, as a specification value.
    pub open spec fn spec_zero() -> HostCounts {
        HostCounts {
            u8_c: 0,
            u16_c: 0,
            u32_c: 0,
            u64_c: 0,
            u128_c: 0,
            i8_c: 0,
            i16_c: 0,
            i32_c: 0,
            i64_c: 0,
            i128_c: 0,
            usize_c: 0,
            isize_c: 0,
            f32_c: 0,
            f64_c: 0,
            bool_c: 0,
            char_c: 0,
            str_c: 0,
            hexstr_c: 0,
        }
    }

    /// The counts a single descriptor induces.
    pub open spec fn spec_of(s: Seq<char>) -> HostCounts {
        HostCounts {
            u8_c: count_code(s, 'b') as usize,
            u16_c: count_code(s, 'w') as usize,
            u32_c: count_code(s, 'd') as usize,
            u64_c: count_code(s, 'q') as usize,
            u128_c: count_code(s, 'x') as usize,
            i8_c: count_code(s, 'B') as usize,
            i16_c: count_code(s, 'W') as usize,
            i32_c: count_code(s, 'D') as usize,
            i64_c: count_code(s, 'Q') as usize,
            i128_c: count_code(s, 'X') as usize,
            usize_c: count_code(s, 'z') as usize,
            isize_c: count_code(s, 'Z') as usize,
            f32_c: count_code(s, 'f') as usize,
            f64_c: count_code(s, 'F') as usize,
            bool_c: count_code(s, 't') as usize,
            char_c: count_code(s, 'c') as usize,
            str_c: count_code(s, 's') as usize,
            hexstr_c: count_code(s, 'h') as usize,
        }
    }

    /// The component-wise maximum, as a specification value.
    pub open spec fn spec_max(a: HostCounts, b: HostCounts) -> HostCounts {
        HostCounts {
            u8_c: if a.u8_c > b.u8_c { a.u8_c } else { b.u8_c },
            u16_c: if a.u16_c > b.u16_c { a.u16_c } else { b.u16_c },
            u32_c: if a.u32_c > b.u32_c { a.u32_c } else { b.u32_c },
            u64_c: if a.u64_c > b.u64_c { a.u64_c } else { b.u64_c },
            u128_c: if a.u128_c > b.u128_c { a.u128_c } else { b.u128_c },
            i8_c: if a.i8_c > b.i8_c { a.i8_c } else { b.i8_c },
            i16_c: if a.i16_c > b.i16_c { a.i16_c } else { b.i16_c },
            i32_c: if a.i32_c > b.i32_c { a.i32_c } else { b.i32_c },
            i64_c: if a.i64_c > b.i64_c { a.i64_c } else { b.i64_c },
            i128_c: if a.i128_c > b.i128_c { a.i128_c } else { b.i128_c },
            usize_c: if a.usize_c > b.usize_c { a.usize_c } else { b.usize_c },
            isize_c: if a.isize_c > b.isize_c { a.isize_c } else { b.isize_c },
            f32_c: if a.f32_c > b.f32_c { a.f32_c } else { b.f32_c },
            f64_c: if a.f64_c > b.f64_c { a.f64_c } else { b.f64_c },
            bool_c: if a.bool_c > b.bool_c { a.bool_c } else { b.bool_c },
            char_c: if a.char_c > b.char_c { a.char_c } else { b.char_c },
            str_c: if a.str_c > b.str_c { a.str_c } else { b.str_c },
            hexstr_c: if a.hexstr_c > b.hexstr_c { a.hexstr_c } else { b.hexstr_c },
        }
    }
}

/// The component-wise maximum of two counts.
pub fn host_counts_max(a: HostCounts, b: HostCounts) -> (r: HostCounts)
    ensures
        r == HostCounts::spec_max(a, b),
{
    HostCounts {
        u8_c: if a.u8_c > b.u8_c { a.u8_c } else { b.u8_c },
        u16_c: if a.u16_c > b.u16_c { a.u16_c } else { b.u16_c },
        u32_c: if a.u32_c > b.u32_c { a.u32_c } else { b.u32_c },
        u64_c: if a.u64_c > b.u64_c { a.u64_c } else { b.u64_c },
        u128_c: if a.u128_c > b.u128_c { a.u128_c } else { b.u128_c },
        i8_c: if a.i8_c > b.i8_c { a.i8_c } else { b.i8_c },
        i16_c: if a.i16_c > b.i16_c { a.i16_c } else { b.i16_c },
        i32_c: if a.i32_c > b.i32_c { a.i32_c } else { b.i32_c },
        i64_c: if a.i64_c > b.i64_c { a.i64_c } else { b.i64_c },
        i128_c: if a.i128_c > b.i128_c { a.i128_c } else { b.i128_c },
        usize_c: if a.usize_c > b.usize_c { a.usize_c } else { b.usize_c },
        isize_c: if a.isize_c > b.isize_c { a.isize_c } else { b.isize_c },
        f32_c: if a.f32_c > b.f32_c { a.f32_c } else { b.f32_c },
        f64_c: if a.f64_c > b.f64_c { a.f64_c } else { b.f64_c },
        bool_c: if a.bool_c > b.bool_c { a.bool_c } else { b.bool_c },
        char_c: if a.char_c > b.char_c { a.char_c } else { b.char_c },
        str_c: if a.str_c > b.str_c { a.str_c } else { b.str_c },
        hexstr_c: if a.hexstr_c > b.hexstr_c { a.hexstr_c } else { b.hexstr_c },
    }
}

/// Counts the occurrences of `c` among the first `n` characters of `v`.
fn count_char_upto(v: &Vec<char>, c: char, n: usize) -> (r: usize)
    requires
        n <= v@.len(),
    ensures
        r as int == count_code(v@.take(n as int), c),
{
    let mut r: usize = 0;
    let mut i: usize = 0;
    proof {
        assert(v@.take(0) =~= Seq::<char>::empty());
    }
    while i < n
        invariant
            i <= n <= v@.len(),
            r as int == count_code(v@.take(i as int), c),
            r <= i,
        decreases n - i,
    {
        proof {
            assert(v@.take(i + 1).drop_last() =~= v@.take(i as int));
            assert(v@.take(i + 1).last() == v@[i as int]);
        }
        if v[i] == c {
            r = r + 1;
        }
        i = i + 1;
    }
    r
}

/// Counts the occurrences of `c` in the whole descriptor.
fn count_char(v: &Vec<char>, c: char) -> (r: usize)
    ensures
        r as int == count_code(v@, c),
{
    let n = v.len();
    let r = count_char_upto(v, c, n);
    proof {
        assert(v@.take(v@.len() as int) =~= v@);
    }
    r
}

/// The per-type occurrence counts of one descriptor.
pub fn count_descriptor(desc: &str) -> (r: HostCounts)
    ensures
        r == HostCounts::spec_of(desc@),
{
    let v = crate::chars::str_to_chars(desc);
    HostCounts {
        u8_c: count_char(&v, 'b'),
        u16_c: count_char(&v, 'w'),
        u32_c: count_char(&v, 'd'),
        u64_c: count_char(&v, 'q'),
        u128_c: count_char(&v, 'x'),
        i8_c: count_char(&v, 'B'),
        i16_c: count_char(&v, 'W'),
        i32_c: count_char(&v, 'D'),
        i64_c: count_char(&v, 'Q'),
        i128_c: count_char(&v, 'X'),
        usize_c: count_char(&v, 'z'),
        isize_c: count_char(&v, 'Z'),
        f32_c: count_char(&v, 'f'),
        f64_c: count_char(&v, 'F'),
        bool_c: count_char(&v, 't'),
        char_c: count_char(&v, 'c'),
        str_c: count_char(&v, 's'),
        hexstr_c: count_char(&v, 'h'),
    }
}

/// Executable test matching [`is_arg_code`].
pub fn arg_code(c: char) -> (r: bool)
    ensures
        r == is_arg_code(c),
{
    c == 'b' || c == 'w' || c == 'd' || c == 'q' || c == 'x' || c == 'B' || c == 'W' || c == 'D'
        || c == 'Q' || c == 'X' || c == 'z' || c == 'Z' || c == 'f' || c == 'F' || c == 't' || c
        == 'c' || c == 's' || c == 'h'
}

/// Whether a descriptor is well formed, as executable code.
pub fn descriptor_ok(desc: &str) -> (r: bool)
    ensures
        r == wf_descriptor(desc@),
{
    let v = crate::chars::str_to_chars(desc);
    if v.len() == 1 && v[0] == 'v' {
        proof {
            assert(v@ =~= seq!['v']);
        }
        return true;
    }
    proof {
        assert(v@ != seq!['v']);
    }
    if v.len() == 0 {
        return false;
    }
    let mut i: usize = 0;
    while i < v.len()
        invariant
            v@ == desc@,
            v@ != seq!['v'],
            v@.len() >= 1,
            i <= v@.len(),
            forall|j: int| 0 <= j < i ==> is_arg_code(v@[j]),
        decreases v@.len() - i,
    {
        if !arg_code(v[i]) {
            return false;
        }
        i = i + 1;
    }
    true
}

/// The arity a descriptor demands, as executable code.
pub fn descriptor_arity(desc: &str) -> (r: usize)
    ensures
        r as int == arity_of(desc@),
{
    let v = crate::chars::str_to_chars(desc);
    if v.len() == 1 && v[0] == 'v' {
        proof {
            assert(v@ =~= seq!['v']);
        }
        0
    } else {
        proof {
            assert(v@ != seq!['v']);
        }
        v.len()
    }
}

} // verus!
