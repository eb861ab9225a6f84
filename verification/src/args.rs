//! The per-dispatch argument storage and the descriptor-driven parser that
//! fills it.
//!
//! For each argument position the descriptor names a type; the parser
//! checks the corresponding token against that type's format and appends
//! the value to the store's array for that type.  Floating-point arguments
//! are kept as their (syntax-checked) tokens: the host turns them into
//! numbers at invocation time.

use vstd::prelude::*;
use crate::DispatchError;
use crate::chars::str_to_chars;
use crate::descriptor::is_arg_code;
use crate::float::is_float_token;
use crate::scan::{
    unsigned_result, signed_result, spec_parse_bool, spec_parse_char, spec_parse_hex, parse_u8,
    parse_u16, parse_u32, parse_u64, parse_u128, parse_usize, parse_i8, parse_i16, parse_i32,
    parse_i64, parse_i128, parse_isize, parse_bool, parse_char, parse_hex,
};
use crate::float::float_token_ok;

verus! {

/// The views of a vector of tokens.
pub open spec fn views_of(ts: Seq<String>) -> Seq<Seq<char>> {
    ts.map_values(|t: String| t@)
}

/// Whether token `t` is acceptable for type code `c`.
pub open spec fn token_ok(c: char, t: Seq<char>, max_hex: int) -> bool {
    if c == 'b' {
        unsigned_result(t, u8::MAX as int) is Some
    } else if c == 'w' {
        unsigned_result(t, u16::MAX as int) is Some
    } else if c == 'd' {
        unsigned_result(t, u32::MAX as int) is Some
    } else if c == 'q' {
        unsigned_result(t, u64::MAX as int) is Some
    } else if c == 'x' {
        unsigned_result(t, u128::MAX as int) is Some
    } else if c == 'z' {
        unsigned_result(t, usize::MAX as int) is Some
    } else if c == 'B' {
        signed_result(t, i8::MIN as int, i8::MAX as int) is Some
    } else if c == 'W' {
        signed_result(t, i16::MIN as int, i16::MAX as int) is Some
    } else if c == 'D' {
        signed_result(t, i32::MIN as int, i32::MAX as int) is Some
    } else if c == 'Q' {
        signed_result(t, i64::MIN as int, i64::MAX as int) is Some
    } else if c == 'X' {
        signed_result(t, i128::MIN as int, i128::MAX as int) is Some
    } else if c == 'Z' {
        signed_result(t, isize::MIN as int, isize::MAX as int) is Some
    } else if c == 'f' || c == 'F' {
        is_float_token(t)
    } else if c == 't' {
        spec_parse_bool(t) is Some
    } else if c == 'c' {
        spec_parse_char(t) is Some
    } else if c == 'h' {
        spec_parse_hex(t, max_hex) is Some
    } else {
        true
    }
}

/// The error reported when a token fails its type's format.
pub open spec fn err_for(c: char) -> DispatchError {
    if c == 'b' || c == 'w' || c == 'd' || c == 'q' || c == 'x' || c == 'z' {
        DispatchError::BadUnsigned
    } else if c == 'B' || c == 'W' || c == 'D' || c == 'Q' || c == 'X' || c == 'Z' {
        DispatchError::BadSigned
    } else if c == 'f' || c == 'F' {
        DispatchError::BadFloat
    } else if c == 't' {
        DispatchError::BadBool
    } else if c == 'c' {
        DispatchError::BadChar
    } else {
        DispatchError::BadHexStr
    }
}

/// Whether every token is acceptable for its position's type code.
pub open spec fn args_ok(d: Seq<char>, ts: Seq<Seq<char>>, max_hex: int) -> bool {
    forall|i: int| 0 <= i < d.len() ==> #[trigger] token_ok(d[i], ts[i], max_hex)
}

/// The first position whose token fails, or `d.len()` if none does.
pub open spec fn first_bad(d: Seq<char>, ts: Seq<Seq<char>>, max_hex: int, i: int) -> int
    decreases d.len() - i when 0 <= i
{
    if i >= d.len() {
        d.len() as int
    } else if !token_ok(d[i], ts[i], max_hex) {
        i
    } else {
        first_bad(d, ts, max_hex, i + 1)
    }
}

/// `first_bad` is the unique first failing position.
pub proof fn lemma_first_bad_is(d: Seq<char>, ts: Seq<Seq<char>>, max_hex: int, i: int, j: int)
    requires
        0 <= i <= j <= d.len(),
        forall|k: int| i <= k < j ==> #[trigger] token_ok(d[k], ts[k], max_hex),
        j < d.len() ==> !token_ok(d[j], ts[j], max_hex),
    ensures
        first_bad(d, ts, max_hex, i) == j,
    decreases j - i,
{
    if i < j {
        lemma_first_bad_is(d, ts, max_hex, i + 1, j);
    }
}

/// The tokens standing at the positions that carry type code `c`, in order.
pub open spec fn toks_for(d: Seq<char>, ts: Seq<Seq<char>>, c: char) -> Seq<Seq<char>>
    decreases d.len(),
{
    if d.len() == 0 || d.len() != ts.len() {
        Seq::empty()
    } else if d.last() == c {
        toks_for(d.drop_last(), ts.drop_last(), c).push(ts.last())
    } else {
        toks_for(d.drop_last(), ts.drop_last(), c)
    }
}

/// Extending the handled prefix by one position extends exactly the lists
/// of the type code at that position.
pub proof fn lemma_toks_for_step(d: Seq<char>, ts: Seq<Seq<char>>, i: int)
    requires
        0 <= i < d.len(),
        d.len() == ts.len(),
    ensures
        forall|c: char|
            #[trigger] toks_for(d.take(i + 1), ts.take(i + 1), c) == if d[i] == c {
                toks_for(d.take(i), ts.take(i), c).push(ts[i])
            } else {
                toks_for(d.take(i), ts.take(i), c)
            },
{
    assert forall|c: char|
        #[trigger] toks_for(d.take(i + 1), ts.take(i + 1), c) == if d[i] == c {
            toks_for(d.take(i), ts.take(i), c).push(ts[i])
        } else {
            toks_for(d.take(i), ts.take(i), c)
        } by {
        assert(d.take(i + 1).drop_last() =~= d.take(i));
        assert(ts.take(i + 1).drop_last() =~= ts.take(i));
        assert(d.take(i + 1).last() == d[i]);
        assert(ts.take(i + 1).last() == ts[i]);
    }
}

/// Fixed-shape storage for one dispatch call's parsed arguments: one array
/// per primitive type, filled in descriptor order.
pub struct ArgStore {
    pub u8s: Vec<u8>,
    pub u16s: Vec<u16>,
    pub u32s: Vec<u32>,
    pub u64s: Vec<u64>,
    pub u128s: Vec<u128>,
    pub i8s: Vec<i8>,
    pub i16s: Vec<i16>,
    pub i32s: Vec<i32>,
    pub i64s: Vec<i64>,
    pub i128s: Vec<i128>,
    pub usizes: Vec<usize>,
    pub isizes: Vec<isize>,
    /// Syntax-checked float tokens, for the host to evaluate.
    pub f32_toks: Vec<String>,
    /// Syntax-checked float tokens, for the host to evaluate.
    pub f64_toks: Vec<String>,
    pub bools: Vec<bool>,
    pub chars: Vec<char>,
    pub strs: Vec<String>,
    pub hexes: Vec<Vec<u8>>,
}

impl ArgStore {
    /// An empty store.
    pub fn new() -> (r: ArgStore)
        ensures
            r.models(Seq::<char>::empty(), Seq::<Seq<char>>::empty(), 0),
    {
        let r = ArgStore {
            u8s: Vec::new(),
            u16s: Vec::new(),
            u32s: Vec::new(),
            u64s: Vec::new(),
            u128s: Vec::new(),
            i8s: Vec::new(),
            i16s: Vec::new(),
            i32s: Vec::new(),
            i64s: Vec::new(),
            i128s: Vec::new(),
            usizes: Vec::new(),
            isizes: Vec::new(),
            f32_toks: Vec::new(),
            f64_toks: Vec::new(),
            bools: Vec::new(),
            chars: Vec::new(),
            strs: Vec::new(),
            hexes: Vec::new(),
        };
        r
    }

    /// The store holds exactly the parsed values of the tokens of
    /// descriptor `d`, type by type and in order.
    pub open spec fn models(self, d: Seq<char>, ts: Seq<Seq<char>>, max_hex: int) -> bool {
        &&& self.u8s@.len() == toks_for(d, ts, 'b').len()
        &&& forall|k: int|
            0 <= k < self.u8s@.len() ==> Some(#[trigger] self.u8s@[k] as int) == unsigned_result(
                toks_for(d, ts, 'b')[k],
                u8::MAX as int,
            )
        &&& self.u16s@.len() == toks_for(d, ts, 'w').len()
        &&& forall|k: int|
            0 <= k < self.u16s@.len() ==> Some(#[trigger] self.u16s@[k] as int) == unsigned_result(
                toks_for(d, ts, 'w')[k],
                u16::MAX as int,
            )
        &&& self.u32s@.len() == toks_for(d, ts, 'd').len()
        &&& forall|k: int|
            0 <= k < self.u32s@.len() ==> Some(#[trigger] self.u32s@[k] as int) == unsigned_result(
                toks_for(d, ts, 'd')[k],
                u32::MAX as int,
            )
        &&& self.u64s@.len() == toks_for(d, ts, 'q').len()
        &&& forall|k: int|
            0 <= k < self.u64s@.len() ==> Some(#[trigger] self.u64s@[k] as int) == unsigned_result(
                toks_for(d, ts, 'q')[k],
                u64::MAX as int,
            )
        &&& self.u128s@.len() == toks_for(d, ts, 'x').len()
        &&& forall|k: int|
            0 <= k < self.u128s@.len() ==> Some(#[trigger] self.u128s@[k] as int)
                == unsigned_result(toks_for(d, ts, 'x')[k], u128::MAX as int)
        &&& self.usizes@.len() == toks_for(d, ts, 'z').len()
        &&& forall|k: int|
            0 <= k < self.usizes@.len() ==> Some(#[trigger] self.usizes@[k] as int)
                == unsigned_result(toks_for(d, ts, 'z')[k], usize::MAX as int)
        &&& self.i8s@.len() == toks_for(d, ts, 'B').len()
        &&& forall|k: int|
            0 <= k < self.i8s@.len() ==> Some(#[trigger] self.i8s@[k] as int) == signed_result(
                toks_for(d, ts, 'B')[k],
                i8::MIN as int,
                i8::MAX as int,
            )
        &&& self.i16s@.len() == toks_for(d, ts, 'W').len()
        &&& forall|k: int|
            0 <= k < self.i16s@.len() ==> Some(#[trigger] self.i16s@[k] as int) == signed_result(
                toks_for(d, ts, 'W')[k],
                i16::MIN as int,
                i16::MAX as int,
            )
        &&& self.i32s@.len() == toks_for(d, ts, 'D').len()
        &&& forall|k: int|
            0 <= k < self.i32s@.len() ==> Some(#[trigger] self.i32s@[k] as int) == signed_result(
                toks_for(d, ts, 'D')[k],
                i32::MIN as int,
                i32::MAX as int,
            )
        &&& self.i64s@.len() == toks_for(d, ts, 'Q').len()
        &&& forall|k: int|
            0 <= k < self.i64s@.len() ==> Some(#[trigger] self.i64s@[k] as int) == signed_result(
                toks_for(d, ts, 'Q')[k],
                i64::MIN as int,
                i64::MAX as int,
            )
        &&& self.i128s@.len() == toks_for(d, ts, 'X').len()
        &&& forall|k: int|
            0 <= k < self.i128s@.len() ==> Some(#[trigger] self.i128s@[k] as int) == signed_result(
                toks_for(d, ts, 'X')[k],
                i128::MIN as int,
                i128::MAX as int,
            )
        &&& self.isizes@.len() == toks_for(d, ts, 'Z').len()
        &&& forall|k: int|
            0 <= k < self.isizes@.len() ==> Some(#[trigger] self.isizes@[k] as int)
                == signed_result(toks_for(d, ts, 'Z')[k], isize::MIN as int, isize::MAX as int)
        &&& self.f32_toks@.len() == toks_for(d, ts, 'f').len()
        &&& forall|k: int|
            0 <= k < self.f32_toks@.len() ==> #[trigger] self.f32_toks@[k]@ == toks_for(
                d,
                ts,
                'f',
            )[k] && is_float_token(self.f32_toks@[k]@)
        &&& self.f64_toks@.len() == toks_for(d, ts, 'F').len()
        &&& forall|k: int|
            0 <= k < self.f64_toks@.len() ==> #[trigger] self.f64_toks@[k]@ == toks_for(
                d,
                ts,
                'F',
            )[k] && is_float_token(self.f64_toks@[k]@)
        &&& self.bools@.len() == toks_for(d, ts, 't').len()
        &&& forall|k: int|
            0 <= k < self.bools@.len() ==> Some(#[trigger] self.bools@[k]) == spec_parse_bool(
                toks_for(d, ts, 't')[k],
            )
        &&& self.chars@.len() == toks_for(d, ts, 'c').len()
        &&& forall|k: int|
            0 <= k < self.chars@.len() ==> Some(#[trigger] self.chars@[k]) == spec_parse_char(
                toks_for(d, ts, 'c')[k],
            )
        &&& self.strs@.len() == toks_for(d, ts, 's').len()
        &&& forall|k: int|
            0 <= k < self.strs@.len() ==> #[trigger] self.strs@[k]@ == toks_for(d, ts, 's')[k]
        &&& self.hexes@.len() == toks_for(d, ts, 'h').len()
        &&& forall|k: int|
            0 <= k < self.hexes@.len() ==> Some(#[trigger] self.hexes@[k]@) == spec_parse_hex(
                toks_for(d, ts, 'h')[k],
                max_hex,
            )
    }
}

/// Parses the argument tokens of one call according to a descriptor.
///
/// Consumes exactly one token per descriptor character, in order, and fills
/// a fresh store.  On the first token that fails its type's format, returns
/// that type's error.
pub fn parse_args(desc: &str, args: &Vec<String>, max_hex: usize) -> (r: Result<
    ArgStore,
    DispatchError,
>)
    requires
        forall|i: int| 0 <= i < desc@.len() ==> is_arg_code(#[trigger] desc@[i]),
        args@.len() == desc@.len(),
    ensures
        ({
            let d = desc@;
            let ts = views_of(args@);
            match r {
                Ok(store) => args_ok(d, ts, max_hex as int) && store.models(d, ts, max_hex as int),
                Err(e) => !args_ok(d, ts, max_hex as int) && e == err_for(
                    d[first_bad(d, ts, max_hex as int, 0)],
                ),
            }
        }),
{
    let dv = str_to_chars(desc);
    let ghost d = desc@;
    let ghost ts = views_of(args@);
    let mut store = ArgStore::new();
    let mut i: usize = 0;
    proof {
        assert(d.take(0) =~= Seq::<char>::empty());
        assert(ts.take(0) =~= Seq::<Seq<char>>::empty());
        assert(ts.len() == args@.len());
    }
    while i < dv.len()
        invariant
            dv@ == d,
            d == desc@,
            ts == views_of(args@),
            d.len() == ts.len(),
            args@.len() == d.len(),
            forall|j: int| 0 <= j < d.len() ==> is_arg_code(#[trigger] d[j]),
            i <= d.len(),
            forall|k: int| 0 <= k < i ==> #[trigger] token_ok(d[k], ts[k], max_hex as int),
            store.models(d.take(i as int), ts.take(i as int), max_hex as int),
        decreases dv@.len() - i,
    {
        let c = dv[i];
        let tok: &String = &args[i];
        proof {
            assert(ts[i as int] == tok@);
            lemma_toks_for_step(d, ts, i as int);
        }
        if c == 'b' {
            match parse_u8(tok.as_str()) {
                Some(x) => store.u8s.push(x),
                None => {
                    proof {
                        lemma_first_bad_is(d, ts, max_hex as int, 0, i as int);
                    }
                    return Err(DispatchError::BadUnsigned);
                },
            }
        } else if c == 'w' {
            match parse_u16(tok.as_str()) {
                Some(x) => store.u16s.push(x),
                None => {
                    proof {
                        lemma_first_bad_is(d, ts, max_hex as int, 0, i as int);
                    }
                    return Err(DispatchError::BadUnsigned);
                },
            }
        } else if c == 'd' {
            match parse_u32(tok.as_str()) {
                Some(x) => store.u32s.push(x),
                None => {
                    proof {
                        lemma_first_bad_is(d, ts, max_hex as int, 0, i as int);
                    }
                    return Err(DispatchError::BadUnsigned);
                },
            }
        } else if c == 'q' {
            match parse_u64(tok.as_str()) {
                Some(x) => store.u64s.push(x),
                None => {
                    proof {
                        lemma_first_bad_is(d, ts, max_hex as int, 0, i as int);
                    }
                    return Err(DispatchError::BadUnsigned);
                },
            }
        } else if c == 'x' {
            match parse_u128(tok.as_str()) {
                Some(x) => store.u128s.push(x),
                None => {
                    proof {
                        lemma_first_bad_is(d, ts, max_hex as int, 0, i as int);
                    }
                    return Err(DispatchError::BadUnsigned);
                },
            }
        } else if c == 'z' {
            match parse_usize(tok.as_str()) {
                Some(x) => store.usizes.push(x),
                None => {
                    proof {
                        lemma_first_bad_is(d, ts, max_hex as int, 0, i as int);
                    }
                    return Err(DispatchError::BadUnsigned);
                },
            }
        } else if c == 'B' {
            match parse_i8(tok.as_str()) {
                Some(x) => store.i8s.push(x),
                None => {
                    proof {
                        lemma_first_bad_is(d, ts, max_hex as int, 0, i as int);
                    }
                    return Err(DispatchError::BadSigned);
                },
            }
        } else if c == 'W' {
            match parse_i16(tok.as_str()) {
                Some(x) => store.i16s.push(x),
                None => {
                    proof {
                        lemma_first_bad_is(d, ts, max_hex as int, 0, i as int);
                    }
                    return Err(DispatchError::BadSigned);
                },
            }
        } else if c == 'D' {
            match parse_i32(tok.as_str()) {
                Some(x) => store.i32s.push(x),
                None => {
                    proof {
                        lemma_first_bad_is(d, ts, max_hex as int, 0, i as int);
                    }
                    return Err(DispatchError::BadSigned);
                },
            }
        } else if c == 'Q' {
            match parse_i64(tok.as_str()) {
                Some(x) => store.i64s.push(x),
                None => {
                    proof {
                        lemma_first_bad_is(d, ts, max_hex as int, 0, i as int);
                    }
                    return Err(DispatchError::BadSigned);
                },
            }
        } else if c == 'X' {
            match parse_i128(tok.as_str()) {
                Some(x) => store.i128s.push(x),
                None => {
                    proof {
                        lemma_first_bad_is(d, ts, max_hex as int, 0, i as int);
                    }
                    return Err(DispatchError::BadSigned);
                },
            }
        } else if c == 'Z' {
            match parse_isize(tok.as_str()) {
                Some(x) => store.isizes.push(x),
                None => {
                    proof {
                        lemma_first_bad_is(d, ts, max_hex as int, 0, i as int);
                    }
                    return Err(DispatchError::BadSigned);
                },
            }
        } else if c == 'f' {
            if float_token_ok(tok.as_str()) {
                store.f32_toks.push(tok.clone());
            } else {
                proof {
                    lemma_first_bad_is(d, ts, max_hex as int, 0, i as int);
                }
                return Err(DispatchError::BadFloat);
            }
        } else if c == 'F' {
            if float_token_ok(tok.as_str()) {
                store.f64_toks.push(tok.clone());
            } else {
                proof {
                    lemma_first_bad_is(d, ts, max_hex as int, 0, i as int);
                }
                return Err(DispatchError::BadFloat);
            }
        } else if c == 't' {
            match parse_bool(tok.as_str()) {
                Some(x) => store.bools.push(x),
                None => {
                    proof {
                        lemma_first_bad_is(d, ts, max_hex as int, 0, i as int);
                    }
                    return Err(DispatchError::BadBool);
                },
            }
        } else if c == 'c' {
            match parse_char(tok.as_str()) {
                Some(x) => store.chars.push(x),
                None => {
                    proof {
                        lemma_first_bad_is(d, ts, max_hex as int, 0, i as int);
                    }
                    return Err(DispatchError::BadChar);
                },
            }
        } else if c == 's' {
            store.strs.push(tok.clone());
        } else {
            proof {
                assert(d[i as int] == 'h');
            }
            match parse_hex(tok.as_str(), max_hex) {
                Some(x) => store.hexes.push(x),
                None => {
                    proof {
                        lemma_first_bad_is(d, ts, max_hex as int, 0, i as int);
                    }
                    return Err(DispatchError::BadHexStr);
                },
            }
        }
        i = i + 1;
    }
    proof {
        assert(d.take(d.len() as int) =~= d);
        assert(ts.take(ts.len() as int) =~= ts);
    }
    Ok(store)
}

} // verus!
