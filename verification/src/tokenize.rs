//! The quote-aware tokenizer.
//!
//! A line is split at runs of ASCII spaces and tabs.  A token that begins
//! with a double quote runs to the next double quote (or the end of the
//! line), the quotes themselves excluded; any characters glued directly to
//! the closing quote are consumed and discarded.  Tokens beyond the caller's
//! limit are scanned but silently dropped.

use vstd::prelude::*;
use crate::DispatchError;
use crate::chars::{is_blank, blank, str_to_chars, chars_to_string};

verus! {

/// The first position at or after `i` that is not a blank, or `s.len()`.
pub open spec fn idx_nonblank(s: Seq<char>, i: int) -> int
    decreases s.len() - i when 0 <= i
{
    if i >= s.len() {
        s.len() as int
    } else if is_blank(s[i]) {
        idx_nonblank(s, i + 1)
    } else {
        i
    }
}

/// The first position at or after `i` that is a blank, or `s.len()`.
pub open spec fn idx_blank(s: Seq<char>, i: int) -> int
    decreases s.len() - i when 0 <= i
{
    if i >= s.len() {
        s.len() as int
    } else if is_blank(s[i]) {
        i
    } else {
        idx_blank(s, i + 1)
    }
}

/// The first position at or after `i` that is a double quote, or `s.len()`.
pub open spec fn idx_quote(s: Seq<char>, i: int) -> int
    decreases s.len() - i when 0 <= i
{
    if i >= s.len() {
        s.len() as int
    } else if s[i] == '"' {
        i
    } else {
        idx_quote(s, i + 1)
    }
}

/// The searches stay between their starting point and the end of the line.
pub proof fn lemma_idx_bounds(s: Seq<char>, i: int)
    requires
        0 <= i <= s.len(),
    ensures
        i <= idx_nonblank(s, i) <= s.len(),
        i <= idx_blank(s, i) <= s.len(),
        i <= idx_quote(s, i) <= s.len(),
    decreases s.len() - i,
{
    if i < s.len() {
        lemma_idx_bounds(s, i + 1);
    }
}

/// The tokens of the line from position `i` on.
pub open spec fn tokens_from(s: Seq<char>, i: int) -> Seq<Seq<char>>
    decreases s.len() - i when 0 <= i <= s.len() via tokens_from_decreases
{
    if i >= s.len() {
        Seq::empty()
    } else if is_blank(s[i]) {
        tokens_from(s, i + 1)
    } else if s[i] == '"' {
        let close = idx_quote(s, i + 1);
        let tok = s.subrange(i + 1, close);
        let next = if close < s.len() {
            idx_blank(s, close + 1)
        } else {
            s.len() as int
        };
        seq![tok] + tokens_from(s, next)
    } else {
        let end = idx_blank(s, i);
        seq![s.subrange(i, end)] + tokens_from(s, end)
    }
}

#[via_fn]
proof fn tokens_from_decreases(s: Seq<char>, i: int) {
    if i < s.len() {
        if !is_blank(s[i]) && s[i] == '"' {
            lemma_idx_bounds(s, i + 1);
            let close = idx_quote(s, i + 1);
            if close < s.len() {
                lemma_idx_bounds(s, close + 1);
            }
        } else if !is_blank(s[i]) {
            lemma_idx_bounds(s, i + 1);
            assert(idx_blank(s, i) == idx_blank(s, i + 1));
        }
    }
}

/// The token list of a whole line.
pub open spec fn tokens_of(s: Seq<char>) -> Seq<Seq<char>> {
    tokens_from(s, 0)
}

/// Leading blanks do not change the tokens that remain.
pub proof fn lemma_tokens_skip_blanks(s: Seq<char>, i: int, j: int)
    requires
        0 <= i <= j <= s.len(),
        forall|k: int| i <= k < j ==> is_blank(s[k]),
    ensures
        tokens_from(s, i) == tokens_from(s, j),
    decreases j - i,
{
    if i < j {
        lemma_tokens_skip_blanks(s, i + 1, j);
    }
}

/// `idx_blank` is the unique first blank position.
pub proof fn lemma_idx_blank_is(s: Seq<char>, i: int, j: int)
    requires
        0 <= i <= j <= s.len(),
        forall|k: int| i <= k < j ==> !is_blank(s[k]),
        j < s.len() ==> is_blank(s[j]),
    ensures
        idx_blank(s, i) == j,
    decreases j - i,
{
    if i < j {
        lemma_idx_blank_is(s, i + 1, j);
    }
}

/// `idx_nonblank` is the unique first non-blank position.
pub proof fn lemma_idx_nonblank_is(s: Seq<char>, i: int, j: int)
    requires
        0 <= i <= j <= s.len(),
        forall|k: int| i <= k < j ==> is_blank(s[k]),
        j < s.len() ==> !is_blank(s[j]),
    ensures
        idx_nonblank(s, i) == j,
    decreases j - i,
{
    if i < j {
        lemma_idx_nonblank_is(s, i + 1, j);
    }
}

/// `idx_quote` is the unique first quote position.
pub proof fn lemma_idx_quote_is(s: Seq<char>, i: int, j: int)
    requires
        0 <= i <= j <= s.len(),
        forall|k: int| i <= k < j ==> s[k] != '"',
        j < s.len() ==> s[j] == '"',
    ensures
        idx_quote(s, i) == j,
    decreases j - i,
{
    if i < j {
        lemma_idx_quote_is(s, i + 1, j);
    }
}

/// Finds the first non-blank position at or after `from`.
fn next_nonblank(v: &Vec<char>, from: usize) -> (r: usize)
    requires
        from <= v@.len(),
    ensures
        r as int == idx_nonblank(v@, from as int),
        from <= r <= v@.len(),
        r < v@.len() ==> !is_blank(v@[r as int]),
        forall|k: int| from <= k < r ==> is_blank(v@[k]),
{
    let mut i: usize = from;
    while i < v.len()
        invariant
            from <= i <= v@.len(),
            forall|k: int| from <= k < i ==> is_blank(v@[k]),
        decreases v@.len() - i,
    {
        if !blank(v[i]) {
            proof {
                lemma_idx_nonblank_is(v@, from as int, i as int);
            }
            return i;
        }
        i = i + 1;
    }
    proof {
        lemma_idx_nonblank_is(v@, from as int, v@.len() as int);
    }
    i
}

/// Finds the first blank position at or after `from`.
fn next_blank(v: &Vec<char>, from: usize) -> (r: usize)
    requires
        from <= v@.len(),
    ensures
        r as int == idx_blank(v@, from as int),
        from <= r <= v@.len(),
{
    let mut i: usize = from;
    while i < v.len()
        invariant
            from <= i <= v@.len(),
            forall|k: int| from <= k < i ==> !is_blank(v@[k]),
        decreases v@.len() - i,
    {
        if blank(v[i]) {
            proof {
                lemma_idx_blank_is(v@, from as int, i as int);
            }
            return i;
        }
        i = i + 1;
    }
    proof {
        lemma_idx_blank_is(v@, from as int, v@.len() as int);
    }
    i
}

/// Finds the first double quote at or after `from`.
fn next_quote(v: &Vec<char>, from: usize) -> (r: usize)
    requires
        from <= v@.len(),
    ensures
        r as int == idx_quote(v@, from as int),
        from <= r <= v@.len(),
{
    let mut i: usize = from;
    while i < v.len()
        invariant
            from <= i <= v@.len(),
            forall|k: int| from <= k < i ==> v@[k] != '"',
        decreases v@.len() - i,
    {
        if v[i] == '"' {
            proof {
                lemma_idx_quote_is(v@, from as int, i as int);
            }
            return i;
        }
        i = i + 1;
    }
    proof {
        lemma_idx_quote_is(v@, from as int, v@.len() as int);
    }
    i
}

/// Copies the characters of `v` between `lo` and `hi` into a string.
fn string_of_range(v: &Vec<char>, lo: usize, hi: usize) -> (r: String)
    requires
        lo <= hi <= v@.len(),
    ensures
        r@ == v@.subrange(lo as int, hi as int),
{
    let mut w: Vec<char> = Vec::new();
    let mut i: usize = lo;
    while i < hi
        invariant
            lo <= i <= hi <= v@.len(),
            w@ == v@.subrange(lo as int, i as int),
        decreases hi - i,
    {
        w.push(v[i]);
        i = i + 1;
        proof {
            assert(w@ =~= v@.subrange(lo as int, i as int));
        }
    }
    chars_to_string(&w)
}

/// Splits a line into at most `max_tokens` tokens.
///
/// Returns the leading tokens of the line, or `Empty` when nothing could be
/// stored — a blank line, or a token limit of zero.
pub fn tokenize(line: &str, max_tokens: usize) -> (r: Result<Vec<String>, DispatchError>)
    ensures
        ({
            let toks = tokens_of(line@);
            match r {
                Ok(ts) => {
                    &&& ts@.len() == if toks.len() <= max_tokens {
                        toks.len()
                    } else {
                        max_tokens as nat
                    }
                    &&& ts@.len() >= 1
                    &&& forall|k: int| 0 <= k < ts@.len() ==> ts@[k]@ == toks[k]
                },
                Err(e) => {
                    &&& e == DispatchError::Empty
                    &&& (toks.len() == 0 || max_tokens == 0)
                },
            }
        }),
{
    let v = str_to_chars(line);
    let ghost s = v@;
    let mut out: Vec<String> = Vec::new();
    let ghost mut seen: Seq<Seq<char>> = Seq::empty();
    let mut i: usize = 0;
    while i < v.len()
        invariant
            v@ == s,
            s == line@,
            0 <= i <= s.len(),
            tokens_of(s) == seen + tokens_from(s, i as int),
            out@.len() == if seen.len() <= max_tokens {
                seen.len()
            } else {
                max_tokens as nat
            },
            forall|k: int| 0 <= k < out@.len() ==> out@[k]@ == seen[k],
        decreases v@.len() - i,
    {
        let start: usize = next_nonblank(&v, i);
        proof {
            lemma_tokens_skip_blanks(s, i as int, start as int);
        }
        if start >= v.len() {
            i = start;
        } else {
            let tok_start: usize;
            let tok_end: usize;
            let next: usize;
            if v[start] == '"' {
                let close: usize = next_quote(&v, start + 1);
                tok_start = start + 1;
                tok_end = close;
                if close < v.len() {
                    next = next_blank(&v, close + 1);
                } else {
                    next = v.len();
                }
            } else {
                tok_start = start;
                tok_end = next_blank(&v, start);
                next = tok_end;
            }
            let ghost tok = s.subrange(tok_start as int, tok_end as int);
            proof {
                assert(tokens_from(s, start as int) == seq![tok] + tokens_from(s, next as int));
            }
            if out.len() < max_tokens {
                let t = string_of_range(&v, tok_start, tok_end);
                out.push(t);
            }
            proof {
                seen = seen + seq![tok];
                assert(tokens_of(s) =~= seen + tokens_from(s, next as int));
            }
            i = next;
        }
    }
    proof {
        assert(tokens_from(s, i as int) =~= Seq::<Seq<char>>::empty());
        assert(tokens_of(s) =~= seen);
    }
    if out.len() == 0 {
        Err(DispatchError::Empty)
    } else {
        Ok(out)
    }
}

} // verus!
