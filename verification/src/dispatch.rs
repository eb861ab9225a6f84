//! The dispatch engine: tokenize a line, resolve the function name, check
//! the arity, parse the argument tokens, and invoke the function through a
//! caller-supplied invoker.
//!
//! The whole pipeline is deterministic: its outcome is a function of the
//! registry and the line alone, written down as [`outcome_of`].

use vstd::prelude::*;
use crate::DispatchError;
use crate::args::{ArgStore, parse_args, args_ok, first_bad, err_for, views_of, toks_for};
use crate::descriptor::{count_code, HostCounts};
use crate::registry::counts_le;
use crate::registry::Registry;
use crate::scan::str_eq;
use crate::tokenize::{tokens_of, tokenize};

verus! {

/// Invokes registered functions by entry index; the host implements this
/// for its own function set, reading the arguments positionally from the
/// store.
pub trait CommandInvoker {
    /// Calls the function registered at entry `index` with the parsed
    /// arguments; its return value, if any, is not the dispatcher's
    /// concern.
    fn invoke(&mut self, index: usize, args: &ArgStore);
}

/// The token-buffer size a dispatch uses: one slot for the name, the
/// largest arity, and one extra slot so that too many arguments are still
/// seen as too many.
pub open spec fn token_cap(reg: Registry) -> int {
    reg.max_arity + 2
}

/// How many tokens of the line a dispatch sees.
pub open spec fn seen_count(reg: Registry, line: Seq<char>) -> int {
    if tokens_of(line).len() <= token_cap(reg) {
        tokens_of(line).len() as int
    } else {
        token_cap(reg)
    }
}

/// The argument tokens a dispatch hands to the parser.
pub open spec fn call_tokens(reg: Registry, line: Seq<char>) -> Seq<Seq<char>> {
    tokens_of(line).subrange(1, seen_count(reg, line))
}

/// The descriptor the parser walks for entry `k`: empty for the void
/// marker, the descriptor itself otherwise.
pub open spec fn eff_desc(reg: Registry, k: int) -> Seq<char> {
    if reg.desc_at(k) == seq!['v'] {
        Seq::empty()
    } else {
        reg.desc_at(k)
    }
}

/// The outcome of dispatching `line` against `reg`: the index of the
/// invoked entry, or the error.
pub open spec fn outcome_of(reg: Registry, line: Seq<char>) -> Result<int, DispatchError> {
    let toks = tokens_of(line);
    let n = seen_count(reg, line);
    if n == 0 {
        Err(DispatchError::Empty)
    } else {
        match reg.spec_lookup(toks[0]) {
            None => Err(DispatchError::UnknownFunction),
            Some(k) => {
                if n - 1 != reg.entries@[k].arity as int {
                    Err(DispatchError::WrongArity { expected: reg.entries@[k].arity })
                } else {
                    let d = eff_desc(reg, k);
                    let ts = call_tokens(reg, line);
                    if args_ok(d, ts, reg.max_hex_len as int) {
                        Ok(k)
                    } else {
                        Err(err_for(d[first_bad(d, ts, reg.max_hex_len as int, 0)]))
                    }
                }
            },
        }
    }
}

impl Registry {
    /// Tokenizes and resolves one line, parsing its arguments into a fresh
    /// store; the function itself is not yet called.
    pub fn dispatch_parse(&self, line: &str) -> (r: Result<(usize, ArgStore), DispatchError>)
        requires
            self.wf(),
        ensures
            r matches Ok((k, store)) ==> outcome_of(*self, line@) == Ok::<int, DispatchError>(
                k as int,
            ) && store.models(
                eff_desc(*self, k as int),
                call_tokens(*self, line@),
                self.max_hex_len as int,
            ),
            r matches Err(e) ==> outcome_of(*self, line@) == Err::<int, DispatchError>(e),
    {
        let ghost toks = tokens_of(line@);
        let ghost n = seen_count(*self, line@);
        let cap = self.max_arity + 2;
        let ts = match tokenize(line, cap) {
            Ok(ts) => ts,
            Err(e) => {
                proof {
                    assert(n == 0);
                }
                return Err(DispatchError::Empty);
            },
        };
        proof {
            assert(ts@.len() == n);
            assert(ts@[0]@ == toks[0]);
        }
        let k = match self.lookup(ts[0].as_str()) {
            Some(k) => k,
            None => {
                return Err(DispatchError::UnknownFunction);
            },
        };
        let arity = self.entries[k].arity as usize;
        if ts.len() - 1 != arity {
            return Err(DispatchError::WrongArity { expected: self.entries[k].arity });
        }
        // Collect the argument tokens.
        let mut args: Vec<String> = Vec::new();
        let mut i: usize = 1;
        while i < ts.len()
            invariant
                toks == tokens_of(line@),
                n == seen_count(*self, line@),
                ts@.len() == n,
                forall|j: int| 0 <= j < ts@.len() ==> (#[trigger] ts@[j])@ == toks[j],
                1 <= i <= ts@.len(),
                args@.len() == i - 1,
                forall|j: int| 0 <= j < args@.len() ==> (#[trigger] args@[j])@ == toks[j + 1],
            decreases ts@.len() - i,
        {
            args.push(ts[i].clone());
            i = i + 1;
        }
        proof {
            assert(views_of(args@) =~= call_tokens(*self, line@));
        }
        let dstr: &String = &self.specs[self.entries[k].spec_idx];
        let eff: &str = if str_eq(dstr.as_str(), "v") {
            proof {
                reveal_strlit("v");
                reveal_strlit("");
                assert(("v"@) =~= seq!['v']);
                assert(dstr@ == self.desc_at(k as int));
                assert(dstr@ == seq!['v']);
                assert(eff_desc(*self, k as int) =~= ""@);
            }
            ""
        } else {
            proof {
                reveal_strlit("v");
                assert(("v"@) =~= seq!['v']);
                assert(dstr@ == self.desc_at(k as int));
                assert(dstr@ != seq!['v']);
            }
            dstr.as_str()
        };
        proof {
            assert(eff@ == eff_desc(*self, k as int));
            assert(args@.len() == eff@.len());
        }
        match parse_args(eff, &args, self.max_hex_len) {
            Ok(store) => Ok((k, store)),
            Err(e) => Err(e),
        }
    }

    /// Dispatches one line: on success the resolved function is invoked
    /// through `inv` with the parsed arguments.
    pub fn dispatch<H: CommandInvoker>(&self, line: &str, inv: &mut H) -> (r: Result<
        (),
        DispatchError,
    >)
        requires
            self.wf(),
        ensures
            r is Ok <==> outcome_of(*self, line@) is Ok,
            r matches Err(e) ==> outcome_of(*self, line@) == Err::<int, DispatchError>(e),
    {
        match self.dispatch_parse(line) {
            Ok((k, store)) => {
                inv.invoke(k, &store);
                Ok(())
            },
            Err(e) => Err(e),
        }
    }
}

/// The dispatch outcome is a function of the registry and the line alone:
/// two dispatches of equal lines against equal registries resolve, fail and
/// succeed identically, with no other state in play.
pub proof fn lemma_dispatch_deterministic(
    r1: Registry,
    r2: Registry,
    l1: Seq<char>,
    l2: Seq<char>,
)
    requires
        r1 == r2,
        l1 == l2,
    ensures
        outcome_of(r1, l1) == outcome_of(r2, l2),
{
}

/// An unknown first token always yields `UnknownFunction`, whatever the
/// remaining tokens hold.
pub proof fn lemma_unknown_function(reg: Registry, line: Seq<char>)
    requires
        reg.wf(),
        tokens_of(line).len() >= 1,
        reg.spec_lookup(tokens_of(line)[0]) is None,
    ensures
        outcome_of(reg, line) == Err::<int, DispatchError>(DispatchError::UnknownFunction),
{
}

/// Exact arity enforcement: when the line resolves to entry `k` but its
/// argument count differs from the entry's arity — too few or too many —
/// the outcome is `WrongArity` carrying that arity.
pub proof fn lemma_exact_arity(reg: Registry, line: Seq<char>, k: int)
    requires
        reg.wf(),
        tokens_of(line).len() >= 1,
        reg.spec_lookup(tokens_of(line)[0]) == Some(k),
        tokens_of(line).len() - 1 != reg.entries@[k].arity as int,
    ensures
        outcome_of(reg, line) == Err::<int, DispatchError>(
            DispatchError::WrongArity { expected: reg.entries@[k].arity },
        ),
{
    reg.lemma_spec_lookup_in_range(tokens_of(line)[0], k);
    if tokens_of(line).len() > token_cap(reg) {
        assert(seen_count(reg, line) - 1 == reg.max_arity + 1);
        assert(reg.entries@[k].arity as int == crate::descriptor::arity_of(reg.desc_at(k)));
        assert(crate::descriptor::arity_of(reg.desc_at(k)) <= reg.max_arity);
    }
}

/// Round-trip arity: when the line resolves to entry `k` with exactly the
/// right number of argument tokens, the dispatch succeeds if and only if
/// every argument token parses under the entry's descriptor.
pub proof fn lemma_round_trip(reg: Registry, line: Seq<char>, k: int)
    requires
        reg.wf(),
        tokens_of(line).len() >= 1,
        reg.spec_lookup(tokens_of(line)[0]) == Some(k),
        tokens_of(line).len() - 1 == reg.entries@[k].arity as int,
    ensures
        outcome_of(reg, line) == Ok::<int, DispatchError>(k) <==> args_ok(
            eff_desc(reg, k),
            call_tokens(reg, line),
            reg.max_hex_len as int,
        ),
{
    reg.lemma_spec_lookup_in_range(tokens_of(line)[0], k);
    assert(reg.entries@[k].arity as int == crate::descriptor::arity_of(reg.desc_at(k)));
    assert(crate::descriptor::arity_of(reg.desc_at(k)) <= reg.max_arity);
    assert(tokens_of(line).len() <= token_cap(reg));
}


/// Each type code claims exactly one argument slot per occurrence.
proof fn lemma_toks_for_len(d: Seq<char>, ts: Seq<Seq<char>>, c: char)
    requires
        d.len() == ts.len(),
    ensures
        toks_for(d, ts, c).len() == count_code(d, c),
    decreases d.len(),
{
    if d.len() > 0 {
        lemma_toks_for_len(d.drop_last(), ts.drop_last(), c);
    }
}

/// Fixed storage sized by the registry's maxima always suffices: for any
/// entry and any argument-token list of the right arity, the number of
/// values the parser writes for each primitive type is the descriptor's
/// count of that type code, and the registry's per-type maxima bound every
/// registered descriptor's counts.
pub proof fn lemma_storage_within_maxima(reg: Registry, k: int, ts: Seq<Seq<char>>)
    requires
        reg.wf(),
        0 <= k < reg.entries@.len(),
        ts.len() == eff_desc(reg, k).len(),
    ensures
        forall|c: char|
            #[trigger] toks_for(eff_desc(reg, k), ts, c).len() == count_code(eff_desc(reg, k), c),
        counts_le(HostCounts::spec_of(eff_desc(reg, k)), reg.maxima),
{
    assert forall|c: char|
        #[trigger] toks_for(eff_desc(reg, k), ts, c).len() == count_code(
            eff_desc(reg, k),
            c,
        ) by {
        lemma_toks_for_len(eff_desc(reg, k), ts, c);
    }
    let idx = reg.entries@[k].spec_idx as int;
    assert(counts_le(HostCounts::spec_of(reg.specs@[idx]@), reg.maxima));
    if reg.desc_at(k) == seq!['v'] {
        assert(count_code(Seq::<char>::empty(), 'x') == 0);
    }
}


} // verus!
