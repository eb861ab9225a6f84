//! Prefix-based completion over a fixed candidate list.
//!
//! The engine keeps the candidates whose names start with the current
//! input.  A single match completes the input to that name plus a space; a
//! group of matches completes it to their longest common prefix; tab
//! cycling walks the matches in both directions.  `NC` bounds how many
//! matches are kept and `FNL` bounds the completed input's length, in
//! place of fixed buffers of those sizes.

use vstd::prelude::*;
use crate::chars::{str_to_chars, chars_to_string, push_char};

verus! {

/// Whether `p` is a prefix of `s`.
pub open spec fn is_prefix(p: Seq<char>, s: Seq<char>) -> bool {
    p.len() <= s.len() && s.take(p.len() as int) == p
}

/// The candidates that start with `p`, in order, the first `nc` of them.
pub open spec fn filter_prefix(cands: Seq<String>, p: Seq<char>, nc: int) -> Seq<String>
    decreases cands.len(),
{
    if cands.len() == 0 {
        Seq::empty()
    } else {
        let rest = filter_prefix(cands.drop_last(), p, nc);
        if is_prefix(p, cands.last()@) && rest.len() < nc {
            rest.push(cands.last())
        } else {
            rest
        }
    }
}

/// The longest prefix of `p` that is also a prefix of `s`, found by
/// shortening `p` from the right.
pub open spec fn shrink_to(p: Seq<char>, s: Seq<char>) -> Seq<char>
    decreases p.len(),
{
    if is_prefix(p, s) {
        p
    } else if p.len() == 0 {
        p
    } else {
        shrink_to(p.drop_last(), s)
    }
}

/// The common prefix of the list, folded from its first element.
pub open spec fn lcp_from(ss: Seq<String>, p: Seq<char>, i: int) -> Seq<char>
    decreases ss.len() - i when 0 <= i
{
    if i >= ss.len() {
        p
    } else {
        lcp_from(ss, shrink_to(p, ss[i]@), i + 1)
    }
}

/// The longest common prefix of the candidates, as the right-shortening
/// scan computes it; empty for an empty list.
pub open spec fn lcp_of(ss: Seq<String>) -> Seq<char> {
    if ss.len() == 0 {
        Seq::empty()
    } else {
        lcp_from(ss, ss[0]@, 1)
    }
}

/// What the completion input becomes after a filter pass: the single
/// match plus a space, the matches' common prefix, or the typed input.
pub open spec fn completed_input(p: Seq<char>, matches: Seq<String>, fnl: int) -> Seq<char> {
    if matches.len() == 1 {
        let full = matches[0]@;
        let with_name = if full.len() <= fnl {
            full
        } else {
            Seq::<char>::empty()
        };
        if with_name.len() < fnl {
            with_name.push(' ')
        } else {
            with_name
        }
    } else if matches.len() > 1 {
        let l = lcp_of(matches);
        if l.len() <= fnl {
            l
        } else {
            Seq::<char>::empty()
        }
    } else {
        p
    }
}

/// What the completion input becomes when cycling to match `ix`.
pub open spec fn cycled_input(m: String, fnl: int) -> Seq<char> {
    let full = m@;
    let with_name = if full.len() <= fnl {
        full
    } else {
        Seq::<char>::empty()
    };
    if with_name.len() < fnl {
        with_name.push(' ')
    } else {
        with_name
    }
}

/// The completion engine's state.
pub struct Autocomplete<const NC: usize, const FNL: usize> {
    /// Every completable name.
    pub candidates: Vec<String>,
    /// The candidates matching the current input.
    pub filtered: Vec<String>,
    /// The current (possibly completed) input.
    pub input: String,
    /// The cycling position within `filtered`.
    pub tab_index: usize,
}

impl<const NC: usize, const FNL: usize> Autocomplete<NC, FNL> {
    /// The engine's structural invariant.
    pub open spec fn wf(self) -> bool {
        &&& self.input@.len() <= FNL
        &&& self.filtered@.len() <= NC
        &&& (self.filtered@.len() == 0 ==> self.tab_index == 0)
        &&& (self.filtered@.len() > 0 ==> self.tab_index < self.filtered@.len())
    }

    /// Creates an engine over the given candidates, with empty input.
    pub fn new(candidates: Vec<String>) -> (r: Autocomplete<NC, FNL>)
        ensures
            r.wf(),
            r.candidates@ == candidates@,
            r.filtered@ == Seq::<String>::empty(),
            r.input@ == Seq::<char>::empty(),
            r.tab_index == 0,
    {
        let r = Autocomplete { candidates, filtered: Vec::new(), input: String::new(), tab_index: 0 };
        proof {
            assert(r.filtered@ =~= Seq::<String>::empty());
        }
        r
    }

    /// The current input.
    pub fn current_input(&self) -> (r: &str)
        ensures
            r@ == self.input@,
    {
        self.input.as_str()
    }

    /// Clears the input, the matches, and the cycling position.
    pub fn reset(&mut self)
        ensures
            final(self).wf(),
            final(self).candidates@ == old(self).candidates@,
            final(self).input@ == Seq::<char>::empty(),
            final(self).filtered@ == Seq::<String>::empty(),
            final(self).tab_index == 0,
    {
        self.input = String::new();
        self.filtered = Vec::new();
        self.tab_index = 0;
        proof {
            assert(self.filtered@ =~= Seq::<String>::empty());
        }
    }

    /// Takes a new input, refilters the candidates, and completes the
    /// input from the matches.
    pub fn update_input(&mut self, new_input: String)
        requires
            new_input@.len() <= FNL,
        ensures
            final(self).wf(),
            final(self).candidates@ == old(self).candidates@,
            final(self).filtered@ == filter_prefix(old(self).candidates@, new_input@, NC as int),
            final(self).tab_index == 0,
            final(self).input@ == completed_input(
                new_input@,
                filter_prefix(old(self).candidates@, new_input@, NC as int),
                FNL as int,
            ),
    {
        let p = str_to_chars(new_input.as_str());
        let mut filtered: Vec<String> = Vec::new();
        let mut i: usize = 0;
        proof {
            assert(self.candidates@.take(0) =~= Seq::<String>::empty());
        }
        while i < self.candidates.len()
            invariant
                p@ == new_input@,
                i <= self.candidates@.len(),
                filtered@ == filter_prefix(self.candidates@.take(i as int), p@, NC as int),
                filtered@.len() <= NC,
                self.candidates@ == old(self).candidates@,
            decreases self.candidates@.len() - i,
        {
            let c = str_to_chars(self.candidates[i].as_str());
            let starts = prefix_check(&c, &p);
            proof {
                assert(self.candidates@.take(i + 1).drop_last() =~= self.candidates@.take(i as int));
                assert(self.candidates@.take(i + 1).last() == self.candidates@[i as int]);
            }
            if starts && filtered.len() < NC {
                filtered.push(self.candidates[i].clone());
            }
            i = i + 1;
        }
        proof {
            assert(self.candidates@.take(self.candidates@.len() as int) =~= self.candidates@);
        }
        self.tab_index = 0;
        if filtered.len() == 1 {
            self.input = complete_one(&filtered[0], FNL);
        } else if filtered.len() > 1 {
            let l = lcp_exec(&filtered);
            if l.len() <= FNL {
                self.input = chars_to_string(&l);
            } else {
                self.input = String::new();
            }
        } else {
            self.input = new_input;
        }
        self.filtered = filtered;
    }

    /// Cycles forward through the matches and completes the input to the
    /// selected one.
    pub fn cycle_forward(&mut self)
        requires
            old(self).wf(),
        ensures
            final(self).wf(),
            final(self).candidates@ == old(self).candidates@,
            final(self).filtered@ == old(self).filtered@,
            old(self).filtered@.len() == 0 ==> *final(self) == *old(self),
            old(self).filtered@.len() > 0 ==> {
                let ix = (old(self).tab_index + 1) % (old(self).filtered@.len() as int);
                &&& final(self).tab_index as int == ix
                &&& final(self).input@ == cycled_input(old(self).filtered@[ix], FNL as int)
            },
    {
        if self.filtered.len() == 0 {
            return ;
        }
        self.tab_index = (self.tab_index + 1) % self.filtered.len();
        self.input = complete_one(&self.filtered[self.tab_index], FNL);
    }

    /// Cycles backward through the matches and completes the input to the
    /// selected one.
    pub fn cycle_backward(&mut self)
        requires
            old(self).wf(),
        ensures
            final(self).wf(),
            final(self).candidates@ == old(self).candidates@,
            final(self).filtered@ == old(self).filtered@,
            old(self).filtered@.len() == 0 ==> *final(self) == *old(self),
            old(self).filtered@.len() > 0 ==> {
                let ix = if old(self).tab_index == 0 {
                    old(self).filtered@.len() - 1
                } else {
                    old(self).tab_index - 1
                };
                &&& final(self).tab_index as int == ix
                &&& final(self).input@ == cycled_input(old(self).filtered@[ix], FNL as int)
            },
    {
        if self.filtered.len() == 0 {
            return ;
        }
        if self.tab_index == 0 {
            self.tab_index = self.filtered.len() - 1;
        } else {
            self.tab_index = self.tab_index - 1;
        }
        self.input = complete_one(&self.filtered[self.tab_index], FNL);
    }
}

/// Whether `p`'s characters open `c`.
fn prefix_check(c: &Vec<char>, p: &Vec<char>) -> (r: bool)
    ensures
        r == is_prefix(p@, c@),
{
    if p.len() > c.len() {
        return false;
    }
    let mut i: usize = 0;
    while i < p.len()
        invariant
            p@.len() <= c@.len(),
            i <= p@.len(),
            forall|j: int| 0 <= j < i ==> c@[j] == p@[j],
        decreases p@.len() - i,
    {
        if c[i] != p[i] {
            proof {
                assert(c@.take(p@.len() as int)[i as int] != p@[i as int]);
            }
            return false;
        }
        i = i + 1;
    }
    proof {
        assert(c@.take(p@.len() as int) =~= p@);
    }
    true
}

/// The selected name plus a trailing space, within the `fnl` bound.
fn complete_one(m: &String, fnl: usize) -> (r: String)
    ensures
        r@ == cycled_input(*m, fnl as int),
        r@.len() <= fnl,
{
    let chars = str_to_chars(m.as_str());
    let mut out: Vec<char> = Vec::new();
    if chars.len() <= fnl {
        let mut i: usize = 0;
        while i < chars.len()
            invariant
                i <= chars@.len(),
                chars@.len() <= fnl,
                chars@ == m@,
                out@ == chars@.take(i as int),
            decreases chars@.len() - i,
        {
            out.push(chars[i]);
            i = i + 1;
            proof {
                assert(out@ =~= chars@.take(i as int));
            }
        }
        proof {
            assert(out@ =~= chars@);
        }
    }
    if out.len() < fnl {
        out.push(' ');
    }
    chars_to_string(&out)
}

/// The longest common prefix of the list, by right-shortening scans.
fn lcp_exec(ss: &Vec<String>) -> (r: Vec<char>)
    requires
        ss@.len() >= 1,
    ensures
        r@ == lcp_of(ss@),
{
    let mut p = str_to_chars(ss[0].as_str());
    let mut i: usize = 1;
    while i < ss.len()
        invariant
            1 <= i <= ss@.len(),
            lcp_of(ss@) == lcp_from(ss@, p@, i as int),
        decreases ss@.len() - i,
    {
        let s = str_to_chars(ss[i].as_str());
        proof {
            assert(lcp_from(ss@, p@, i as int) == lcp_from(ss@, shrink_to(p@, s@), i as int + 1));
        }
        loop
            invariant
                i < ss@.len(),
                s@ == ss@[i as int]@,
                lcp_of(ss@) == lcp_from(ss@, shrink_to(p@, s@), i as int + 1),
            ensures
                i < ss@.len(),
                s@ == ss@[i as int]@,
                lcp_of(ss@) == lcp_from(ss@, shrink_to(p@, s@), i as int + 1),
                is_prefix(p@, s@) || p@.len() == 0,
            decreases p@.len(),
        {
            if prefix_check(&s, &p) || p.len() == 0 {
                break;
            }
            p.pop();
        }
        proof {
            assert(shrink_to(p@, s@) == p@);
        }
        i = i + 1;
    }
    p
}

} // verus!
