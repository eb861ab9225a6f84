//! The function registry: a table of named functions, each with a type
//! descriptor, kept strictly sorted by name so that lookup and the
//! introspection lists are deterministic.
//!
//! The registry is built once, at configuration time, from groups of
//! `(descriptor, function names)`; registration validates descriptors and
//! rejects duplicate or empty names.

use vstd::prelude::*;
use crate::chars::str_to_chars;
use crate::descriptor::{
    wf_descriptor, arity_of, count_code, HostCounts, host_counts_max, count_descriptor,
    descriptor_ok, descriptor_arity,
};
use crate::scan::chars_eq;

verus! {

broadcast use vstd::utf8::char_is_scalar;

/// Strict lexicographic order on character sequences, by code point.
pub open spec fn lex_lt(a: Seq<char>, b: Seq<char>) -> bool
    decreases a.len(),
{
    if b.len() == 0 {
        false
    } else if a.len() == 0 {
        true
    } else if a[0] < b[0] {
        true
    } else if b[0] < a[0] {
        false
    } else {
        lex_lt(a.drop_first(), b.drop_first())
    }
}

/// Nothing is lexicographically below itself.
pub proof fn lemma_lex_irrefl(a: Seq<char>)
    ensures
        !lex_lt(a, a),
    decreases a.len(),
{
    if a.len() > 0 {
        lemma_lex_irrefl(a.drop_first());
    }
}

/// Two distinct sequences are ordered one way or the other.
pub proof fn lemma_lex_trichotomy(a: Seq<char>, b: Seq<char>)
    requires
        !lex_lt(a, b),
        a != b,
    ensures
        lex_lt(b, a),
    decreases a.len(),
{
    if b.len() == 0 {
        if a.len() == 0 {
            assert(a =~= b);
        }
    } else if a.len() == 0 {
    } else if a[0] < b[0] {
    } else if b[0] < a[0] {
    } else {
        assert(a[0] == b[0]);
        if a.drop_first() =~= b.drop_first() {
            assert(a.len() == b.len());
            assert forall|i: int| 0 <= i < a.len() implies a[i] == b[i] by {
                if i > 0 {
                    assert(a[i] == a.drop_first()[i - 1]);
                    assert(b[i] == b.drop_first()[i - 1]);
                }
            }
            assert(a =~= b);
        } else {
            lemma_lex_trichotomy(a.drop_first(), b.drop_first());
        }
    }
}

/// The lexicographic order is transitive.
pub proof fn lemma_lex_trans(a: Seq<char>, b: Seq<char>, c: Seq<char>)
    requires
        lex_lt(a, b),
        lex_lt(b, c),
    ensures
        lex_lt(a, c),
    decreases a.len(),
{
    if a.len() > 0 && b.len() > 0 && c.len() > 0 {
        if a[0] == b[0] && b[0] == c[0] {
            lemma_lex_trans(a.drop_first(), b.drop_first(), c.drop_first());
        }
    }
}

/// Compares two characters by code point.
fn char_lt(x: char, y: char) -> (r: bool)
    ensures
        r == (x < y),
{
    let ux = x as u32;
    let uy = y as u32;
    proof {
        assert(ux == x as int);
        assert(uy == y as int);
    }
    ux < uy
}

/// Compares two character vectors lexicographically.
pub fn chars_lt(a: &Vec<char>, b: &Vec<char>) -> (r: bool)
    ensures
        r == lex_lt(a@, b@),
    decreases a@.len(),
{
    let mut i: usize = 0;
    proof {
        assert(a@.skip(0) =~= a@);
        assert(b@.skip(0) =~= b@);
    }
    loop
        invariant
            i <= a@.len(),
            i <= b@.len(),
            lex_lt(a@, b@) == lex_lt(a@.skip(i as int), b@.skip(i as int)),
        decreases a@.len() - i,
    {
        if i >= b.len() {
            proof {
                assert(b@.skip(i as int).len() == 0);
            }
            return false;
        }
        if i >= a.len() {
            proof {
                assert(a@.skip(i as int).len() == 0);
                assert(b@.skip(i as int).len() > 0);
            }
            return true;
        }
        let x = a[i];
        let y = b[i];
        proof {
            assert(a@.skip(i as int)[0] == a@[i as int]);
            assert(b@.skip(i as int)[0] == b@[i as int]);
        }
        if x == y {
            proof {
                assert(a@.skip(i as int).drop_first() =~= a@.skip(i as int + 1));
                assert(b@.skip(i as int).drop_first() =~= b@.skip(i as int + 1));
            }
            i = i + 1;
        } else {
            if char_lt(x, y) {
                proof {
                    assert(lex_lt(a@.skip(i as int), b@.skip(i as int)));
                }
                return true;
            } else {
                proof {
                    assert(y < x || x == y);
                    assert(!lex_lt(a@.skip(i as int), b@.skip(i as int)));
                }
                return false;
            }
        }
    }
}

/// A descriptor the registry accepts: well formed and short enough for its
/// arity to be stored in a byte.
pub open spec fn usable_descriptor(d: Seq<char>) -> bool {
    wf_descriptor(d) && d.len() <= u8::MAX
}

/// One registered function: its name, required arity, and the index of its
/// descriptor in the registry's deduplicated descriptor table.
#[derive(Debug)]
pub struct Entry {
    pub name: String,
    pub arity: u8,
    pub spec_idx: usize,
}

/// Why a registration was rejected.
#[derive(Debug, Clone, Copy, PartialEq, Eq, Structural)]
pub enum ConfigError {
    /// A descriptor is empty, holds an unknown type code, mixes the void
    /// marker with others, or is longer than 255 codes.
    BadDescriptor,
    /// A function was registered under an empty name.
    EmptyName,
    /// Two functions were registered under the same name.
    DuplicateName,
}

/// The `(descriptor, name)` pairs named by a group list, in order.
pub open spec fn flat_pairs(gs: Seq<(String, Vec<String>)>) -> Seq<(Seq<char>, Seq<char>)>
    decreases gs.len(),
{
    if gs.len() == 0 {
        Seq::empty()
    } else {
        flat_pairs(gs.drop_last()) + group_pairs(gs.last())
    }
}

/// The pairs named by one group.
pub open spec fn group_pairs(g: (String, Vec<String>)) -> Seq<(Seq<char>, Seq<char>)> {
    Seq::new(g.1@.len(), |i: int| (g.0@, g.1@[i]@))
}

/// Whether some pair carries a descriptor the registry cannot accept.
pub open spec fn some_bad_desc(ps: Seq<(Seq<char>, Seq<char>)>) -> bool {
    exists|i: int| 0 <= i < ps.len() && !usable_descriptor(#[trigger] ps[i].0)
}

/// Whether some pair carries an empty function name.
pub open spec fn some_empty_name(ps: Seq<(Seq<char>, Seq<char>)>) -> bool {
    exists|i: int| 0 <= i < ps.len() && (#[trigger] ps[i].1).len() == 0
}

/// Whether two pairs carry the same function name.
pub open spec fn some_dup_name(ps: Seq<(Seq<char>, Seq<char>)>) -> bool {
    exists|i: int, j: int| 0 <= i < j < ps.len() && #[trigger] ps[i].1 == #[trigger] ps[j].1
}

/// Whether the table holds an entry with the given descriptor and name.
pub open spec fn table_has(entries: Seq<Entry>, specs: Seq<String>, p: (Seq<char>, Seq<char>)) -> bool {
    exists|k: int|
        0 <= k < entries.len() && (#[trigger] entries[k]).name@ == p.1 && specs[entries[
            k
        ].spec_idx as int]@ == p.0
}

/// Appending descriptors to the table does not lose any entry.
proof fn lemma_table_has_extend(
    entries: Seq<Entry>,
    specs1: Seq<String>,
    specs2: Seq<String>,
    p: (Seq<char>, Seq<char>),
)
    requires
        table_has(entries, specs1, p),
        forall|k: int| 0 <= k < entries.len() ==> (#[trigger] entries[k]).spec_idx < specs1.len(),
        specs1.len() <= specs2.len(),
        forall|j: int| 0 <= j < specs1.len() ==> specs2[j] == specs1[j],
    ensures
        table_has(entries, specs2, p),
{
    let k = choose|k: int|
        0 <= k < entries.len() && (#[trigger] entries[k]).name@ == p.1 && specs1[entries[
            k
        ].spec_idx as int]@ == p.0;
    assert(entries[k].name@ == p.1 && specs2[entries[k].spec_idx as int]@ == p.0);
}

/// The sorted, deduplicated function table together with the sizing data
/// derived from its descriptors.
#[derive(Debug)]
pub struct Registry {
    /// The unique descriptors, indexed by the entries' `spec_idx`.
    pub specs: Vec<String>,
    /// The registered functions, strictly sorted by name.
    pub entries: Vec<Entry>,
    /// Component-wise maxima of the per-descriptor type counts; they bound
    /// the number of slots any single call needs per type.
    pub maxima: HostCounts,
    /// The largest arity among the registered functions.
    pub max_arity: usize,
    /// The longest registered function name's length, in characters.
    pub max_name_len: usize,
    /// The largest decoded length allowed for a hex byte-string argument.
    pub max_hex_len: usize,
}

/// `a` bounded by `b` in every component.
pub open spec fn counts_le(a: HostCounts, b: HostCounts) -> bool {
    &&& a.u8_c <= b.u8_c
    &&& a.u16_c <= b.u16_c
    &&& a.u32_c <= b.u32_c
    &&& a.u64_c <= b.u64_c
    &&& a.u128_c <= b.u128_c
    &&& a.i8_c <= b.i8_c
    &&& a.i16_c <= b.i16_c
    &&& a.i32_c <= b.i32_c
    &&& a.i64_c <= b.i64_c
    &&& a.i128_c <= b.i128_c
    &&& a.usize_c <= b.usize_c
    &&& a.isize_c <= b.isize_c
    &&& a.f32_c <= b.f32_c
    &&& a.f64_c <= b.f64_c
    &&& a.bool_c <= b.bool_c
    &&& a.char_c <= b.char_c
    &&& a.str_c <= b.str_c
    &&& a.hexstr_c <= b.hexstr_c
}

impl Registry {
    /// The number of registered functions.
    pub open spec fn func_count(self) -> nat {
        self.entries@.len()
    }

    /// The name of the `k`-th entry.
    pub open spec fn name_at(self, k: int) -> Seq<char> {
        self.entries@[k].name@
    }

    /// The descriptor of the `k`-th entry.
    pub open spec fn desc_at(self, k: int) -> Seq<char> {
        self.specs@[self.entries@[k].spec_idx as int]@
    }

    /// The registry's structural invariant.
    pub open spec fn wf(self) -> bool {
        &&& forall|k: int|
            0 <= k < self.entries@.len() ==> (#[trigger] self.entries@[k]).spec_idx
                < self.specs@.len()
        &&& forall|k: int|
            0 <= k < self.specs@.len() ==> usable_descriptor(#[trigger] self.specs@[k]@)
        &&& forall|i: int, j: int|
            0 <= i < j < self.entries@.len() ==> lex_lt(
                #[trigger] self.entries@[i].name@,
                #[trigger] self.entries@[j].name@,
            )
        &&& forall|k: int|
            0 <= k < self.entries@.len() ==> (#[trigger] self.entries@[k]).arity as int == arity_of(
                self.desc_at(k),
            )
        &&& forall|k: int|
            0 <= k < self.entries@.len() ==> (#[trigger] self.entries@[k]).name@.len() >= 1
        &&& forall|k: int|
            0 <= k < self.specs@.len() ==> counts_le(
                HostCounts::spec_of(#[trigger] self.specs@[k]@),
                self.maxima,
            )
        &&& forall|k: int|
            0 <= k < self.specs@.len() ==> arity_of(#[trigger] self.specs@[k]@)
                <= self.max_arity
        &&& self.max_arity <= u8::MAX
        &&& forall|k: int|
            0 <= k < self.entries@.len() ==> (#[trigger] self.entries@[k]).name@.len()
                <= self.max_name_len
    }

    /// Whether the registry holds an entry for each input pair and nothing
    /// else.
    pub open spec fn registers(self, ps: Seq<(Seq<char>, Seq<char>)>) -> bool {
        &&& forall|k: int|
            0 <= k < self.entries@.len() ==> ps.contains(
                (self.desc_at(k), #[trigger] self.entries@[k].name@),
            )
        &&& forall|i: int|
            0 <= i < ps.len() ==> table_has(self.entries@, self.specs@, #[trigger] ps[i])
    }

    /// The index of the first entry carrying `name`, from position `k` on.
    pub open spec fn find_from(self, name: Seq<char>, k: int) -> Option<int>
        decreases self.entries@.len() - k when 0 <= k
    {
        if k >= self.entries@.len() {
            None
        } else if self.entries@[k].name@ == name {
            Some(k)
        } else {
            self.find_from(name, k + 1)
        }
    }

    /// The index of the entry carrying `name`, if any.
    pub open spec fn spec_lookup(self, name: Seq<char>) -> Option<int> {
        self.find_from(name, 0)
    }

    /// `find_from` is the unique first matching position.
    pub proof fn lemma_find_from_is(self, name: Seq<char>, i: int, j: int)
        requires
            0 <= i <= j <= self.entries@.len(),
            forall|m: int| i <= m < j ==> (#[trigger] self.entries@[m]).name@ != name,
            j < self.entries@.len() ==> self.entries@[j].name@ == name,
        ensures
            self.find_from(name, i) == if j < self.entries@.len() {
                Some(j)
            } else {
                None::<int>
            },
        decreases j - i,
    {
        if i < j {
            self.lemma_find_from_is(name, i + 1, j);
        }
    }

    /// A found index lies in the table and carries the name.
    pub proof fn lemma_find_from_range(self, name: Seq<char>, i: int, k: int)
        requires
            0 <= i,
            self.find_from(name, i) == Some(k),
        ensures
            i <= k < self.entries@.len(),
            self.entries@[k].name@ == name,
        decreases self.entries@.len() - i,
    {
        if i < self.entries@.len() && self.entries@[i].name@ != name {
            self.lemma_find_from_range(name, i + 1, k);
        }
    }

    /// A looked-up index lies in the table and carries the name.
    pub proof fn lemma_spec_lookup_in_range(self, name: Seq<char>, k: int)
        requires
            self.spec_lookup(name) == Some(k),
        ensures
            0 <= k < self.entries@.len(),
            self.entries@[k].name@ == name,
    {
        self.lemma_find_from_range(name, 0, k);
    }

    /// Looks a function name up in the table.
    pub fn lookup(&self, name: &str) -> (r: Option<usize>)
        ensures
            r matches Some(k) ==> k < self.entries@.len() && self.name_at(k as int) == name@
                && self.spec_lookup(name@) == Some(k as int),
            r is None ==> (forall|k: int|
                0 <= k < self.entries@.len() ==> self.name_at(k) != name@) && self.spec_lookup(
                name@,
            ) is None,
    {
        let q = str_to_chars(name);
        let mut k: usize = 0;
        while k < self.entries.len()
            invariant
                q@ == name@,
                k <= self.entries@.len(),
                forall|j: int| 0 <= j < k ==> (#[trigger] self.entries@[j]).name@ != name@,
            decreases self.entries@.len() - k,
        {
            let en = str_to_chars(self.entries[k].name.as_str());
            if chars_eq(&en, &q) {
                proof {
                    self.lemma_find_from_is(name@, 0, k as int);
                }
                return Some(k);
            }
            k = k + 1;
        }
        proof {
            self.lemma_find_from_is(name@, 0, self.entries@.len() as int);
        }
        None
    }

    /// The registered function names, in table (sorted) order.
    pub fn get_function_names(&self) -> (r: Vec<String>)
        ensures
            r@.len() == self.func_count(),
            forall|k: int| 0 <= k < r@.len() ==> (#[trigger] r@[k])@ == self.name_at(k),
    {
        let mut r: Vec<String> = Vec::new();
        let mut k: usize = 0;
        while k < self.entries.len()
            invariant
                k <= self.entries@.len(),
                r@.len() == k,
                forall|j: int| 0 <= j < k ==> (#[trigger] r@[j])@ == self.entries@[j].name@,
            decreases self.entries@.len() - k,
        {
            r.push(self.entries[k].name.clone());
            k = k + 1;
        }
        r
    }

    /// The `(name, descriptor)` pairs of the table, in table order.
    pub fn get_commands(&self) -> (r: Vec<(String, String)>)
        requires
            self.wf(),
        ensures
            r@.len() == self.func_count(),
            forall|k: int|
                0 <= k < r@.len() ==> (#[trigger] r@[k]).0@ == self.name_at(k) && r@[k].1@
                    == self.desc_at(k),
    {
        let mut r: Vec<(String, String)> = Vec::new();
        let mut k: usize = 0;
        while k < self.entries.len()
            invariant
                self.wf(),
                k <= self.entries@.len(),
                r@.len() == k,
                forall|j: int|
                    0 <= j < k ==> (#[trigger] r@[j]).0@ == self.name_at(j) && r@[j].1@
                        == self.desc_at(j),
            decreases self.entries@.len() - k,
        {
            let e: &Entry = &self.entries[k];
            let d = self.specs[e.spec_idx].clone();
            r.push((e.name.clone(), d));
            k = k + 1;
        }
        r
    }
}

/// The views of a list of `(descriptor, name)` pairs.
pub open spec fn pair_views(ps: Seq<(String, String)>) -> Seq<(Seq<char>, Seq<char>)> {
    ps.map_values(|p: (String, String)| (p.0@, p.1@))
}

/// One more group contributes its own pairs at the end.
proof fn lemma_flat_pairs_step(gs: Seq<(String, Vec<String>)>, g: int)
    requires
        0 <= g < gs.len(),
    ensures
        flat_pairs(gs.take(g + 1)) == flat_pairs(gs.take(g)) + group_pairs(gs[g]),
{
    assert(gs.take(g + 1).drop_last() =~= gs.take(g));
    assert(gs.take(g + 1).last() == gs[g]);
}

/// Lists the `(descriptor, name)` pairs of a group list, in order.
fn flatten_groups(groups: &Vec<(String, Vec<String>)>) -> (r: Vec<(String, String)>)
    ensures
        pair_views(r@) == flat_pairs(groups@),
{
    let mut r: Vec<(String, String)> = Vec::new();
    let mut g: usize = 0;
    proof {
        assert(groups@.take(0) =~= Seq::<(String, Vec<String>)>::empty());
        assert(pair_views(r@) =~= flat_pairs(groups@.take(0)));
    }
    while g < groups.len()
        invariant
            g <= groups@.len(),
            pair_views(r@) == flat_pairs(groups@.take(g as int)),
        decreases groups@.len() - g,
    {
        let desc: &String = &groups[g].0;
        let names: &Vec<String> = &groups[g].1;
        let ghost base = r@;
        let mut j: usize = 0;
        while j < names.len()
            invariant
                g < groups@.len(),
                j <= names@.len(),
                desc@ == groups@[g as int].0@,
                names@ == groups@[g as int].1@,
                r@.len() == base.len() + j,
                r@.take(base.len() as int) == base,
                forall|m: int|
                    0 <= m < j ==> (#[trigger] r@[base.len() + m]).0@ == groups@[g as int].0@
                        && r@[base.len() + m].1@ == groups@[g as int].1@[m]@,
            decreases names@.len() - j,
        {
            r.push((desc.clone(), names[j].clone()));
            j = j + 1;
            proof {
                assert(r@.take(base.len() as int) =~= base);
            }
        }
        g = g + 1;
        proof {
            lemma_flat_pairs_step(groups@, g as int - 1);
            let gp = group_pairs(groups@[g as int - 1]);
            assert forall|m: int|
                0 <= m < r@.len() implies pair_views(r@)[m] == (pair_views(base) + gp)[m] by {
                if m < base.len() {
                    assert(r@[m] == r@.take(base.len() as int)[m]);
                } else {
                    let mm = m - base.len();
                    assert(r@[base.len() + mm].0@ == groups@[g as int - 1].0@ && r@[base.len()
                        + mm].1@ == groups@[g as int - 1].1@[mm]@);
                    assert(gp[mm] == (groups@[g as int - 1].0@, groups@[g as int - 1].1@[mm]@));
                }
            }
            assert(pair_views(r@) =~= pair_views(base) + gp);
        }
    }
    proof {
        assert(groups@.take(groups@.len() as int) =~= groups@);
    }
    r
}

/// A member of a prefix is a member of any longer prefix.
proof fn lemma_take_contains_mono(
    ps: Seq<(Seq<char>, Seq<char>)>,
    i: int,
    j: int,
    x: (Seq<char>, Seq<char>),
)
    requires
        0 <= i <= j <= ps.len(),
        ps.take(i).contains(x),
    ensures
        ps.take(j).contains(x),
{
    let w = choose|w: int| 0 <= w < i && ps.take(i)[w] == x;
    assert(ps.take(j)[w] == x);
}


/// Each component bound survives raising the bounds.
proof fn lemma_counts_le_grow(a: HostCounts, b: HostCounts, c: HostCounts)
    requires
        counts_le(a, b),
    ensures
        counts_le(a, HostCounts::spec_max(b, c)),
{
}

/// Inserting a fresh entry at its sorted position preserves the table's
/// order, its correspondence with the handled pairs, and the per-entry
/// bookkeeping facts.
proof fn lemma_insert_entry(
    ps: Seq<(Seq<char>, Seq<char>)>,
    specs: Seq<String>,
    old_entries: Seq<Entry>,
    new_entries: Seq<Entry>,
    e: Entry,
    ki: int,
    ii: int,
    max_name_len: int,
)
    requires
        0 <= ki <= old_entries.len(),
        0 <= ii < ps.len(),
        new_entries == old_entries.insert(ki, e),
        e.name@ == ps[ii].1,
        e.spec_idx < specs.len(),
        specs[e.spec_idx as int]@ == ps[ii].0,
        e.arity as int == arity_of(specs[e.spec_idx as int]@),
        e.name@.len() >= 1,
        e.name@.len() <= max_name_len,
        forall|a: int, b: int|
            0 <= a < b < old_entries.len() ==> lex_lt(
                #[trigger] old_entries[a].name@,
                #[trigger] old_entries[b].name@,
            ),
        forall|j: int| 0 <= j < ki ==> lex_lt(#[trigger] old_entries[j].name@, e.name@),
        ki < old_entries.len() ==> lex_lt(e.name@, old_entries[ki as int].name@),
        forall|m: int| 0 <= m < old_entries.len() ==> (#[trigger] old_entries[m]).name@ != e.name@,
        forall|k: int|
            0 <= k < old_entries.len() ==> (#[trigger] old_entries[k]).spec_idx < specs.len(),
        forall|k: int|
            0 <= k < old_entries.len() ==> (#[trigger] old_entries[k]).arity as int == arity_of(
                specs[old_entries[k].spec_idx as int]@,
            ),
        forall|k: int| 0 <= k < old_entries.len() ==> (#[trigger] old_entries[k]).name@.len() >= 1,
        forall|k: int|
            0 <= k < old_entries.len() ==> (#[trigger] old_entries[k]).name@.len() <= max_name_len,
        forall|k: int|
            0 <= k < old_entries.len() ==> ps.take(ii).contains(
                (specs[(#[trigger] old_entries[k]).spec_idx as int]@, old_entries[k].name@),
            ),
        forall|a: int| 0 <= a < ii ==> table_has(old_entries, specs, #[trigger] ps[a]),
    ensures
        forall|a: int, b: int|
            0 <= a < b < new_entries.len() ==> lex_lt(
                #[trigger] new_entries[a].name@,
                #[trigger] new_entries[b].name@,
            ),
        forall|a: int| 0 <= a < ii ==> ps[a].1 != ps[ii].1,
        forall|k: int|
            0 <= k < new_entries.len() ==> (#[trigger] new_entries[k]).spec_idx < specs.len(),
        forall|k: int|
            0 <= k < new_entries.len() ==> (#[trigger] new_entries[k]).arity as int == arity_of(
                specs[new_entries[k].spec_idx as int]@,
            ),
        forall|k: int| 0 <= k < new_entries.len() ==> (#[trigger] new_entries[k]).name@.len() >= 1,
        forall|k: int|
            0 <= k < new_entries.len() ==> (#[trigger] new_entries[k]).name@.len() <= max_name_len,
        forall|k: int|
            0 <= k < new_entries.len() ==> ps.take(ii + 1).contains(
                (specs[(#[trigger] new_entries[k]).spec_idx as int]@, new_entries[k].name@),
            ),
        forall|a: int| 0 <= a < ii + 1 ==> table_has(new_entries, specs, #[trigger] ps[a]),
{
    assert forall|a: int, b: int|
        0 <= a < b < new_entries.len() implies lex_lt(
            #[trigger] new_entries[a].name@,
            #[trigger] new_entries[b].name@,
        ) by {
        if a < ki && b == ki {
        } else if a == ki && b > ki {
            if b - 1 > ki {
                lemma_lex_trans(e.name@, old_entries[ki].name@, old_entries[b - 1].name@);
            }
        } else if a < ki && b > ki {
            assert(lex_lt(old_entries[a].name@, old_entries[b - 1].name@));
        } else if a > ki && b > ki {
            assert(lex_lt(old_entries[a - 1].name@, old_entries[b - 1].name@));
        }
    }
    assert forall|a: int| 0 <= a < ii implies ps[a].1 != ps[ii].1 by {
        assert(table_has(old_entries, specs, ps[a]));
        let kk = choose|kk: int|
            0 <= kk < old_entries.len() && (#[trigger] old_entries[kk]).name@ == ps[a].1 && specs[
                old_entries[kk].spec_idx as int
            ]@ == ps[a].0;
        assert(old_entries[kk].name@ != e.name@);
    }
    assert forall|k: int|
        0 <= k < new_entries.len() implies ps.take(ii + 1).contains(
            (specs[(#[trigger] new_entries[k]).spec_idx as int]@, new_entries[k].name@),
        ) by {
        if k < ki {
            lemma_take_contains_mono(
                ps,
                ii,
                ii + 1,
                (specs[old_entries[k].spec_idx as int]@, old_entries[k].name@),
            );
        } else if k == ki {
            assert(ps.take(ii + 1)[ii] == ps[ii]);
        } else {
            lemma_take_contains_mono(
                ps,
                ii,
                ii + 1,
                (specs[old_entries[k - 1].spec_idx as int]@, old_entries[k - 1].name@),
            );
        }
    }
    assert forall|a: int| 0 <= a < ii + 1 implies table_has(new_entries, specs, #[trigger] ps[a])
        by {
        if a < ii {
            assert(table_has(old_entries, specs, ps[a]));
            let kk = choose|kk: int|
                0 <= kk < old_entries.len() && (#[trigger] old_entries[kk]).name@ == ps[a].1
                    && specs[old_entries[kk].spec_idx as int]@ == ps[a].0;
            if kk < ki {
                assert(new_entries[kk].name@ == ps[a].1 && specs[new_entries[kk].spec_idx as int]@
                    == ps[a].0);
            } else {
                assert(new_entries[kk + 1].name@ == ps[a].1 && specs[new_entries[kk
                    + 1].spec_idx as int]@ == ps[a].0);
            }
        } else {
            assert(new_entries[ki].name@ == ps[a].1 && specs[new_entries[ki].spec_idx as int]@
                == ps[a].0);
        }
    }
}

impl Registry {
    /// Builds the registry from groups of `(descriptor, function names)`.
    ///
    /// Every pair's descriptor must be well formed and at most 255 codes
    /// long, every name non-empty, and all names distinct; the first
    /// violation, checked in that order, rejects the whole registration.
    /// `max_hex_len` is the largest decoded length a hex byte-string
    /// argument may have.
    #[verifier::rlimit(100)]
    #[verifier::spinoff_prover]
    pub fn new(groups: Vec<(String, Vec<String>)>, max_hex_len: usize) -> (r: Result<
        Registry,
        ConfigError,
    >)
        ensures
            ({
                let ps = flat_pairs(groups@);
                &&& (r == Err::<Registry, ConfigError>(ConfigError::BadDescriptor) <==>
                    some_bad_desc(ps))
                &&& (r == Err::<Registry, ConfigError>(ConfigError::EmptyName) <==> (
                !some_bad_desc(ps) && some_empty_name(ps)))
                &&& (r == Err::<Registry, ConfigError>(ConfigError::DuplicateName) <==> (
                !some_bad_desc(ps) && !some_empty_name(ps) && some_dup_name(ps)))
                &&& (r matches Ok(reg) ==> reg.wf() && reg.registers(ps) && reg.max_hex_len
                    == max_hex_len)
            }),
    {
        let flat = flatten_groups(&groups);
        let ghost ps = flat_pairs(groups@);
        proof {
            assert(ps == pair_views(flat@));
        }
        // First the descriptors, then the names, then uniqueness.
        let mut i: usize = 0;
        while i < flat.len()
            invariant
                ps == flat_pairs(groups@),
                pair_views(flat@) == ps,
                i <= flat@.len(),
                forall|j: int| 0 <= j < i ==> usable_descriptor(#[trigger] ps[j].0),
            decreases flat@.len() - i,
        {
            let d: &String = &flat[i].0;
            proof {
                assert(ps[i as int] == (flat@[i as int].0@, flat@[i as int].1@));
            }
            let n = d.as_str().unicode_len();
            if !(descriptor_ok(d.as_str()) && n <= 255) {
                proof {
                    assert(!usable_descriptor(ps[i as int].0));
                }
                return Err(ConfigError::BadDescriptor);
            }
            i = i + 1;
        }
        proof {
            assert(!some_bad_desc(ps));
        }
        let mut i: usize = 0;
        while i < flat.len()
            invariant
                ps == flat_pairs(groups@),
                pair_views(flat@) == ps,
                i <= flat@.len(),
                forall|j: int| 0 <= j < ps.len() ==> usable_descriptor(#[trigger] ps[j].0),
                forall|j: int| 0 <= j < i ==> (#[trigger] ps[j].1).len() >= 1,
            decreases flat@.len() - i,
        {
            proof {
                assert(ps[i as int] == (flat@[i as int].0@, flat@[i as int].1@));
            }
            if flat[i].1.as_str().is_empty() {
                proof {
                    assert(ps[i as int].1.len() == 0);
                }
                return Err(ConfigError::EmptyName);
            }
            i = i + 1;
        }
        proof {
            assert(!some_empty_name(ps));
        }
        // Build the deduplicated descriptor table and the sorted entry
        // table, watching for duplicate names.
        let mut specs: Vec<String> = Vec::new();
        let mut entries: Vec<Entry> = Vec::new();
        let mut maxima = HostCounts::zero();
        let mut max_arity: usize = 0;
        let mut max_name_len: usize = 0;
        let mut i: usize = 0;
        while i < flat.len()
            invariant
                ps == flat_pairs(groups@),
                pair_views(flat@) == ps,
                i <= flat@.len(),
                forall|j: int| 0 <= j < ps.len() ==> usable_descriptor(#[trigger] ps[j].0),
                forall|j: int| 0 <= j < ps.len() ==> (#[trigger] ps[j].1).len() >= 1,
                // no duplicate name among the pairs handled so far
                forall|a: int, b: int| 0 <= a < b < i ==> ps[a].1 != ps[b].1,
                // the descriptor table
                forall|k: int| 0 <= k < specs@.len() ==> usable_descriptor(#[trigger] specs@[k]@),
                forall|k: int|
                    0 <= k < specs@.len() ==> counts_le(
                        HostCounts::spec_of(#[trigger] specs@[k]@),
                        maxima,
                    ),
                forall|k: int|
                    0 <= k < specs@.len() ==> arity_of(#[trigger] specs@[k]@) <= max_arity,
                max_arity <= u8::MAX,
                // the entry table
                forall|k: int|
                    0 <= k < entries@.len() ==> (#[trigger] entries@[k]).spec_idx < specs@.len(),
                forall|a: int, b: int|
                    0 <= a < b < entries@.len() ==> lex_lt(
                        #[trigger] entries@[a].name@,
                        #[trigger] entries@[b].name@,
                    ),
                forall|k: int|
                    0 <= k < entries@.len() ==> (#[trigger] entries@[k]).arity as int == arity_of(
                        specs@[entries@[k].spec_idx as int]@,
                    ),
                forall|k: int|
                    0 <= k < entries@.len() ==> (#[trigger] entries@[k]).name@.len() >= 1,
                forall|k: int|
                    0 <= k < entries@.len() ==> (#[trigger] entries@[k]).name@.len()
                        <= max_name_len,
                // correspondence between entries and the pairs handled
                forall|k: int|
                    0 <= k < entries@.len() ==> ps.take(i as int).contains(
                        (
                            specs@[(#[trigger] entries@[k]).spec_idx as int]@,
                            entries@[k].name@,
                        ),
                    ),
                forall|a: int| 0 <= a < i ==> table_has(entries@, specs@, #[trigger] ps[a]),
            decreases flat@.len() - i,
        {
            let desc: &String = &flat[i].0;
            let name: &String = &flat[i].1;
            proof {
                assert(ps[i as int] == (flat@[i as int].0@, flat@[i as int].1@));
                assert(ps[i as int] == (desc@, name@));
                assert(ps[i as int].0 == desc@);
                assert(ps[i as int].1 == name@);
                assert(name@.len() >= 1);
                assert(usable_descriptor(desc@));
            }
            // Find or add the descriptor.
            let mut si: usize = 0;
            let mut spec_idx: usize = specs.len();
            let mut found = false;
            while si < specs.len()
                invariant
                    si <= specs@.len(),
                    desc@ == pair_views(flat@)[i as int].0,
                    !found ==> spec_idx == specs@.len(),
                    found ==> spec_idx < specs@.len() && specs@[spec_idx as int]@ == desc@,
                decreases specs@.len() - si,
            {
                if !found && crate::scan::str_eq(specs[si].as_str(), desc.as_str()) {
                    spec_idx = si;
                    found = true;
                }
                si = si + 1;
            }
            if !found {
                let ghost old_maxima = maxima;
                let c = count_descriptor(desc.as_str());
                maxima = host_counts_max(maxima, c);
                let a = descriptor_arity(desc.as_str());
                if a > max_arity {
                    max_arity = a;
                }
                let ghost old_specs = specs@;
                specs.push(desc.clone());
                spec_idx = specs.len() - 1;
                proof {
                    assert forall|a: int| 0 <= a < i implies table_has(
                        entries@,
                        specs@,
                        #[trigger] ps[a],
                    ) by {
                        lemma_table_has_extend(entries@, old_specs, specs@, ps[a]);
                    }
                    assert forall|k: int|
                        0 <= k < entries@.len() implies ps.take(i as int).contains(
                            (
                                specs@[(#[trigger] entries@[k]).spec_idx as int]@,
                                entries@[k].name@,
                            ),
                        ) by {
                        assert(specs@[entries@[k].spec_idx as int] == old_specs[entries@[k].spec_idx as int]);
                    }
                    assert forall|j: int|
                        0 <= j < specs@.len() implies counts_le(
                            HostCounts::spec_of(#[trigger] specs@[j]@),
                            maxima,
                        ) by {
                        if j < specs@.len() - 1 {
                            lemma_counts_le_grow(
                                HostCounts::spec_of(specs@[j]@),
                                old_maxima,
                                HostCounts::spec_of(desc@),
                            );
                        } else {
                            lemma_counts_le_grow(
                                HostCounts::spec_of(desc@),
                                HostCounts::spec_of(desc@),
                                old_maxima,
                            );
                            assert(counts_le(
                                HostCounts::spec_of(desc@),
                                HostCounts::spec_max(old_maxima, HostCounts::spec_of(desc@)),
                            ));
                        }
                    }
                }
            }
            // Find the insertion point among the sorted entries.
            let nv = str_to_chars(name.as_str());
            let mut k: usize = 0;
            loop
                invariant
                    nv@ == name@,
                    k <= entries@.len(),
                    forall|j: int| 0 <= j < k ==> lex_lt(#[trigger] entries@[j].name@, name@),
                ensures
                    k <= entries@.len(),
                    forall|j: int| 0 <= j < k ==> lex_lt(#[trigger] entries@[j].name@, name@),
                    k < entries@.len() ==> !lex_lt(entries@[k as int].name@, name@),
                decreases entries@.len() - k,
            {
                if k >= entries.len() {
                    break;
                }
                let ev = str_to_chars(entries[k].name.as_str());
                if !chars_lt(&ev, &nv) {
                    break;
                }
                k = k + 1;
            }
            if k < entries.len() && crate::scan::str_eq(entries[k].name.as_str(), name.as_str()) {
                // The name is already taken by an earlier pair.
                proof {
                    let taken = (specs@[entries@[k as int].spec_idx as int]@, entries@[k as int].name@);
                    assert(ps.take(i as int).contains(taken));
                    let a = choose|a: int| 0 <= a < i && ps.take(i as int)[a] == taken;
                    assert(ps[a].1 == name@);
                    assert(ps[a].1 == ps[i as int].1);
                }
                return Err(ConfigError::DuplicateName);
            }
            proof {
                // The new name is strictly between its neighbours.
                if k < entries@.len() {
                    lemma_lex_trichotomy(entries@[k as int].name@, name@);
                }
                // It also appears nowhere else in the table.
                assert forall|m: int| 0 <= m < entries@.len() implies entries@[m].name@ != name@ by {
                    lemma_lex_irrefl(name@);
                    if m < k as int {
                    } else if m > k as int {
                        if k < entries@.len() {
                            lemma_lex_trans(name@, entries@[k as int].name@, entries@[m].name@);
                        }
                    }
                }
            }
            let n_len = name.as_str().unicode_len();
            if n_len > max_name_len {
                max_name_len = n_len;
            }
            let ghost old_entries = entries@;
            let e = Entry { name: name.clone(), arity: descriptor_arity(desc.as_str()) as u8, spec_idx };
            entries.insert(k, e);
            i = i + 1;
            proof {
                lemma_insert_entry(
                    ps,
                    specs@,
                    old_entries,
                    entries@,
                    e,
                    k as int,
                    i as int - 1,
                    max_name_len as int,
                );
            }
        }
        proof {
            assert(ps.take(ps.len() as int) =~= ps);
            assert(!some_dup_name(ps));
        }
        let reg = Registry { specs, entries, maxima, max_arity, max_name_len, max_hex_len };
        proof {
            assert(reg.wf());
            assert forall|k: int|
                0 <= k < reg.entries@.len() implies ps.contains(
                    (reg.desc_at(k), #[trigger] reg.entries@[k].name@),
                ) by {
                assert(ps.take(ps.len() as int).contains(
                    (specs@[entries@[k].spec_idx as int]@, entries@[k].name@),
                ));
            }
            assert(forall|a: int|
                0 <= a < ps.len() ==> table_has(reg.entries@, reg.specs@, #[trigger] ps[a]));
            assert(reg.registers(ps));
        }
        Ok(reg)
    }
}

} // verus!


