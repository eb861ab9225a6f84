//! A fixed-capacity command history.
//!
//! `History<HTC, HME>` stores at most `HME` entries holding at most `HTC`
//! bytes in all.  Pushing trims the entry, rejects over-long entries and
//! byte-for-byte duplicates, and evicts the oldest entries until the new
//! one fits.  Alongside each entry the history keeps the offset its bytes
//! would occupy in an `HTC`-byte ring written front to back, and a cursor
//! for previous/next navigation.

use vstd::prelude::*;
use crate::chars::push_char;
use vstd::string::{StringSliceAdditionalSpecFns, StrSliceExecFns};

verus! {

/// True for the ASCII whitespace bytes trimmed from an entry's ends.
pub open spec fn is_ws_byte(b: u8) -> bool {
    b == 32 || b == 9 || b == 10 || b == 13 || b == 12
}

/// Executable test matching [`is_ws_byte`].
pub fn ws_byte(b: u8) -> (r: bool)
    ensures
        r == is_ws_byte(b),
{
    b == 32 || b == 9 || b == 10 || b == 13 || b == 12
}

/// The whitespace-trimmed core of a byte string.
pub open spec fn trimmed_bytes(s: Seq<u8>) -> Seq<u8>
    decreases s.len(),
{
    if s.len() == 0 {
        s
    } else if is_ws_byte(s[0]) {
        trimmed_bytes(s.drop_first())
    } else if is_ws_byte(s.last()) {
        trimmed_bytes(s.drop_last())
    } else {
        s
    }
}

/// Dropping a leading whitespace byte does not change the trimmed core.
proof fn lemma_trimmed_bytes_drop_first(s: Seq<u8>)
    requires
        s.len() > 0,
        is_ws_byte(s[0]),
    ensures
        trimmed_bytes(s) == trimmed_bytes(s.drop_first()),
{
}

/// Dropping a trailing whitespace byte does not change the trimmed core.
proof fn lemma_trimmed_bytes_drop_last(s: Seq<u8>)
    requires
        s.len() > 0,
        is_ws_byte(s.last()),
    ensures
        trimmed_bytes(s) == trimmed_bytes(s.drop_last()),
    decreases s.len(),
{
    if is_ws_byte(s[0]) {
        if s.len() == 1 {
            assert(s.drop_first() =~= s.drop_last());
        } else {
            lemma_trimmed_bytes_drop_last(s.drop_first());
            assert(s.drop_first().drop_last() =~= s.drop_last().drop_first());
            assert(s.drop_last()[0] == s[0]);
            assert(trimmed_bytes(s.drop_last()) == trimmed_bytes(s.drop_last().drop_first()));
        }
    }
}

/// Removes leading and trailing ASCII whitespace from a byte vector.
pub fn trim_bytes(v: &Vec<u8>) -> (r: Vec<u8>)
    ensures
        r@ == trimmed_bytes(v@),
{
    let mut lo: usize = 0;
    let mut hi: usize = v.len();
    proof {
        assert(v@.subrange(0, v@.len() as int) =~= v@);
    }
    while lo < hi && ws_byte(v[lo])
        invariant
            lo <= hi <= v@.len(),
            trimmed_bytes(v@) == trimmed_bytes(v@.subrange(lo as int, hi as int)),
        decreases hi - lo,
    {
        proof {
            lemma_trimmed_bytes_drop_first(v@.subrange(lo as int, hi as int));
            assert(v@.subrange(lo as int, hi as int).drop_first() =~= v@.subrange(
                lo as int + 1,
                hi as int,
            ));
        }
        lo = lo + 1;
    }
    while lo < hi && ws_byte(v[hi - 1])
        invariant
            lo <= hi <= v@.len(),
            trimmed_bytes(v@) == trimmed_bytes(v@.subrange(lo as int, hi as int)),
        decreases hi - lo,
    {
        proof {
            lemma_trimmed_bytes_drop_last(v@.subrange(lo as int, hi as int));
            assert(v@.subrange(lo as int, hi as int).drop_last() =~= v@.subrange(
                lo as int,
                hi as int - 1,
            ));
        }
        hi = hi - 1;
    }
    let mut r: Vec<u8> = Vec::new();
    let mut i: usize = lo;
    while i < hi
        invariant
            lo <= i <= hi <= v@.len(),
            r@ == v@.subrange(lo as int, i as int),
        decreases hi - i,
    {
        r.push(v[i]);
        i = i + 1;
        proof {
            assert(r@ =~= v@.subrange(lo as int, i as int));
        }
    }
    r
}

/// The total byte length of a list of entries.
pub open spec fn used_of(es: Seq<Seq<u8>>) -> int
    decreases es.len(),
{
    if es.len() == 0 {
        0
    } else {
        es[0].len() + used_of(es.drop_first())
    }
}

/// Entry lengths are never negative in total.
pub proof fn lemma_used_nonneg(es: Seq<Seq<u8>>)
    ensures
        used_of(es) >= 0,
    decreases es.len(),
{
    if es.len() > 0 {
        lemma_used_nonneg(es.drop_first());
    }
}

/// How many oldest entries must leave before `need` bytes fit in `cap`.
pub open spec fn evict_count(es: Seq<Seq<u8>>, need: int, cap: int) -> int
    decreases es.len(),
{
    if cap - used_of(es) >= need || es.len() == 0 {
        0
    } else {
        1 + evict_count(es.drop_first(), need, cap)
    }
}

/// Whether `t` duplicates a stored entry, up to trimming.
pub open spec fn has_dup(es: Seq<Seq<u8>>, t: Seq<u8>) -> bool {
    exists|i: int| 0 <= i < es.len() && trimmed_bytes(#[trigger] es[i]) == t
}

/// The ring position and length one stored entry's bytes occupy.
#[derive(Debug, Clone, Copy, PartialEq, Eq, Structural)]
pub struct EntryMeta {
    pub offset: usize,
    pub length: usize,
}

/// The characters a byte string shows as when each byte is read as one
/// character.
pub open spec fn latin1_chars(s: Seq<u8>) -> Seq<char> {
    s.map_values(|b: u8| b as char)
}

/// The storage a byte costs when its character is written back as text:
/// one byte below 128, two above.
pub open spec fn byte_char_cost(b: u8) -> int {
    if b < 128 {
        1
    } else {
        2
    }
}

/// The total storage cost of a byte string's characters.
pub open spec fn latin1_cost(s: Seq<u8>) -> int
    decreases s.len(),
{
    if s.len() == 0 {
        0
    } else {
        latin1_cost(s.drop_last()) + byte_char_cost(s.last())
    }
}

/// A prefix never costs more than the whole string.
pub proof fn lemma_latin1_cost_prefix(s: Seq<u8>, k: int)
    requires
        0 <= k <= s.len(),
    ensures
        latin1_cost(s.take(k)) <= latin1_cost(s),
    decreases s.len() - k,
{
    if k < s.len() {
        lemma_latin1_cost_prefix(s, k + 1);
        assert(s.take(k + 1).drop_last() =~= s.take(k));
    } else {
        assert(s.take(k) =~= s);
    }
}

/// What reading an entry into a text buffer of `iml` bytes yields: its
/// first `min(len, iml)` bytes as characters, or nothing if their text
/// does not fit.
pub open spec fn read_back(bytes: Seq<u8>, iml: int) -> Option<Seq<char>> {
    let cut = if bytes.len() <= iml {
        bytes
    } else {
        bytes.take(iml)
    };
    if latin1_cost(cut) <= iml {
        Some(latin1_chars(cut))
    } else {
        None
    }
}

/// A fixed-capacity, self-evicting command history of at most `HME`
/// entries and `HTC` bytes.
pub struct History<const HTC: usize, const HME: usize> {
    /// The stored entries, oldest first, each already trimmed.
    pub items: Vec<Vec<u8>>,
    /// Ring bookkeeping per entry, parallel to `items`.
    pub metas: Vec<EntryMeta>,
    /// Where in the byte ring the next entry would be written.
    pub data_head: usize,
    /// Which ring slot the next entry would take.
    pub entry_head: usize,
    /// The navigation cursor.
    pub current_index: usize,
}

impl<const HTC: usize, const HME: usize> History<HTC, HME> {
    /// The stored entries as byte strings, oldest first.
    pub open spec fn model(self) -> Seq<Seq<u8>> {
        self.items@.map_values(|v: Vec<u8>| v@)
    }

    /// The history's structural invariant.
    pub open spec fn wf(self) -> bool {
        &&& HTC >= 1
        &&& HME >= 1
        &&& self.items@.len() == self.metas@.len()
        &&& self.items@.len() <= HME
        &&& used_of(self.model()) <= HTC
        &&& forall|i: int|
            0 <= i < self.items@.len() ==> (#[trigger] self.metas@[i]).length == self.items@[i]@.len()
        &&& forall|i: int| 0 <= i < self.items@.len() ==> (#[trigger] self.items@[i])@.len() <= HTC
        &&& self.data_head < HTC
        &&& self.entry_head < HME
        &&& (self.items@.len() == 0 ==> self.current_index == 0)
        &&& (self.items@.len() > 0 ==> self.current_index < self.items@.len())
    }

    /// Creates a new, empty history.
    pub fn new() -> (r: History<HTC, HME>)
        requires
            HTC >= 1,
            HME >= 1,
        ensures
            r.wf(),
            r.model() == Seq::<Seq<u8>>::empty(),
            r.data_head == 0,
            r.entry_head == 0,
            r.current_index == 0,
    {
        let r = History { items: Vec::new(), metas: Vec::new(), data_head: 0, entry_head: 0, current_index: 0 };
        proof {
            assert(r.model() =~= Seq::<Seq<u8>>::empty());
        }
        r
    }

    /// The number of stored entries.
    pub fn entry_size(&self) -> (r: usize)
        ensures
            r == self.model().len(),
    {
        self.items.len()
    }

    /// The navigation cursor's position.
    pub fn index(&self) -> (r: usize)
        ensures
            r == self.current_index,
    {
        self.current_index
    }

    /// Where in the byte ring the next entry would be written.
    pub fn head(&self) -> (r: (usize, usize))
        ensures
            r == (self.data_head, self.entry_head),
    {
        (self.data_head, self.entry_head)
    }

    /// Whether the history holds no entries.
    pub fn is_empty(&self) -> (r: bool)
        ensures
            r == (self.model().len() == 0),
    {
        self.items.len() == 0
    }

    /// Moves the cursor, if the position names a stored entry.
    pub fn set_index(&mut self, index: usize)
        requires
            old(self).wf(),
        ensures
            final(self).wf(),
            final(self).model() == old(self).model(),
            final(self).current_index == if index < old(self).model().len() {
                index as int
            } else {
                old(self).current_index as int
            },
            final(self).data_head == old(self).data_head,
            final(self).entry_head == old(self).entry_head,
    {
        if index < self.items.len() {
            self.current_index = index;
        }
    }

    /// Removes every entry and resets the ring and the cursor.
    pub fn clear(&mut self)
        requires
            HTC >= 1,
            HME >= 1,
        ensures
            final(self).wf(),
            final(self).model() == Seq::<Seq<u8>>::empty(),
            final(self).data_head == 0,
            final(self).entry_head == 0,
            final(self).current_index == 0,
    {
        self.items = Vec::new();
        self.metas = Vec::new();
        self.data_head = 0;
        self.entry_head = 0;
        self.current_index = 0;
        proof {
            assert(self.model() =~= Seq::<Seq<u8>>::empty());
        }
    }

    /// The free bytes and free entry slots.
    pub fn get_free_space(&self) -> (r: (usize, usize))
        requires
            self.wf(),
        ensures
            r.0 as int == HTC - used_of(self.model()),
            r.1 as int == HME - self.model().len(),
    {
        let mut used: usize = 0;
        let mut i: usize = 0;
        let ghost m = self.model();
        proof {
            assert(m.skip(0) =~= m);
        }
        while i < self.items.len()
            invariant
                self.wf(),
                m == self.model(),
                i <= self.items@.len(),
                used as int == used_of(m) - used_of(m.skip(i as int)),
                used <= HTC,
            decreases self.items@.len() - i,
        {
            proof {
                lemma_used_skip_step(m, i as int);
                lemma_used_nonneg(m.skip(i as int + 1));
                lemma_used_skip_le(m, i as int + 1);
            }
            used = used + self.items[i].len();
            i = i + 1;
        }
        proof {
            assert(m.skip(m.len() as int) =~= Seq::<Seq<u8>>::empty());
        }
        (HTC - used, HME - self.items.len())
    }

    /// Reads the entry at `index` into a text buffer of `IML` bytes.
    pub fn get<const IML: usize>(&self, index: usize) -> (r: Option<String>)
        requires
            self.wf(),
        ensures
            r is Some <==> index < self.model().len() && read_back(
                self.model()[index as int],
                IML as int,
            ) is Some,
            r matches Some(s) ==> Some(s@) == read_back(self.model()[index as int], IML as int),
    {
        if index >= self.items.len() {
            return None;
        }
        let bytes: &Vec<u8> = &self.items[index];
        let n = if bytes.len() <= IML {
            bytes.len()
        } else {
            IML
        };
        let ghost cut = if bytes@.len() <= IML as int {
            bytes@
        } else {
            bytes@.take(IML as int)
        };
        proof {
            assert(cut =~= bytes@.take(n as int));
            assert(latin1_cost(cut.take(0)) == 0) by {
                assert(cut.take(0) =~= Seq::<u8>::empty());
            }
        }
        let mut s = String::new();
        let mut cost: usize = 0;
        let mut j: usize = 0;
        while j < n
            invariant
                self.wf(),
                index < self.items@.len(),
                bytes@ == self.items@[index as int]@,
                n <= bytes@.len(),
                n <= IML,
                n as int == if bytes@.len() <= IML as int {
                    bytes@.len() as int
                } else {
                    IML as int
                },
                cut == bytes@.take(n as int),
                j <= n,
                cost as int == latin1_cost(cut.take(j as int)),
                cost <= IML,
                s@ == latin1_chars(cut.take(j as int)),
            decreases n - j,
        {
            let b = bytes[j];
            let step: usize = if b < 128 {
                1
            } else {
                2
            };
            proof {
                assert(cut.take(j + 1).drop_last() =~= cut.take(j as int));
                assert(cut.take(j + 1).last() == cut[j as int]);
                assert(cut[j as int] == bytes@[j as int]);
            }
            if step > IML || cost > IML - step {
                proof {
                    assert(latin1_cost(cut.take(j + 1)) > IML);
                    lemma_latin1_cost_prefix(cut, j + 1);
                    assert(latin1_cost(cut) > IML);
                    assert(self.model()[index as int] == bytes@);
                    if bytes@.len() <= IML as int {
                        assert(cut =~= bytes@);
                    } else {
                        assert(cut =~= bytes@.take(IML as int));
                    }
                    assert(read_back(self.model()[index as int], IML as int) is None);
                }
                return None;
            }
            cost = cost + step;
            push_char(&mut s, b as char);
            j = j + 1;
            proof {
                assert(s@ =~= latin1_chars(cut.take(j as int)));
            }
        }
        proof {
            assert(cut.take(n as int) =~= cut);
        }
        Some(s)
    }

    /// Reads the entry at `index` together with its position.
    pub fn get_at_index<const IML: usize>(&self, index: usize) -> (r: Option<(usize, String)>)
        requires
            self.wf(),
        ensures
            r is Some <==> index < self.model().len() && read_back(
                self.model()[index as int],
                IML as int,
            ) is Some,
            r matches Some((i, s)) ==> i == index && Some(s@) == read_back(
                self.model()[index as int],
                IML as int,
            ),
    {
        match self.get::<IML>(index) {
            Some(s) => Some((index, s)),
            None => None,
        }
    }

    /// Moves the cursor to the previous entry and reads it.
    pub fn get_prev_entry<const IML: usize>(&mut self) -> (r: Option<String>)
        requires
            old(self).wf(),
        ensures
            final(self).wf(),
            final(self).model() == old(self).model(),
            old(self).model().len() == 0 ==> r is None && *final(self) == *old(self),
            old(self).model().len() > 0 ==> {
                let ix = if old(self).current_index == 0 {
                    old(self).model().len() - 1
                } else {
                    old(self).current_index - 1
                };
                &&& final(self).current_index as int == ix
                &&& (r is Some <==> read_back(old(self).model()[ix], IML as int) is Some)
                &&& (r matches Some(s) ==> Some(s@) == read_back(old(self).model()[ix], IML as int))
            },
    {
        if self.items.len() == 0 {
            return None;
        }
        if self.current_index == 0 {
            self.current_index = self.items.len() - 1;
        } else {
            self.current_index = self.current_index - 1;
        }
        self.get::<IML>(self.current_index)
    }

    /// Moves the cursor to the next entry and reads it.
    pub fn get_next_entry<const IML: usize>(&mut self) -> (r: Option<String>)
        requires
            old(self).wf(),
        ensures
            final(self).wf(),
            final(self).model() == old(self).model(),
            old(self).model().len() == 0 ==> r is None && *final(self) == *old(self),
            old(self).model().len() > 0 ==> {
                let ix = (old(self).current_index + 1) % (old(self).model().len() as int);
                &&& final(self).current_index as int == ix
                &&& (r is Some <==> read_back(old(self).model()[ix], IML as int) is Some)
                &&& (r matches Some(s) ==> Some(s@) == read_back(old(self).model()[ix], IML as int))
            },
    {
        if self.items.len() == 0 {
            return None;
        }
        self.current_index = (self.current_index + 1) % self.items.len();
        self.get::<IML>(self.current_index)
    }

    /// Reads the oldest entry.
    pub fn get_first_entry<const IML: usize>(&self) -> (r: Option<String>)
        requires
            self.wf(),
        ensures
            self.model().len() == 0 ==> r is None,
            self.model().len() > 0 ==> {
                &&& (r is Some <==> read_back(self.model()[0], IML as int) is Some)
                &&& (r matches Some(s) ==> Some(s@) == read_back(self.model()[0], IML as int))
            },
    {
        if self.items.len() == 0 {
            return None;
        }
        self.get::<IML>(0)
    }

    /// Reads the newest entry.
    pub fn get_last_entry<const IML: usize>(&self) -> (r: Option<String>)
        requires
            self.wf(),
        ensures
            self.model().len() == 0 ==> r is None,
            self.model().len() > 0 ==> {
                let ix = self.model().len() - 1;
                &&& (r is Some <==> read_back(self.model()[ix], IML as int) is Some)
                &&& (r matches Some(s) ==> Some(s@) == read_back(self.model()[ix], IML as int))
            },
    {
        if self.items.len() == 0 {
            return None;
        }
        self.get::<IML>(self.items.len() - 1)
    }

    /// Pushes one entry: trims it, rejects it when it is longer than the
    /// whole byte capacity or duplicates a stored entry, and otherwise
    /// evicts the oldest entries until it fits — one more when every slot
    /// is taken — and appends it.
    pub fn push(&mut self, s: &str) -> (r: bool)
        requires
            old(self).wf(),
        ensures
            final(self).wf(),
            ({
                let t = trimmed_bytes(s.spec_bytes());
                let m = old(self).model();
                &&& r == (t.len() <= HTC && !has_dup(m, t))
                &&& (!r ==> *final(self) == *old(self))
                &&& (r ==> {
                    let d = evict_count(m, t.len() as int, HTC as int);
                    let d2 = if m.len() - d == HME {
                        d + 1
                    } else {
                        d
                    };
                    &&& final(self).model() == m.skip(d2).push(t)
                    &&& final(self).current_index == final(self).model().len() - 1
                    &&& final(self).data_head as int == (old(self).data_head + t.len()) % (
                    HTC as int)
                    &&& final(self).entry_head as int == (old(self).entry_head + 1) % (HME as int)
                })
            }),
    {
        let ghost m = self.model();
        let bytes = trim_bytes(&s.as_bytes_vec());
        let ghost t = bytes@;
        let len = bytes.len();
        if len > HTC {
            return false;
        }
        // Reject duplicates.
        let mut i: usize = 0;
        while i < self.items.len()
            invariant
                self.wf(),
                m == self.model(),
                t == trimmed_bytes(s.spec_bytes()),
                bytes@ == t,
                i <= self.items@.len(),
                forall|j: int| 0 <= j < i ==> trimmed_bytes(#[trigger] m[j]) != t,
            decreases self.items@.len() - i,
        {
            let et = trim_bytes(&self.items[i]);
            if bytes_eq(&et, &bytes) {
                proof {
                    assert(trimmed_bytes(m[i as int]) == t);
                }
                return false;
            }
            i = i + 1;
        }
        proof {
            assert(!has_dup(m, t));
        }
        // Evict the oldest entries until the new one fits.
        let (mut free, _) = self.get_free_space();
        let ghost d = evict_count(m, t.len() as int, HTC as int);
        let ghost mut dropped: int = 0;
        while free < len && self.items.len() > 0
            invariant
                self.wf(),
                t == trimmed_bytes(s.spec_bytes()),
                len == t.len(),
                len <= HTC,
                0 <= dropped <= m.len(),
                self.model() == m.skip(dropped),
                self.metas@.len() == self.items@.len(),
                free as int == HTC - used_of(self.model()),
                d == dropped + evict_count(self.model(), t.len() as int, HTC as int),
                self.data_head == old(self).data_head,
                self.entry_head == old(self).entry_head,
            decreases self.items@.len(),
        {
            let first_len = self.metas[0].length;
            proof {
                assert(self.model()[0] == self.items@[0]@);
                assert(first_len == self.model()[0].len());
                lemma_used_nonneg(self.model().drop_first());
            }
            free = free + first_len;
            let ghost pre = self.model();
            self.items.remove(0);
            self.metas.remove(0);
            proof {
                dropped = dropped + 1;
                assert(self.model() =~= pre.drop_first());
                assert(pre.drop_first() =~= m.skip(dropped));
            }
            if self.current_index > 0 {
                self.current_index = self.current_index - 1;
            } else {
                self.current_index = 0;
            }
        }
        proof {
            if free < len {
                assert(self.model().len() == 0);
                lemma_used_nonneg(self.model());
                assert(used_of(self.model()) == 0);
                assert(false);
            }
            assert(evict_count(self.model(), t.len() as int, HTC as int) == 0);
            assert(dropped == d);
        }
        // A full slot table costs the oldest entry its place.
        if self.items.len() >= HME {
            let ghost pre = self.model();
            self.items.remove(0);
            self.metas.remove(0);
            proof {
                assert(self.model() =~= pre.drop_first());
                assert(pre.drop_first() =~= m.skip(d + 1));
                lemma_used_drop_first(pre);
                lemma_used_nonneg(self.model());
            }
        }
        proof {
            lemma_used_push(self.model(), t);
        }
        let offset = self.data_head;
        self.items.push(bytes);
        self.metas.push(EntryMeta { offset, length: len });
        let rem = HTC - self.data_head;
        let dh_new = if len >= rem {
            len - rem
        } else {
            self.data_head + len
        };
        proof {
            let dh = self.data_head as int;
            let ln = len as int;
            let cap = HTC as int;
            if len >= rem {
                assert((dh + ln) % cap == dh + ln - cap) by (nonlinear_arith)
                    requires
                        cap >= 1,
                        0 <= dh < cap,
                        0 <= ln <= cap,
                        dh + ln >= cap,
                ;
            } else {
                assert((dh + ln) % cap == dh + ln) by (nonlinear_arith)
                    requires
                        cap >= 1,
                        0 <= dh < cap,
                        0 <= ln,
                        dh + ln < cap,
                ;
            }
        }
        self.data_head = dh_new;
        self.entry_head = (self.entry_head + 1) % HME;
        self.current_index = self.items.len() - 1;
        proof {
            let mm = if m.len() - d == HME as int {
                m.skip(d + 1)
            } else {
                m.skip(d)
            };
            assert(self.model() =~= mm.push(t));
        }
        true
    }
}

/// A walk over the history's entries, oldest first, read through a text
/// buffer of `IML` bytes.
pub struct HistoryIter<'a, const HTC: usize, const HME: usize, const IML: usize> {
    /// The history being walked.
    pub history: &'a History<HTC, HME>,
    /// The next entry to read.
    pub index: usize,
}

impl<'a, const HTC: usize, const HME: usize, const IML: usize> HistoryIter<'a, HTC, HME, IML> {
    /// Reads the next entry, if any remain.
    pub fn next(&mut self) -> (r: Option<String>)
        requires
            old(self).history.wf(),
        ensures
            final(self).history == old(self).history,
            old(self).index >= old(self).history.model().len() ==> r is None && final(self).index
                == old(self).index,
            old(self).index < old(self).history.model().len() ==> final(self).index == old(
                self,
            ).index + 1 && (r is Some <==> read_back(
                old(self).history.model()[old(self).index as int],
                IML as int,
            ) is Some) && (r matches Some(s) ==> Some(s@) == read_back(
                old(self).history.model()[old(self).index as int],
                IML as int,
            )),
    {
        if self.index >= self.history.entry_size() {
            return None;
        }
        let r = self.history.get::<IML>(self.index);
        self.index = self.index + 1;
        r
    }
}

/// A walk over the history's entries with their positions, oldest first.
pub struct HistoryWithIndexesIter<'a, const HTC: usize, const HME: usize, const IML: usize> {
    /// The history being walked.
    pub history: &'a History<HTC, HME>,
    /// The next entry to read.
    pub index: usize,
}

impl<'a, const HTC: usize, const HME: usize, const IML: usize> HistoryWithIndexesIter<
    'a,
    HTC,
    HME,
    IML,
> {
    /// Reads the next entry and its position, if any remain.
    pub fn next(&mut self) -> (r: Option<(usize, String)>)
        requires
            old(self).history.wf(),
        ensures
            final(self).history == old(self).history,
            old(self).index >= old(self).history.model().len() ==> r is None && final(self).index
                == old(self).index,
            old(self).index < old(self).history.model().len() ==> final(self).index == old(
                self,
            ).index + 1 && (r matches Some((i, s)) ==> i == old(self).index && Some(s@)
                == read_back(old(self).history.model()[old(self).index as int], IML as int)),
    {
        if self.index >= self.history.entry_size() {
            return None;
        }
        let r = self.history.get_at_index::<IML>(self.index);
        self.index = self.index + 1;
        r
    }
}

impl<const HTC: usize, const HME: usize> History<HTC, HME> {
    /// A walk over the entries, oldest first.
    pub fn iter<'a, const IML: usize>(&'a self) -> (r: HistoryIter<'a, HTC, HME, IML>)
        ensures
            r.history == self,
            r.index == 0,
    {
        HistoryIter { history: self, index: 0 }
    }

    /// A walk over the entries and their positions, oldest first.
    pub fn iter_with_indexes<'a, const IML: usize>(&'a self) -> (r: HistoryWithIndexesIter<
        'a,
        HTC,
        HME,
        IML,
    >)
        ensures
            r.history == self,
            r.index == 0,
    {
        HistoryWithIndexesIter { history: self, index: 0 }
    }
}

impl<const HTC: usize, const HME: usize> Default for History<HTC, HME> {
    /// An empty history.
    fn default() -> (r: History<HTC, HME>)
        ensures
            HTC >= 1 && HME >= 1 ==> r.wf(),
            r.model() == Seq::<Seq<u8>>::empty(),
            r.current_index == 0,
    {
        let r = History {
            items: Vec::new(),
            metas: Vec::new(),
            data_head: 0,
            entry_head: 0,
            current_index: 0,
        };
        proof {
            assert(r.model() =~= Seq::<Seq<u8>>::empty());
        }
        r
    }
}

/// Whether two byte vectors hold the same bytes.
fn bytes_eq(a: &Vec<u8>, b: &Vec<u8>) -> (r: bool)
    ensures
        r == (a@ == b@),
{
    if a.len() != b.len() {
        return false;
    }
    let mut i: usize = 0;
    while i < a.len()
        invariant
            a@.len() == b@.len(),
            i <= a@.len(),
            forall|j: int| 0 <= j < i ==> a@[j] == b@[j],
        decreases a@.len() - i,
    {
        if a[i] != b[i] {
            return false;
        }
        i = i + 1;
    }
    proof {
        assert(a@ =~= b@);
    }
    true
}

/// Splitting off the first entry splits the total length.
proof fn lemma_used_drop_first(es: Seq<Seq<u8>>)
    requires
        es.len() > 0,
    ensures
        used_of(es.drop_first()) == used_of(es) - es[0].len(),
{
}

/// Appending an entry adds its length to the total.
proof fn lemma_used_push(es: Seq<Seq<u8>>, t: Seq<u8>)
    ensures
        used_of(es.push(t)) == used_of(es) + t.len(),
    decreases es.len(),
{
    assert(es.push(t).len() == es.len() + 1);
    if es.len() == 0 {
        assert(es.push(t)[0] == t);
        assert(es.push(t).drop_first() =~= Seq::<Seq<u8>>::empty());
        assert(used_of(es.push(t)) == es.push(t)[0].len() + used_of(es.push(t).drop_first()));
    } else {
        assert(es.push(t)[0] == es[0]);
        assert(es.push(t).drop_first() =~= es.drop_first().push(t));
        lemma_used_push(es.drop_first(), t);
        assert(used_of(es.push(t)) == es.push(t)[0].len() + used_of(es.push(t).drop_first()));
        assert(used_of(es) == es[0].len() + used_of(es.drop_first()));
    }
}

/// The total length of a suffix never exceeds the whole.
proof fn lemma_used_skip_le(es: Seq<Seq<u8>>, i: int)
    requires
        0 <= i <= es.len(),
    ensures
        used_of(es.skip(i)) <= used_of(es),
    decreases i,
{
    if i > 0 {
        lemma_used_skip_le(es, i - 1);
        lemma_used_skip_step(es, i - 1);
    } else {
        assert(es.skip(0) =~= es);
    }
}

/// Skipping one more entry removes exactly its length.
proof fn lemma_used_skip_step(es: Seq<Seq<u8>>, i: int)
    requires
        0 <= i < es.len(),
    ensures
        used_of(es.skip(i + 1)) == used_of(es.skip(i)) - es[i].len(),
{
    assert(es.skip(i).drop_first() =~= es.skip(i + 1));
    assert(es.skip(i)[0] == es[i]);
}

} // verus!
