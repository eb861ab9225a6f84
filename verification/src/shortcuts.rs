//! The shortcut dispatcher: two-character keys mapped to functions.
//!
//! A shortcut line is trimmed; its first two characters name the shortcut
//! and the rest, trimmed again, is the parameter.  Shortcuts are grouped
//! under one-character prefixes; a line is recognizable as a shortcut when
//! its first character is one of the prefixes.

use vstd::prelude::*;
use crate::chars::{trimmed, trim_chars, str_to_chars, chars_to_string, push_char};
use crate::scan::chars_eq;
use vstd::string::StringExecFns;

verus! {

/// Invokes shortcut functions by entry index; the host implements this for
/// its own shortcut set.
pub trait ShortcutInvoker {
    /// Calls the function bound to the shortcut at `index` with the line's
    /// parameter text.
    fn invoke(&mut self, index: usize, param: &str);
}

/// A rejected shortcut line: no registered shortcut matches its key.
#[derive(Debug)]
pub struct ShortcutError {
    /// The one- or two-character key that failed to match.
    pub key: String,
}

impl ShortcutError {
    /// A human-readable description of the failure.
    pub fn message(&self) -> (r: String)
        ensures
            r@ == "Unknown shortcut: "@ + self.key@,
    {
        let mut m = String::new();
        m.append("Unknown shortcut: ");
        m.append(self.key.as_str());
        m
    }
}

/// The key the dispatcher reads from a line: the first two characters of
/// its trimmed form, or the whole trimmed form when it is shorter.
pub open spec fn key_of(s: Seq<char>) -> Seq<char> {
    let t = trimmed(s);
    if t.len() >= 2 {
        t.take(2)
    } else {
        t
    }
}

/// The parameter the dispatcher reads from a line: everything after the
/// key, trimmed.
pub open spec fn param_of(s: Seq<char>) -> Seq<char> {
    let t = trimmed(s);
    if t.len() >= 2 {
        trimmed(t.skip(2))
    } else {
        Seq::empty()
    }
}

/// The registered shortcuts: two-character keys bound to function names,
/// grouped under one-character prefixes.
pub struct ShortcutSet {
    /// The `(key, function name)` pairs, in registration order.
    pub entries: Vec<(String, String)>,
    /// The distinct first characters of the keys.
    pub prefixes: Vec<char>,
}

impl ShortcutSet {
    /// The set's structural invariant.
    pub open spec fn wf(self) -> bool {
        &&& forall|k: int| 0 <= k < self.entries@.len() ==> (#[trigger] self.entries@[k]).0@.len() == 2
        &&& forall|k: int|
            0 <= k < self.entries@.len() ==> self.prefixes@.contains(
                (#[trigger] self.entries@[k]).0@[0],
            )
    }

    /// The index of the first entry whose key is `key`, from `k` on.
    pub open spec fn find_from(self, key: Seq<char>, k: int) -> Option<int>
        decreases self.entries@.len() - k when 0 <= k
    {
        if k >= self.entries@.len() {
            None
        } else if self.entries@[k].0@ == key {
            Some(k)
        } else {
            self.find_from(key, k + 1)
        }
    }

    /// The index of the entry for `key`, if any.
    pub open spec fn spec_find(self, key: Seq<char>) -> Option<int> {
        self.find_from(key, 0)
    }

    /// `find_from` is the unique first matching position.
    proof fn lemma_find_from_is(self, key: Seq<char>, i: int, j: int)
        requires
            0 <= i <= j <= self.entries@.len(),
            forall|m: int| i <= m < j ==> (#[trigger] self.entries@[m]).0@ != key,
            j < self.entries@.len() ==> self.entries@[j].0@ == key,
        ensures
            self.find_from(key, i) == if j < self.entries@.len() {
                Some(j)
            } else {
                None::<int>
            },
        decreases j - i,
    {
        if i < j {
            self.lemma_find_from_is(key, i + 1, j);
        }
    }

    /// Builds a shortcut set from prefix groups: each group binds the keys
    /// `prefix + key` of its `(key, function name)` pairs.
    pub fn new(groups: Vec<(char, Vec<(char, String)>)>) -> (r: ShortcutSet)
        ensures
            r.wf(),
    {
        let mut entries: Vec<(String, String)> = Vec::new();
        let mut prefixes: Vec<char> = Vec::new();
        let mut g: usize = 0;
        while g < groups.len()
            invariant
                forall|k: int| 0 <= k < entries@.len() ==> (#[trigger] entries@[k]).0@.len() == 2,
                forall|k: int|
                    0 <= k < entries@.len() ==> prefixes@.contains((#[trigger] entries@[k]).0@[0]),
            decreases groups@.len() - g,
        {
            let prefix = groups[g].0;
            let ghost oldp = prefixes@;
            prefixes.push(prefix);
            proof {
                assert forall|k: int|
                    0 <= k < entries@.len() implies prefixes@.contains(
                        (#[trigger] entries@[k]).0@[0],
                    ) by {
                    let c = entries@[k].0@[0];
                    assert(oldp.contains(c));
                    let w = choose|w: int| 0 <= w < oldp.len() && oldp[w] == c;
                    assert(prefixes@[w] == c);
                }
                assert(prefixes@[prefixes@.len() - 1] == prefix);
                assert(prefixes@.contains(prefix));
            }
            let binds: &Vec<(char, String)> = &groups[g].1;
            let mut j: usize = 0;
            while j < binds.len()
                invariant
                    g < groups@.len(),
                    prefix == groups@[g as int].0,
                    binds@ == groups@[g as int].1@,
                    prefixes@.contains(prefix),
                    forall|k: int|
                        0 <= k < entries@.len() ==> (#[trigger] entries@[k]).0@.len() == 2,
                    forall|k: int|
                        0 <= k < entries@.len() ==> prefixes@.contains(
                            (#[trigger] entries@[k]).0@[0],
                        ),
                decreases binds@.len() - j,
            {
                let mut key = String::new();
                push_char(&mut key, prefix);
                push_char(&mut key, binds[j].0);
                proof {
                    assert(key@.len() == 2);
                    assert(key@[0] == prefix);
                }
                entries.push((key, binds[j].1.clone()));
                j = j + 1;
            }
            g = g + 1;
        }
        ShortcutSet { entries, prefixes }
    }

    /// Whether a line starts, after trimming, with a shortcut prefix.
    pub fn is_supported_shortcut(&self, input: &str) -> (r: bool)
        ensures
            r == (trimmed(input@).len() > 0 && self.prefixes@.contains(trimmed(input@)[0])),
    {
        let t = trim_chars(&str_to_chars(input));
        if t.len() == 0 {
            return false;
        }
        let c = t[0];
        let mut i: usize = 0;
        while i < self.prefixes.len()
            invariant
                t@ == trimmed(input@),
                t@.len() > 0,
                c == t@[0],
                i <= self.prefixes@.len(),
                forall|j: int| 0 <= j < i ==> self.prefixes@[j] != c,
            decreases self.prefixes@.len() - i,
        {
            if self.prefixes[i] == c {
                return true;
            }
            i = i + 1;
        }
        false
    }

    /// The registered keys, joined with `" | "`.
    pub fn get_shortcuts(&self) -> (r: String)
        ensures
            r@ == joined_keys(self.entries@),
    {
        let mut r = String::new();
        let mut i: usize = 0;
        proof {
            assert(self.entries@.take(0) =~= Seq::<(String, String)>::empty());
        }
        while i < self.entries.len()
            invariant
                i <= self.entries@.len(),
                r@ == joined_keys(self.entries@.take(i as int)),
            decreases self.entries@.len() - i,
        {
            if i > 0 {
                r.append(" | ");
                proof {
                    reveal_strlit(" | ");
                    assert((" | "@) =~= seq![' ', '|', ' ']);
                }
            }
            r.append(self.entries[i].0.as_str());
            i = i + 1;
            proof {
                assert(self.entries@.take(i as int).drop_last() =~= self.entries@.take(i as int - 1));
                assert(self.entries@.take(i as int).last() == self.entries@[i as int - 1]);
            }
        }
        proof {
            assert(self.entries@.take(self.entries@.len() as int) =~= self.entries@);
        }
        r
    }

    /// Resolves a line to a shortcut index and its parameter text.
    pub fn resolve(&self, input: &str) -> (r: Result<(usize, String), ShortcutError>)
        ensures
            r matches Ok((k, p)) ==> Some(k as int) == self.spec_find(key_of(input@)) && p@
                == param_of(input@),
            r matches Err(e) ==> self.spec_find(key_of(input@)) is None && e.key@ == key_of(
                input@,
            ),
    {
        let t = trim_chars(&str_to_chars(input));
        let key: Vec<char>;
        let param: Vec<char>;
        if t.len() >= 2 {
            let mut kv: Vec<char> = Vec::new();
            kv.push(t[0]);
            kv.push(t[1]);
            proof {
                assert(kv@ =~= trimmed(input@).take(2));
            }
            let mut rest: Vec<char> = Vec::new();
            let mut i: usize = 2;
            while i < t.len()
                invariant
                    t@ == trimmed(input@),
                    2 <= i <= t@.len(),
                    rest@ == t@.subrange(2, i as int),
                decreases t@.len() - i,
            {
                rest.push(t[i]);
                i = i + 1;
                proof {
                    assert(rest@ =~= t@.subrange(2, i as int));
                }
            }
            proof {
                assert(rest@ =~= trimmed(input@).skip(2));
            }
            key = kv;
            param = trim_chars(&rest);
        } else {
            key = t;
            param = Vec::new();
            proof {
                assert(param@ =~= Seq::<char>::empty());
            }
        }
        let mut k: usize = 0;
        while k < self.entries.len()
            invariant
                key@ == key_of(input@),
                param@ == param_of(input@),
                k <= self.entries@.len(),
                forall|m: int| 0 <= m < k ==> (#[trigger] self.entries@[m]).0@ != key@,
            decreases self.entries@.len() - k,
        {
            let ek = str_to_chars(self.entries[k].0.as_str());
            if chars_eq(&ek, &key) {
                proof {
                    self.lemma_find_from_is(key@, 0, k as int);
                }
                return Ok((k, chars_to_string(&param)));
            }
            k = k + 1;
        }
        proof {
            self.lemma_find_from_is(key@, 0, self.entries@.len() as int);
        }
        Err(ShortcutError { key: chars_to_string(&key) })
    }

    /// Dispatches a shortcut line: on success the bound function is
    /// invoked through `inv` with the parameter text.
    pub fn dispatch<H: ShortcutInvoker>(&self, input: &str, inv: &mut H) -> (r: Result<
        (),
        ShortcutError,
    >)
        ensures
            r is Ok <==> self.spec_find(key_of(input@)) is Some,
            r matches Err(e) ==> e.key@ == key_of(input@),
    {
        match self.resolve(input) {
            Ok((k, p)) => {
                inv.invoke(k, p.as_str());
                Ok(())
            },
            Err(e) => Err(e),
        }
    }
}

/// The keys of the entries, joined with `" | "`.
pub open spec fn joined_keys(es: Seq<(String, String)>) -> Seq<char>
    decreases es.len(),
{
    if es.len() == 0 {
        Seq::empty()
    } else if es.len() == 1 {
        es[0].0@
    } else {
        joined_keys(es.drop_last()) + seq![' ', '|', ' '] + es.last().0@
    }
}

} // verus!
