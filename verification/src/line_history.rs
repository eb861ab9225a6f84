//! A simple bounded history of whole lines with a navigation cursor.
//!
//! Unlike the byte-budgeted ring of [`crate::history`], this history keeps
//! up to [`HISTORY_SIZE`] whole lines, drops the oldest when full, skips
//! exact duplicates, and navigates with an optional cursor that `previous`
//! and `next` move and `push` resets.

use vstd::prelude::*;

verus! {

/// The longest line the surrounding editor feeds this history.
pub const MAX_LEN: usize = 128;

/// How many lines the history keeps.
pub const HISTORY_SIZE: usize = 50;

/// A bounded history of lines with a navigation cursor.
pub struct History {
    /// The stored lines, oldest first.
    pub buffer: Vec<String>,
    /// The navigation cursor, or `None` when navigation is not under way.
    pub index: Option<usize>,
}

impl History {
    /// The stored lines.
    pub open spec fn model(self) -> Seq<Seq<char>> {
        self.buffer@.map_values(|s: String| s@)
    }

    /// The history's structural invariant.
    pub open spec fn wf(self) -> bool {
        &&& self.buffer@.len() <= HISTORY_SIZE
        &&& (self.index matches Some(i) ==> i < self.buffer@.len())
    }

    /// Creates an empty history.
    pub fn new() -> (r: History)
        ensures
            r.wf(),
            r.model() == Seq::<Seq<char>>::empty(),
            r.index is None,
    {
        let r = History { buffer: Vec::new(), index: None };
        proof {
            assert(r.model() =~= Seq::<Seq<char>>::empty());
        }
        r
    }

    /// Stores a line: skipped when it is already present; otherwise the
    /// oldest line leaves when the history is full, the line is appended,
    /// and the cursor is reset.
    pub fn push(&mut self, entry: String)
        requires
            old(self).wf(),
        ensures
            final(self).wf(),
            old(self).model().contains(entry@) ==> *final(self) == *old(self),
            !old(self).model().contains(entry@) ==> {
                &&& final(self).index is None
                &&& final(self).model() == if old(self).model().len() == HISTORY_SIZE {
                    old(self).model().drop_first().push(entry@)
                } else {
                    old(self).model().push(entry@)
                }
            },
    {
        let mut i: usize = 0;
        while i < self.buffer.len()
            invariant
                *self == *old(self),
                old(self).wf(),
                i <= self.buffer@.len(),
                forall|j: int| 0 <= j < i ==> (#[trigger] self.buffer@[j])@ != entry@,
            decreases self.buffer@.len() - i,
        {
            if crate::scan::str_eq(self.buffer[i].as_str(), entry.as_str()) {
                proof {
                    assert(self.model()[i as int] == entry@);
                }
                return ;
            }
            i = i + 1;
        }
        proof {
            assert forall|j: int| 0 <= j < self.model().len() implies #[trigger] self.model()[j]
                != entry@ by {
                assert(self.model()[j] == self.buffer@[j]@);
            }
            assert(!self.model().contains(entry@));
        }
        let ghost pre = self.model();
        if self.buffer.len() >= HISTORY_SIZE {
            self.buffer.remove(0);
            proof {
                assert(self.model() =~= pre.drop_first());
            }
        }
        let ghost mid = self.model();
        self.buffer.push(entry);
        self.index = None;
        proof {
            assert(self.model() =~= mid.push(self.buffer@.last()@));
        }
    }

    /// Moves the cursor back (starting from the newest line) and returns
    /// the line there, if any.
    pub fn previous(&mut self) -> (r: Option<String>)
        requires
            old(self).wf(),
        ensures
            final(self).wf(),
            final(self).model() == old(self).model(),
            ({
                let ix = match old(self).index {
                    Some(i) => if i > 0 {
                        Some(i - 1)
                    } else {
                        Some(i as int)
                    },
                    None => if old(self).model().len() > 0 {
                        Some(old(self).model().len() - 1)
                    } else {
                        None
                    },
                };
                match ix {
                    Some(i) => final(self).index == Some(i as usize) && (r matches Some(s) && s@
                        == old(self).model()[i]),
                    None => r is None && final(self).index is None,
                }
            }),
    {
        match self.index {
            Some(i) => {
                if i > 0 {
                    self.index = Some(i - 1);
                }
            },
            None => {
                if self.buffer.len() > 0 {
                    self.index = Some(self.buffer.len() - 1);
                }
            },
        }
        match self.index {
            Some(i) => Some(self.buffer[i].clone()),
            None => None,
        }
    }

    /// Moves the cursor forward and returns the line there; walking past
    /// the newest line ends navigation.
    pub fn next(&mut self) -> (r: Option<String>)
        requires
            old(self).wf(),
        ensures
            final(self).wf(),
            final(self).model() == old(self).model(),
            ({
                match old(self).index {
                    Some(i) => {
                        if i + 1 < old(self).model().len() {
                            final(self).index == Some((i + 1) as usize) && (r matches Some(s) && s@
                                == old(self).model()[i + 1])
                        } else {
                            r is None && final(self).index is None
                        }
                    },
                    None => r is None && final(self).index is None,
                }
            }),
    {
        match self.index {
            Some(i) => {
                if i + 1 < self.buffer.len() {
                    self.index = Some(i + 1);
                    Some(self.buffer[i + 1].clone())
                } else {
                    self.index = None;
                    None
                }
            },
            None => {
                self.index = None;
                None
            },
        }
    }

    /// The line at `idx`, if any.
    pub fn get_by_index(&self, idx: usize) -> (r: Option<String>)
        ensures
            idx < self.model().len() ==> (r matches Some(s) && s@ == self.model()[idx as int]),
            idx >= self.model().len() ==> r is None,
    {
        if idx < self.buffer.len() {
            Some(self.buffer[idx].clone())
        } else {
            None
        }
    }
}

} // verus!
