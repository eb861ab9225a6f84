//! A fixed-size input line buffer with cursor editing.
//!
//! `InputBuffer<IML>` holds at most `IML` characters.  Insertion and
//! deletion happen at a cursor, shifting the characters behind it; unused
//! slots stay as NUL characters.

use vstd::prelude::*;
use crate::chars::chars_to_string;
use vstd::string::{StringSliceAdditionalSpecFns, StrSliceExecFns};

verus! {

/// A fixed-size character buffer for editing one input line.
pub struct InputBuffer<const IML: usize> {
    /// The character slots; only the first `length` are live.
    pub buffer: Vec<char>,
    /// How many slots hold input.
    pub length: usize,
    /// The cursor, between 0 and `length`.
    pub cursor_pos: usize,
}

impl<const IML: usize> InputBuffer<IML> {
    /// The buffer's live content.
    pub open spec fn text(self) -> Seq<char> {
        self.buffer@.take(self.length as int)
    }

    /// The buffer's structural invariant.
    pub open spec fn wf(self) -> bool {
        &&& self.buffer@.len() == IML
        &&& self.length <= IML
        &&& self.cursor_pos <= self.length
    }

    /// Creates an empty buffer with the cursor at the start.
    pub fn new() -> (r: InputBuffer<IML>)
        ensures
            r.wf(),
            r.text() == Seq::<char>::empty(),
            r.cursor_pos == 0,
    {
        let mut buffer: Vec<char> = Vec::new();
        let mut i: usize = 0;
        while i < IML
            invariant
                i <= IML,
                buffer@.len() == i,
            decreases IML - i,
        {
            buffer.push('\0');
            i = i + 1;
        }
        let r = InputBuffer { buffer, length: 0, cursor_pos: 0 };
        proof {
            assert(r.text() =~= Seq::<char>::empty());
        }
        r
    }

    /// Inserts a character at the cursor, shifting the rest right; fails
    /// when the buffer is full.
    pub fn insert(&mut self, ch: char) -> (r: bool)
        requires
            old(self).wf(),
        ensures
            final(self).wf(),
            r == (old(self).length < IML),
            !r ==> *final(self) == *old(self),
            r ==> final(self).text() == old(self).text().insert(old(self).cursor_pos as int, ch)
                && final(self).cursor_pos == old(self).cursor_pos + 1 && final(self).length == old(
                self,
            ).length + 1,
    {
        if self.length >= IML {
            return false;
        }
        let ghost t0 = self.text();
        let mut i: usize = self.length;
        while i > self.cursor_pos
            invariant
                self.wf(),
                old(self).wf(),
                self.length < IML,
                self.cursor_pos <= i <= self.length,
                self.buffer@.len() == IML,
                t0 == old(self).text(),
                self.length == old(self).length,
                self.cursor_pos == old(self).cursor_pos,
                // slots after the hole carry the shifted characters
                forall|j: int| i < j <= self.length ==> self.buffer@[j] == t0[j - 1],
                // slots up to the hole keep their characters
                forall|j: int| 0 <= j <= i ==> self.buffer@[j] == old(self).buffer@[j],
            decreases i,
        {
            let c = self.buffer[i - 1];
            proof {
                assert(self.buffer@[i - 1] == old(self).buffer@[i - 1]);
                assert(t0 == old(self).buffer@.take(old(self).length as int));
                assert(t0[i - 1] == old(self).buffer@[i - 1]);
                assert(c == t0[i - 1]);
            }
            self.buffer.set(i, c);
            i = i - 1;
        }
        self.buffer.set(self.cursor_pos, ch);
        self.length = self.length + 1;
        self.cursor_pos = self.cursor_pos + 1;
        proof {
            assert(self.text() =~= t0.insert(old(self).cursor_pos as int, ch));
        }
        true
    }

    /// Deletes the character before the cursor; fails at the start.
    pub fn backspace(&mut self) -> (r: bool)
        requires
            old(self).wf(),
        ensures
            final(self).wf(),
            r == (old(self).cursor_pos > 0),
            !r ==> *final(self) == *old(self),
            r ==> final(self).text() == old(self).text().remove(old(self).cursor_pos - 1)
                && final(self).cursor_pos == old(self).cursor_pos - 1 && final(self).length == old(
                self,
            ).length - 1,
    {
        if self.cursor_pos == 0 {
            return false;
        }
        let ghost t0 = self.text();
        let mut i: usize = self.cursor_pos;
        while i < self.length
            invariant
                self.wf(),
                1 <= self.cursor_pos <= i <= self.length,
                self.buffer@.len() == IML,
                t0 == old(self).text(),
                self.length == old(self).length,
                self.cursor_pos == old(self).cursor_pos,
                forall|j: int| self.cursor_pos <= j < i ==> self.buffer@[j - 1] == t0[j],
                forall|j: int| 0 <= j < self.cursor_pos - 1 ==> self.buffer@[j] == t0[j],
                forall|j: int| i <= j < self.length ==> self.buffer@[j] == t0[j],
            decreases self.length - i,
        {
            let c = self.buffer[i];
            self.buffer.set(i - 1, c);
            i = i + 1;
        }
        self.length = self.length - 1;
        self.cursor_pos = self.cursor_pos - 1;
        let l = self.length;
        self.buffer.set(l, '\0');
        proof {
            assert(self.text() =~= t0.remove(old(self).cursor_pos - 1));
        }
        true
    }

    /// Moves the cursor one place left, if possible.
    pub fn move_left(&mut self)
        requires
            old(self).wf(),
        ensures
            final(self).wf(),
            final(self).text() == old(self).text(),
            final(self).cursor_pos == if old(self).cursor_pos > 0 {
                old(self).cursor_pos - 1
            } else {
                0int
            },
    {
        if self.cursor_pos > 0 {
            self.cursor_pos = self.cursor_pos - 1;
        }
    }

    /// Moves the cursor one place right, if possible.
    pub fn move_right(&mut self)
        requires
            old(self).wf(),
        ensures
            final(self).wf(),
            final(self).text() == old(self).text(),
            final(self).cursor_pos == if old(self).cursor_pos < old(self).length {
                old(self).cursor_pos + 1
            } else {
                old(self).cursor_pos as int
            },
    {
        if self.cursor_pos < self.length {
            self.cursor_pos = self.cursor_pos + 1;
        }
    }

    /// Moves the cursor to the start.
    pub fn move_home(&mut self)
        requires
            old(self).wf(),
        ensures
            final(self).wf(),
            final(self).text() == old(self).text(),
            final(self).cursor_pos == 0,
    {
        self.cursor_pos = 0;
    }

    /// Moves the cursor to the end.
    pub fn move_end(&mut self)
        requires
            old(self).wf(),
        ensures
            final(self).wf(),
            final(self).text() == old(self).text(),
            final(self).cursor_pos == final(self).length,
    {
        self.cursor_pos = self.length;
    }

    /// Deletes the character at the cursor, if there is one.
    pub fn delete_at_cursor(&mut self)
        requires
            old(self).wf(),
        ensures
            final(self).wf(),
            final(self).cursor_pos == old(self).cursor_pos,
            old(self).cursor_pos >= old(self).length ==> *final(self) == *old(self),
            old(self).cursor_pos < old(self).length ==> final(self).text() == old(
                self,
            ).text().remove(old(self).cursor_pos as int) && final(self).length == old(self).length
                - 1,
    {
        if self.cursor_pos < self.length {
            let ghost t0 = self.text();
            let mut i: usize = self.cursor_pos;
            while i < self.length - 1
                invariant
                    self.wf(),
                    self.cursor_pos <= i <= self.length - 1,
                    self.length >= 1,
                    self.buffer@.len() == IML,
                    t0 == old(self).text(),
                    self.length == old(self).length,
                    self.cursor_pos == old(self).cursor_pos,
                    forall|j: int| self.cursor_pos <= j < i ==> self.buffer@[j] == t0[j + 1],
                    forall|j: int| 0 <= j < self.cursor_pos ==> self.buffer@[j] == t0[j],
                    forall|j: int| i <= j < self.length ==> self.buffer@[j] == t0[j],
                decreases self.length - i,
            {
                let c = self.buffer[i + 1];
                self.buffer.set(i, c);
                i = i + 1;
            }
            let l = self.length - 1;
            self.buffer.set(l, '\0');
            self.length = l;
            proof {
                assert(self.text() =~= t0.remove(old(self).cursor_pos as int));
            }
        }
    }

    /// Empties the buffer and resets the cursor.
    pub fn clear(&mut self)
        requires
            old(self).wf(),
        ensures
            final(self).wf(),
            final(self).text() == Seq::<char>::empty(),
            final(self).length == 0,
            final(self).cursor_pos == 0,
            forall|j: int| 0 <= j < IML ==> final(self).buffer@[j] == '\0',
    {
        let mut i: usize = 0;
        while i < IML
            invariant
                self.buffer@.len() == IML,
                i <= IML,
                forall|j: int| 0 <= j < i ==> self.buffer@[j] == '\0',
            decreases IML - i,
        {
            self.buffer.set(i, '\0');
            i = i + 1;
        }
        self.length = 0;
        self.cursor_pos = 0;
        proof {
            assert(self.text() =~= Seq::<char>::empty());
        }
    }

    /// The buffer's content as a string.
    pub fn to_string(&self) -> (r: String)
        requires
            self.wf(),
        ensures
            r@ == self.text(),
    {
        let mut w: Vec<char> = Vec::new();
        let mut i: usize = 0;
        while i < self.length
            invariant
                self.wf(),
                i <= self.length,
                w@ == self.text().take(i as int),
            decreases self.length - i,
        {
            w.push(self.buffer[i]);
            i = i + 1;
            proof {
                assert(w@ =~= self.text().take(i as int));
            }
        }
        proof {
            assert(self.text().take(self.length as int) =~= self.text());
        }
        chars_to_string(&w)
    }

    /// Replaces the content with the first `IML` characters of `input`,
    /// accounting the length in input bytes as the stored length (at most
    /// `IML`), and puts the cursor at that length.
    pub fn overwrite(&mut self, input: &str)
        requires
            old(self).wf(),
        ensures
            final(self).wf(),
            final(self).length == (if input.spec_bytes().len() as usize <= IML {
                (input.spec_bytes().len() as usize) as int
            } else {
                IML as int
            }),
            final(self).cursor_pos == final(self).length,
            forall|j: int| 0 <= j < input@.len() && j < IML ==> final(self).buffer@[j] == input@[j],
            forall|j: int| input@.len() <= j < IML ==> final(self).buffer@[j] == '\0',
    {
        self.clear();
        let chars = crate::chars::str_to_chars(input);
        let n = if chars.len() <= IML {
            chars.len()
        } else {
            IML
        };
        let mut i: usize = 0;
        while i < n
            invariant
                self.buffer@.len() == IML,
                n <= IML,
                n <= chars@.len(),
                chars@ == input@,
                i <= n,
                self.length == 0,
                self.cursor_pos == 0,
                forall|j: int| 0 <= j < i ==> self.buffer@[j] == chars@[j],
                forall|j: int| i <= j < IML ==> self.buffer@[j] == '\0',
            decreases n - i,
        {
            let c = chars[i];
            self.buffer.set(i, c);
            i = i + 1;
        }
        let bl = input.len();
        self.length = if bl <= IML {
            bl
        } else {
            IML
        };
        self.cursor_pos = self.length;
    }

    /// The cursor position.
    pub fn cursor(&self) -> (r: usize)
        ensures
            r == self.cursor_pos,
    {
        self.cursor_pos
    }

    /// Deletes everything before the cursor and moves the cursor to the
    /// start.
    pub fn delete_to_start(&mut self)
        requires
            old(self).wf(),
        ensures
            final(self).wf(),
            final(self).text() == old(self).text().skip(old(self).cursor_pos as int),
            final(self).cursor_pos == 0,
    {
        let shift = self.length - self.cursor_pos;
        let ghost t0 = self.text();
        let mut i: usize = 0;
        while i < shift
            invariant
                self.wf(),
                shift == self.length - self.cursor_pos,
                i <= shift,
                self.buffer@.len() == IML,
                t0 == old(self).text(),
                self.length == old(self).length,
                self.cursor_pos == old(self).cursor_pos,
                forall|j: int| 0 <= j < i ==> self.buffer@[j] == t0[self.cursor_pos + j],
                forall|j: int| i <= j < self.length ==> self.buffer@[j] == t0[j],
            decreases shift - i,
        {
            let c = self.buffer[self.cursor_pos + i];
            self.buffer.set(i, c);
            i = i + 1;
        }
        let mut k: usize = shift;
        while k < IML
            invariant
                self.wf(),
                shift <= k <= IML,
                self.buffer@.len() == IML,
                t0 == old(self).text(),
                shift == self.length - self.cursor_pos,
                self.length == old(self).length,
                self.cursor_pos == old(self).cursor_pos,
                forall|j: int| 0 <= j < shift ==> self.buffer@[j] == t0[self.cursor_pos + j],
            decreases IML - k,
        {
            self.buffer.set(k, '\0');
            k = k + 1;
        }
        self.length = shift;
        self.cursor_pos = 0;
        proof {
            assert(self.text() =~= t0.skip(old(self).cursor_pos as int));
        }
    }

    /// Deletes everything from the cursor on.
    pub fn delete_to_end(&mut self)
        requires
            old(self).wf(),
        ensures
            final(self).wf(),
            final(self).text() == old(self).text().take(old(self).cursor_pos as int),
            final(self).cursor_pos == old(self).cursor_pos,
    {
        let ghost t0 = self.text();
        let mut i: usize = self.cursor_pos;
        while i < self.length
            invariant
                self.wf(),
                self.cursor_pos <= i <= self.length,
                self.buffer@.len() == IML,
                t0 == old(self).text(),
                self.length == old(self).length,
                self.cursor_pos == old(self).cursor_pos,
                forall|j: int| 0 <= j < self.cursor_pos ==> self.buffer@[j] == t0[j],
            decreases self.length - i,
        {
            self.buffer.set(i, '\0');
            i = i + 1;
        }
        self.length = self.cursor_pos;
        proof {
            assert(self.text() =~= t0.take(old(self).cursor_pos as int));
        }
    }

    /// The number of stored characters.
    pub fn len(&self) -> (r: usize)
        ensures
            r == self.length,
    {
        self.length
    }

    /// Whether the buffer is empty.
    pub fn is_empty(&self) -> (r: bool)
        ensures
            r == (self.length == 0),
    {
        self.length == 0
    }
}

} // verus!
