//! The interactive line editor's state: an input buffer, completion over
//! the registered command names, and a history, driven key by key.
//!
//! The editor decides; the host renders.  Each handler updates the state
//! and returns what happened, and the host draws the prompt, rings the
//! bell, or prints listings as it sees fit.

use vstd::prelude::*;
use crate::autocomplete::Autocomplete;
use crate::buffer::InputBuffer;
use crate::chars::{str_to_chars, chars_to_string};
use crate::history::{History, read_back};
use crate::scan::{str_eq, parse_index, decimal_num};
use vstd::string::StringExecFns;

verus! {

/// What a `#`-prefixed command asks the host to do.
#[derive(Debug, PartialEq, Eq)]
pub enum HashAction {
    /// Leave the shell.
    Quit,
    /// Print the command list.
    ListCommands,
    /// Print the command list, the shortcuts, and the argument types.
    ListAll,
    /// Print the history.
    ShowHistory,
    /// The history was cleared; say so.
    ClearHistory,
    /// Run this line recalled from the history.
    FromHistory(String),
    /// The index named no history entry.
    NoEntry,
    /// The command was not recognized.
    Unrecognized,
}

/// The line editor's state.
pub struct InputParser<
    const NC: usize,
    const FNL: usize,
    const IML: usize,
    const HTC: usize,
    const HME: usize,
> {
    /// The registered command names and their descriptors.
    pub commands: Vec<(String, String)>,
    /// The argument-type legend shown by the full listing.
    pub datatypes: String,
    /// The shortcut legend shown by the full listing.
    pub shortcuts_help: String,
    /// Completion over the command names.
    pub autocomplete: Autocomplete<NC, FNL>,
    /// The command history.
    pub history: History<HTC, HME>,
    /// The line being edited.
    pub buffer: InputBuffer<IML>,
    /// The prompt the host displays.
    pub prompt: String,
}

impl<
    const NC: usize,
    const FNL: usize,
    const IML: usize,
    const HTC: usize,
    const HME: usize,
> InputParser<NC, FNL, IML, HTC, HME> {
    /// The editor's structural invariant.
    pub open spec fn wf(self) -> bool {
        &&& self.autocomplete.wf()
        &&& self.history.wf()
        &&& self.buffer.wf()
    }

    /// Creates an editor over the given command set.
    pub fn new(
        commands: Vec<(String, String)>,
        datatypes: &str,
        shortcuts: &str,
        prompt: &str,
    ) -> (r: InputParser<NC, FNL, IML, HTC, HME>)
        requires
            HTC >= 1,
            HME >= 1,
        ensures
            r.wf(),
            r.prompt@ == prompt@,
            r.commands@ == commands@,
            r.datatypes@ == datatypes@,
            r.shortcuts_help@ == shortcuts@,
            r.buffer.text() == Seq::<char>::empty(),
            r.history.model() == Seq::<Seq<u8>>::empty(),
    {
        let mut candidates: Vec<String> = Vec::new();
        let mut i: usize = 0;
        while i < commands.len()
            invariant
                i <= commands@.len(),
            decreases commands@.len() - i,
        {
            candidates.push(commands[i].0.clone());
            i = i + 1;
        }
        InputParser {
            commands,
            datatypes: String::from_str(datatypes),
            shortcuts_help: String::from_str(shortcuts),
            autocomplete: Autocomplete::new(candidates),
            history: History::new(),
            buffer: InputBuffer::new(),
            prompt: String::from_str(prompt),
        }
    }

    /// The prompt the host displays.
    pub fn prompt(&self) -> (r: &str)
        ensures
            r@ == self.prompt@,
    {
        self.prompt.as_str()
    }

    /// The current line.
    pub fn finalize(&mut self) -> (r: String)
        requires
            old(self).wf(),
        ensures
            *final(self) == *old(self),
            r@ == old(self).buffer.text(),
    {
        self.buffer.to_string()
    }

    /// Takes one typed character: inserts it at the cursor and, when it
    /// fits, lets completion rewrite the line from the first `FNL`
    /// characters.  Returns whether the character fit; on `false` the
    /// line is unchanged and the host should mark the boundary.
    pub fn handle_char(&mut self, ch: char) -> (r: bool)
        requires
            old(self).wf(),
        ensures
            final(self).wf(),
            r == (old(self).buffer.length < IML),
            !r ==> *final(self) == *old(self),
            final(self).commands@ == old(self).commands@,
            final(self).history == old(self).history,
            final(self).prompt@ == old(self).prompt@,
    {
        if !self.buffer.insert(ch) {
            return false;
        }
        let input_full = self.buffer.to_string();
        let full = str_to_chars(input_full.as_str());
        let head = take_upto(&full, FNL);
        self.autocomplete.update_input(chars_to_string(&head));
        let suggestion = chars_to_string(&str_to_chars(self.autocomplete.current_input()));
        if !str_eq(suggestion.as_str(), chars_to_string(&head).as_str()) {
            let mut merged = str_to_chars(suggestion.as_str());
            let mut i: usize = FNL;
            while i < full.len()
                invariant
                    i <= full@.len() || i == FNL,
                decreases full@.len() - i,
            {
                merged.push(full[i]);
                i = i + 1;
            }
            self.buffer.overwrite(chars_to_string(&merged).as_str());
        }
        true
    }

    /// Takes a backspace: deletes before the cursor and refilters the
    /// completion from the first `FNL` characters.  Returns whether a
    /// character was deleted; on `false` the host should ring the bell.
    pub fn handle_backspace(&mut self) -> (r: bool)
        requires
            old(self).wf(),
        ensures
            final(self).wf(),
            r == (old(self).buffer.cursor_pos > 0),
            !r ==> final(self).buffer == old(self).buffer,
            final(self).commands@ == old(self).commands@,
            final(self).history == old(self).history,
            final(self).prompt@ == old(self).prompt@,
    {
        if !self.buffer.backspace() {
            return false;
        }
        let input_full = self.buffer.to_string();
        let full = str_to_chars(input_full.as_str());
        let head = take_upto(&full, FNL);
        self.autocomplete.update_input(chars_to_string(&head));
        true
    }

    /// Takes a tab: cycles the completion (backward for shift-tab) and
    /// rewrites the line from the selected match plus the tail beyond
    /// `FNL`.
    pub fn handle_tab(&mut self, reverse: bool)
        requires
            old(self).wf(),
        ensures
            final(self).wf(),
            final(self).commands@ == old(self).commands@,
            final(self).history == old(self).history,
            final(self).prompt@ == old(self).prompt@,
    {
        if reverse {
            self.autocomplete.cycle_backward();
        } else {
            self.autocomplete.cycle_forward();
        }
        let suggestion = chars_to_string(&str_to_chars(self.autocomplete.current_input()));
        let input_full = self.buffer.to_string();
        let full = str_to_chars(input_full.as_str());
        let sug = str_to_chars(suggestion.as_str());
        let mut merged = take_upto(&sug, FNL);
        let mut i: usize = FNL;
        while i < full.len()
            invariant
                i <= full@.len() || i == FNL,
            decreases full@.len() - i,
        {
            merged.push(full[i]);
            i = i + 1;
        }
        self.buffer.overwrite(chars_to_string(&merged).as_str());
    }

    /// Interprets a `#`-prefixed command (its text after the `#`): `q`
    /// quits, `#` and `##` list, `h` shows and `c` clears the history, a
    /// decimal number recalls the entry at that index, and anything else
    /// is unrecognized.
    pub fn handle_hashtag(&mut self, input: &str) -> (r: HashAction)
        requires
            old(self).wf(),
        ensures
            final(self).wf(),
            input@ == "q"@ ==> r == HashAction::Quit,
            input@ == "#"@ ==> r == HashAction::ListCommands,
            input@ == "##"@ ==> r == HashAction::ListAll,
            input@ == "h"@ ==> r == HashAction::ShowHistory,
            input@ == "c"@ ==> r == HashAction::ClearHistory && final(self).history.model()
                == Seq::<Seq<u8>>::empty(),
            (input@ != "q"@ && input@ != "#"@ && input@ != "##"@ && input@ != "h"@ && input@
                != "c"@) ==> {
                &&& final(self).history == old(self).history
                &&& match decimal_num(input@) {
                    Some(ix) => {
                        if 0 <= ix <= usize::MAX && ix < old(self).history.model().len()
                            && read_back(old(self).history.model()[ix], IML as int) is Some {
                            r matches HashAction::FromHistory(s) && Some(s@) == read_back(
                                old(self).history.model()[ix],
                                IML as int,
                            )
                        } else {
                            r == HashAction::NoEntry || r == HashAction::Unrecognized
                        }
                    },
                    None => r == HashAction::Unrecognized,
                }
            },
    {
        proof {
            lemma_hash_literals_distinct();
        }
        if str_eq(input, "q") {
            return HashAction::Quit;
        }
        if str_eq(input, "#") {
            return HashAction::ListCommands;
        }
        if str_eq(input, "##") {
            return HashAction::ListAll;
        }
        if str_eq(input, "h") {
            return HashAction::ShowHistory;
        }
        if str_eq(input, "c") {
            self.history.clear();
            return HashAction::ClearHistory;
        }
        match parse_index(input) {
            Some(ix) => match self.history.get::<IML>(ix) {
                Some(entry) => HashAction::FromHistory(entry),
                None => HashAction::NoEntry,
            },
            None => HashAction::Unrecognized,
        }
    }

    /// Whether a byte is acceptable input: a space or a printable ASCII
    /// character.
    pub fn valid_byte(b: u8) -> (r: bool)
        ensures
            r == (b == 32 || (33 <= b && b <= 126)),
    {
        b == 32 || (33 <= b && b <= 126)
    }
}

/// The first `n` characters of `v`, or all of them.
fn take_upto(v: &Vec<char>, n: usize) -> (r: Vec<char>)
    ensures
        r@ == if v@.len() <= n {
            v@
        } else {
            v@.take(n as int)
        },
{
    let m = if v.len() <= n {
        v.len()
    } else {
        n
    };
    let mut r: Vec<char> = Vec::new();
    let mut i: usize = 0;
    while i < m
        invariant
            m <= v@.len(),
            i <= m,
            r@ == v@.take(m as int).take(i as int),
        decreases m - i,
    {
        r.push(v[i]);
        i = i + 1;
        proof {
            assert(r@ =~= v@.take(m as int).take(i as int));
        }
    }
    proof {
        assert(v@.take(m as int).take(m as int) =~= v@.take(m as int));
        if v@.len() <= n {
            assert(v@.take(m as int) =~= v@);
        }
    }
    r
}

/// The short hash-command spellings are pairwise distinct.
proof fn lemma_hash_literals_distinct()
    ensures
        "q"@ != "#"@,
        "q"@ != "##"@,
        "q"@ != "h"@,
        "q"@ != "c"@,
        "#"@ != "##"@,
        "#"@ != "h"@,
        "#"@ != "c"@,
        "##"@ != "h"@,
        "##"@ != "c"@,
        "h"@ != "c"@,
{
    reveal_strlit("q");
    reveal_strlit("#");
    reveal_strlit("##");
    reveal_strlit("h");
    reveal_strlit("c");
    assert("q"@.len() == 1 && "q"@[0] == 'q');
    assert("#"@.len() == 1 && "#"@[0] == '#');
    assert("##"@.len() == 2);
    assert("h"@.len() == 1 && "h"@[0] == 'h');
    assert("c"@.len() == 1 && "c"@[0] == 'c');
}

} // verus!
