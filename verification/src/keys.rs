//! The keys a line editor reacts to, and the decoding of terminal input
//! bytes into them.

use vstd::prelude::*;

verus! {

/// One key event.
#[derive(Debug, Clone, Copy, PartialEq, Eq, Structural)]
pub enum Key {
    /// Move to the previous history entry.
    ArrowUp,
    /// Move to the next history entry.
    ArrowDown,
    /// Move the cursor left.
    ArrowLeft,
    /// Move the cursor right.
    ArrowRight,
    /// Move the cursor to the start of the line.
    Home,
    /// Move the cursor to the end of the line.
    End,
    /// Reserved.
    Insert,
    /// Delete the character at the cursor.
    Delete,
    /// Move to the oldest history entry.
    PageUp,
    /// Move to the newest history entry.
    PageDown,
    /// Submit the line.
    Enter,
    /// Delete the character before the cursor.
    Backspace,
    /// Cycle completion forward.
    Tab,
    /// Cycle completion backward.
    ShiftTab,
    /// Delete from the cursor to the start of the line.
    CtrlU,
    /// Delete from the cursor to the end of the line.
    CtrlK,
    /// Clear the whole line.
    CtrlD,
    /// A printable character.
    Char(char),
}

/// What a plain (non-escape) input byte means.
pub open spec fn spec_plain_key(b: u8) -> Key {
    if b == 0x15 {
        Key::CtrlU
    } else if b == 0x0b {
        Key::CtrlK
    } else if b == 0x04 {
        Key::CtrlD
    } else if b == 0x0d || b == 0x0a {
        Key::Enter
    } else if b == 0x09 {
        Key::Tab
    } else if b == 0x7f || b == 0x08 {
        Key::Backspace
    } else {
        Key::Char(b as char)
    }
}

/// Decodes a plain input byte, or reports that it opens an escape
/// sequence.
pub fn decode_plain(b: u8) -> (r: Option<Key>)
    ensures
        r is None <==> b == 0x1b,
        r matches Some(k) ==> k == spec_plain_key(b),
{
    if b == 0x1b {
        None
    } else if b == 0x15 {
        Some(Key::CtrlU)
    } else if b == 0x0b {
        Some(Key::CtrlK)
    } else if b == 0x04 {
        Some(Key::CtrlD)
    } else if b == 0x0d || b == 0x0a {
        Some(Key::Enter)
    } else if b == 0x09 {
        Some(Key::Tab)
    } else if b == 0x7f || b == 0x08 {
        Some(Key::Backspace)
    } else {
        Some(Key::Char(b as char))
    }
}

/// What the byte after `ESC [` means, and whether a trailing `~` must
/// still be consumed.
pub open spec fn spec_escape_key(b: u8) -> (Key, bool) {
    if b == 0x41 {
        (Key::ArrowUp, false)
    } else if b == 0x42 {
        (Key::ArrowDown, false)
    } else if b == 0x43 {
        (Key::ArrowRight, false)
    } else if b == 0x44 {
        (Key::ArrowLeft, false)
    } else if b == 0x48 {
        (Key::Home, false)
    } else if b == 0x46 {
        (Key::End, false)
    } else if b == 0x5a {
        (Key::ShiftTab, false)
    } else if b == 0x31 {
        (Key::Home, true)
    } else if b == 0x32 {
        (Key::Insert, true)
    } else if b == 0x33 {
        (Key::Delete, true)
    } else if b == 0x35 {
        (Key::PageUp, true)
    } else if b == 0x36 {
        (Key::PageDown, true)
    } else {
        (Key::Char(b as char), false)
    }
}

/// Decodes the byte that follows `ESC [` in an escape sequence; the flag
/// says whether the caller must consume one more byte (a `~`).
pub fn decode_escape(b: u8) -> (r: (Key, bool))
    ensures
        r == spec_escape_key(b),
{
    if b == 0x41 {
        (Key::ArrowUp, false)
    } else if b == 0x42 {
        (Key::ArrowDown, false)
    } else if b == 0x43 {
        (Key::ArrowRight, false)
    } else if b == 0x44 {
        (Key::ArrowLeft, false)
    } else if b == 0x48 {
        (Key::Home, false)
    } else if b == 0x46 {
        (Key::End, false)
    } else if b == 0x5a {
        (Key::ShiftTab, false)
    } else if b == 0x31 {
        (Key::Home, true)
    } else if b == 0x32 {
        (Key::Insert, true)
    } else if b == 0x33 {
        (Key::Delete, true)
    } else if b == 0x35 {
        (Key::PageUp, true)
    } else if b == 0x36 {
        (Key::PageDown, true)
    } else {
        (Key::Char(b as char), false)
    }
}

} // verus!
