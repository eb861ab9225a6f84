//! A descriptor-driven textual command dispatcher with a small line-editing
//! toolkit around it.
//!
//! A command line such as `write "log.txt" 100 255` is tokenized, the first
//! token is resolved against a registry of named functions, the remaining
//! tokens are checked against the function's compact type descriptor (one
//! character per parameter) and parsed into a typed argument store, and the
//! function is finally invoked through a caller-supplied invoker.

use vstd::prelude::*;

pub mod args;
pub mod autocomplete;
pub mod buffer;
pub mod chars;
pub mod config;
pub mod descriptor;
pub mod dispatch;
pub mod editor;
pub mod float;
pub mod history;
pub mod keys;
pub mod line_history;
pub mod registry;
pub mod scan;
pub mod shortcuts;
pub mod tokenize;

verus! {

/// The outcome of a failed dispatch attempt.
#[derive(Debug, Clone, Copy, PartialEq, Eq, Structural)]
pub enum DispatchError {
    /// The input line contains no tokens.
    Empty,
    /// The first token does not name a registered function.
    UnknownFunction,
    /// The function exists, but the number of argument tokens differs from
    /// its arity.
    WrongArity { expected: u8 },
    /// A token for a `bool` parameter is not a recognized boolean spelling.
    BadBool,
    /// A token for a `char` parameter is not exactly one character.
    BadChar,
    /// A token for an unsigned integer parameter is malformed or out of range.
    BadUnsigned,
    /// A token for a signed integer parameter is malformed or out of range.
    BadSigned,
    /// A token for a floating-point parameter is not in standard decimal or
    /// scientific notation.
    BadFloat,
    /// A token for a hex byte-string parameter is empty, of odd length, too
    /// long, or holds a non-hex digit.
    BadHexStr,
}

} // verus!
