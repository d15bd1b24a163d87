//! What a session knows about the terminal at its other end.

use vstd::prelude::*;
use crate::text::{copy_range, from_chars, to_chars};

verus! {

/// The terminal of a session, as it was announced when the session began.
#[derive(Clone, Debug, PartialEq, Eq)]
pub struct TerminalParams {
    /// The terminal type, such as `xterm`.
    pub term: String,
    /// The width of the terminal in columns.
    pub col_width: u32,
    /// The height of the terminal in rows.
    pub row_height: u32,
    /// The terminal modes, each as its opcode and its value.
    pub modes: Vec<(u8, u32)>,
    /// The name the user logged in with.
    pub username: String,
}

/// No text is laid out wider than this, however wide the terminal is.
pub const MAX_TEXT_WIDTH: usize = 100;

/// The width at which text is laid out on a terminal of `columns` columns.
pub open spec fn text_width_of(columns: nat) -> nat {
    if columns <= MAX_TEXT_WIDTH {
        columns
    } else {
        MAX_TEXT_WIDTH as nat
    }
}

/// The name between the brackets of a user name of the form `[name]`.
pub open spec fn bracketed(name: Seq<char>) -> Option<Seq<char>> {
    if name.len() >= 2 && name.first() == '[' && name.last() == ']' {
        Some(name.subrange(1, name.len() - 1))
    } else {
        None
    }
}

impl TerminalParams {
    /// The width at which text is laid out: the width of the terminal, but
    /// no more than [`MAX_TEXT_WIDTH`].
    pub fn text_width(&self) -> (width: usize)
        ensures
            width == text_width_of(self.col_width as nat),
    {
        let columns: usize = self.col_width as usize;
        if columns <= MAX_TEXT_WIDTH {
            columns
        } else {
            MAX_TEXT_WIDTH
        }
    }

    /// The backend that the user asks for directly, if they do: a user name
    /// in square brackets names a backend to run in place of the menu.
    pub fn direct_run_target(&self) -> (target: Option<String>)
        ensures
            match target {
                Some(name) => bracketed(self.username@) == Some(name@),
                None => bracketed(self.username@) is None,
            },
    {
        let chars = to_chars(self.username.as_str());
        let n: usize = chars.len();
        if n >= 2 && chars[0] == '[' && chars[n - 1] == ']' {
            let inner = copy_range(chars.as_slice(), 1, n - 1);
            Some(from_chars(inner.as_slice()))
        } else {
            None
        }
    }
}

} // verus!
