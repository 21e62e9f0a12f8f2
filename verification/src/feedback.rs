//! The status bar: a message on the left, and an optional detail and mode on
//! the right.

use vstd::prelude::*;

verus! {

/// The texts of a status bar.
#[derive(Clone, Copy, Debug)]
pub struct StatusBar<'a> {
    pub message: &'a str,
    pub detail: Option<&'a str>,
    pub mode: Option<&'a str>,
}

impl<'a> StatusBar<'a> {
    /// A status bar with only a message.
    pub fn new(message: &'a str) -> (s: Self)
        ensures
            s.message == message,
            s.detail is None,
            s.mode is None,
    {
        StatusBar { message, detail: None, mode: None }
    }

    pub fn detail(self, detail: &'a str) -> (s: Self)
        ensures
            s == (StatusBar { detail: Some(detail), ..self }),
    {
        StatusBar { detail: Some(detail), ..self }
    }

    pub fn mode(self, mode: &'a str) -> (s: Self)
        ensures
            s == (StatusBar { mode: Some(mode), ..self }),
    {
        StatusBar { mode: Some(mode), ..self }
    }
}

} // verus!
