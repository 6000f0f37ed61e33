//! The small panes: the info block and the empty filler.
use vstd::prelude::*;

use crate::state::CurrentPersona;
use crate::text::{push_chars, str_to_chars};

verus! {

/// A pane that shows nothing but its frame.
#[derive(Debug, Clone, Copy)]
pub struct Empty;

/// The pane that shows our persona and the time.
#[derive(Debug, Clone)]
pub struct InfoBlock {
    pub persona: String,
}

impl InfoBlock {
    /// The info block of the current persona.
    pub fn new(persona: &CurrentPersona) -> (r: InfoBlock)
        ensures
            r.persona@ == persona.0@,
    {
        InfoBlock { persona: persona.0.clone() }
    }

    /// The block's two lines, `persona: <persona>` and `time: <time>`, for the time
    /// already formatted.
    pub fn lines(&self, time: &String) -> (r: Vec<String>)
        ensures
            r@.len() == 2,
            r@[0]@ == seq!['p', 'e', 'r', 's', 'o', 'n', 'a', ':', ' '] + self.persona@,
            r@[1]@ == seq!['t', 'i', 'm', 'e', ':', ' '] + time@,
    {
        let mut a = String::new();
        push_chars(&mut a, &vec!['p', 'e', 'r', 's', 'o', 'n', 'a', ':', ' ']);
        push_chars(&mut a, &str_to_chars(self.persona.as_str()));
        let mut b = String::new();
        push_chars(&mut b, &vec!['t', 'i', 'm', 'e', ':', ' ']);
        push_chars(&mut b, &str_to_chars(time.as_str()));
        vec![a, b]
    }
}

} // verus!
