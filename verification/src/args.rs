//! The command line: an optional persona to speak as.
use vstd::prelude::*;

verus! {

/// The command-line arguments.
#[derive(Debug, Clone, PartialEq, Eq, Default)]
pub struct Args {
    pub persona: Option<String>,
}

} // verus!
