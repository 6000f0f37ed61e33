//! Errors of the keymap parsers.
use vstd::prelude::*;

use crate::key_context::{KeyContext, KeyContextView};

verus! {

/// Why a keystroke, a key context or a keymap section was refused.
#[derive(Debug, PartialEq, Eq)]
pub enum KeymapError {
    /// The keystroke text (held here) is not a keystroke.
    InvalidKeystroke(String),
    /// A key context ended where an operand was expected.
    UnexpectedEnd,
    /// A key context holds this character where an operand was expected.
    UnexpectedChar(char),
    /// An `==` or `!=` had an operand that is not an identifier; both operands
    /// are held here.
    IdentExpected(Box<KeyContext>, Box<KeyContext>),
    /// A key context parsed, but this text was left over.
    Unexpected(String),
    /// A binding's action is not a string.
    ActionNotString,
}

/// The mathematical value of a `KeymapError`.
pub enum KeymapErrorView {
    InvalidKeystroke(Seq<char>),
    UnexpectedEnd,
    UnexpectedChar(char),
    IdentExpected(Box<KeyContextView>, Box<KeyContextView>),
    Unexpected(Seq<char>),
    ActionNotString,
}

impl View for KeymapError {
    type V = KeymapErrorView;

    open spec fn view(&self) -> KeymapErrorView {
        match self {
            KeymapError::InvalidKeystroke(s) => KeymapErrorView::InvalidKeystroke(s@),
            KeymapError::UnexpectedEnd => KeymapErrorView::UnexpectedEnd,
            KeymapError::UnexpectedChar(c) => KeymapErrorView::UnexpectedChar(*c),
            KeymapError::IdentExpected(a, b) => KeymapErrorView::IdentExpected(
                Box::new((**a)@),
                Box::new((**b)@),
            ),
            KeymapError::Unexpected(s) => KeymapErrorView::Unexpected(s@),
            KeymapError::ActionNotString => KeymapErrorView::ActionNotString,
        }
    }
}

} // verus!
