//! What the scanner rejects.

use vstd::prelude::*;

verus! {

/// What is said of an input whose name is reserved.
pub const VARNAME_ERR1: &'static str =
    "This is a reserved keyword, please choose a different name!";

/// An error found while scanning. A position is a byte offset into the text
/// of the expression.
#[derive(Debug, PartialEq)]
pub enum TokenizerError {
    /// A character that belongs to the language at a place where no token
    /// starts with it; with its position.
    SyntaxError(usize),
    /// A character that is not part of the language, and its position.
    InvalidCharacter(char, usize),
    /// A run of characters that begins like a number and is none; with the
    /// position of its first character.
    InvalidNumberFormat(usize),
    /// An identifier that names no function, constant or input; with its
    /// position.
    UndefinedVariable(usize, String),
    /// An input name that cannot be used, and why.
    InvalidVariableName(String, &'static str),
}

/// A [`TokenizerError`] as a mathematical value.
pub enum TokenizerErrorView {
    SyntaxError(usize),
    InvalidCharacter(char, usize),
    InvalidNumberFormat(usize),
    UndefinedVariable(usize, Seq<char>),
    InvalidVariableName(Seq<char>, Seq<char>),
}

impl View for TokenizerError {
    type V = TokenizerErrorView;

    open spec fn view(&self) -> TokenizerErrorView {
        match self {
            TokenizerError::SyntaxError(i) => TokenizerErrorView::SyntaxError(*i),
            TokenizerError::InvalidCharacter(c, i) => TokenizerErrorView::InvalidCharacter(*c, *i),
            TokenizerError::InvalidNumberFormat(i) => TokenizerErrorView::InvalidNumberFormat(*i),
            TokenizerError::UndefinedVariable(i, s) => TokenizerErrorView::UndefinedVariable(
                *i,
                s@,
            ),
            TokenizerError::InvalidVariableName(s, hint) => TokenizerErrorView::InvalidVariableName(
                s@,
                hint@,
            ),
        }
    }
}

impl Clone for TokenizerError {
    fn clone(&self) -> (r: Self)
        ensures
            r == *self,
    {
        match self {
            TokenizerError::SyntaxError(i) => TokenizerError::SyntaxError(*i),
            TokenizerError::InvalidCharacter(c, i) => TokenizerError::InvalidCharacter(*c, *i),
            TokenizerError::InvalidNumberFormat(i) => TokenizerError::InvalidNumberFormat(*i),
            TokenizerError::UndefinedVariable(i, s) => TokenizerError::UndefinedVariable(
                *i,
                s.clone(),
            ),
            TokenizerError::InvalidVariableName(s, hint) => TokenizerError::InvalidVariableName(
                s.clone(),
                *hint,
            ),
        }
    }
}

} // verus!
