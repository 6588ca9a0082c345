//! The errors of lexing.

use vstd::prelude::*;

verus! {

/// Why a scan stopped.
#[derive(Debug, Clone, Copy, PartialEq, Eq)]
pub enum Fault {
    /// A `"` with no closing `"` before the end of the input.
    UnterminatedString,
    /// A number literal that ends in a `.` with no digit after it.
    InvalidNumber,
    /// A character that starts no token, with that character.
    UnexpectedCharacter(char),
}

/// A lexical error: the first fault in a source text, with the label of that text and
/// the line on which the faulty lexeme starts. Nothing of the text is tokenized once
/// an error is returned.
#[derive(Debug, PartialEq)]
pub enum LexError {
    UnterminatedString { source_label: String, line: usize },
    InvalidNumber { source_label: String, line: usize },
    UnexpectedCharacter { source_label: String, line: usize, character: char },
}

/// The view of a [`LexError`].
pub struct LexErrorView {
    pub fault: Fault,
    pub label: Seq<char>,
    pub line: nat,
}

impl View for LexError {
    type V = LexErrorView;

    open spec fn view(&self) -> LexErrorView {
        match self {
            LexError::UnterminatedString { source_label, line } => LexErrorView {
                fault: Fault::UnterminatedString,
                label: source_label@,
                line: *line as nat,
            },
            LexError::InvalidNumber { source_label, line } => LexErrorView {
                fault: Fault::InvalidNumber,
                label: source_label@,
                line: *line as nat,
            },
            LexError::UnexpectedCharacter { source_label, line, character } => LexErrorView {
                fault: Fault::UnexpectedCharacter(*character),
                label: source_label@,
                line: *line as nat,
            },
        }
    }
}

impl LexError {
    /// The error for `fault` in the source text named `source_label`, in a lexeme that
    /// starts on line `line`.
    pub fn at(fault: Fault, source_label: &str, line: usize) -> (error: LexError)
        ensures
            error@ == (LexErrorView { fault, label: source_label@, line: line as nat }),
    {
        let source_label = source_label.to_owned();
        match fault {
            Fault::UnterminatedString => LexError::UnterminatedString { source_label, line },
            Fault::InvalidNumber => LexError::InvalidNumber { source_label, line },
            Fault::UnexpectedCharacter(character) => LexError::UnexpectedCharacter {
                source_label,
                line,
                character,
            },
        }
    }

    /// The label of the source text in which the error was found.
    pub fn source_label(&self) -> (label: &String)
        ensures
            label@ == self@.label,
    {
        match self {
            LexError::UnterminatedString { source_label, .. } => source_label,
            LexError::InvalidNumber { source_label, .. } => source_label,
            LexError::UnexpectedCharacter { source_label, .. } => source_label,
        }
    }

    /// The line, counted from 1, on which the faulty lexeme starts.
    pub fn line(&self) -> (line: usize)
        ensures
            line == self@.line,
    {
        match self {
            LexError::UnterminatedString { line, .. } => *line,
            LexError::InvalidNumber { line, .. } => *line,
            LexError::UnexpectedCharacter { line, .. } => *line,
        }
    }
}

} // verus!
