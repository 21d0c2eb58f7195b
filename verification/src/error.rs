//! What can go wrong while reading upstream data.

use vstd::prelude::*;
use vstd::string::StringExecFns;
use crate::text::{debug_quote, debug_quoted};

verus! {

/// A failure to read upstream data. Every variant aborts the query it occurs
/// in; nothing is retried or replaced by older data.
#[derive(Debug, PartialEq, Eq)]
pub enum ParseError {
    /// The page holds no start marker of the list of names.
    MissingStart,
    /// No closing bracket follows the start marker.
    MissingEnd,
    /// A term word that begins with none of `w`, `s`, `f`; holds the word.
    InvalidTerm(String),
    /// A kind word outside the four literals; holds the word.
    InvalidKind(String),
    /// A term field without a space between term word and year.
    UnsplittableTerm,
    /// A year that is no decimal integer of 32 bits.
    InvalidYear,
}

/// An error as a plain value: what contracts speak of.
pub enum ParseErrorView {
    MissingStart,
    MissingEnd,
    InvalidTerm(Seq<char>),
    InvalidKind(Seq<char>),
    UnsplittableTerm,
    InvalidYear,
}

impl View for ParseError {
    type V = ParseErrorView;

    open spec fn view(&self) -> ParseErrorView {
        match self {
            ParseError::MissingStart => ParseErrorView::MissingStart,
            ParseError::MissingEnd => ParseErrorView::MissingEnd,
            ParseError::InvalidTerm(word) => ParseErrorView::InvalidTerm(word@),
            ParseError::InvalidKind(word) => ParseErrorView::InvalidKind(word@),
            ParseError::UnsplittableTerm => ParseErrorView::UnsplittableTerm,
            ParseError::InvalidYear => ParseErrorView::InvalidYear,
        }
    }
}

/// The message that belongs to an error.
pub open spec fn message_of(e: ParseErrorView) -> Seq<char> {
    match e {
        ParseErrorView::MissingStart => "couldn't find start"@,
        ParseErrorView::MissingEnd => "couldn't find end"@,
        ParseErrorView::InvalidTerm(word) => "invalid term: "@ + debug_quoted(word),
        ParseErrorView::InvalidKind(word) => "invalid kind: "@ + debug_quoted(word),
        ParseErrorView::UnsplittableTerm => "couldn't split term"@,
        ParseErrorView::InvalidYear => "couldn't parse year"@,
    }
}

impl Clone for ParseError {
    fn clone(&self) -> (copy: ParseError)
        ensures
            copy == *self,
    {
        match self {
            ParseError::MissingStart => ParseError::MissingStart,
            ParseError::MissingEnd => ParseError::MissingEnd,
            ParseError::InvalidTerm(word) => ParseError::InvalidTerm(word.clone()),
            ParseError::InvalidKind(word) => ParseError::InvalidKind(word.clone()),
            ParseError::UnsplittableTerm => ParseError::UnsplittableTerm,
            ParseError::InvalidYear => ParseError::InvalidYear,
        }
    }
}

impl ParseError {
    /// The message shown for this error.
    pub fn message(&self) -> (text: String)
        ensures
            text@ == message_of(self@),
    {
        match self {
            ParseError::MissingStart => String::from_str("couldn't find start"),
            ParseError::MissingEnd => String::from_str("couldn't find end"),
            ParseError::InvalidTerm(word) => {
                let quoted = debug_quote(word.as_str());
                String::from_str("invalid term: ").concat(quoted.as_str())
            },
            ParseError::InvalidKind(word) => {
                let quoted = debug_quote(word.as_str());
                String::from_str("invalid kind: ").concat(quoted.as_str())
            },
            ParseError::UnsplittableTerm => String::from_str("couldn't split term"),
            ParseError::InvalidYear => String::from_str("couldn't parse year"),
        }
    }
}

} // verus!
