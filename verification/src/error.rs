//! Errors of the front end and of evaluation.

use vstd::prelude::*;
use crate::text::{append_chars, chars_of, decimal_text, push_decimal, string_of};

verus! {

/// A malformed expression text: what is wrong, and the byte offset where.
#[derive(Debug, Clone)]
pub struct ParseError {
    pub message: String,
    pub position: usize,
}

/// A failed evaluation: what went wrong.
#[derive(Debug, Clone)]
pub struct EvalError {
    pub message: String,
}

/// Either kind of failure, as the engine hands it to its caller.
#[derive(Debug)]
pub enum EngineError {
    Parse(ParseError),
    Eval(EvalError),
}

/// The mathematical content of a [`ParseError`].
pub ghost struct ParseErrorView {
    pub message: Seq<char>,
    pub position: nat,
}

/// The mathematical content of an [`EngineError`].
pub ghost enum ErrorView {
    Parse(ParseErrorView),
    Eval(Seq<char>),
}

impl View for ParseError {
    type V = ParseErrorView;

    open spec fn view(&self) -> ParseErrorView {
        ParseErrorView { message: self.message@, position: self.position as nat }
    }
}

impl View for EvalError {
    type V = Seq<char>;

    open spec fn view(&self) -> Seq<char> {
        self.message@
    }
}

impl View for EngineError {
    type V = ErrorView;

    open spec fn view(&self) -> ErrorView {
        match self {
            EngineError::Parse(e) => ErrorView::Parse(e@),
            EngineError::Eval(e) => ErrorView::Eval(e@),
        }
    }
}

impl ParseErrorView {
    /// The text shown for this error: the message, then where it happened.
    pub open spec fn text(self) -> Seq<char> {
        self.message + " at position "@ + decimal_text(self.position)
    }
}

impl ErrorView {
    /// The text shown for this error, with its kind in front.
    pub open spec fn text(self) -> Seq<char> {
        match self {
            ErrorView::Parse(e) => "parse error: "@ + e.text(),
            ErrorView::Eval(m) => "eval error: "@ + m,
        }
    }
}

impl ParseError {
    pub fn new(message: &str, position: usize) -> (e: ParseError)
        ensures
            e@ == (ParseErrorView { message: message@, position: position as nat }),
    {
        ParseError { message: message.to_owned(), position }
    }

    /// The text shown for this error.
    pub fn to_text(&self) -> (s: String)
        ensures
            s@ == self@.text(),
    {
        let mut out = chars_of(self.message.as_str());
        let sep = chars_of(" at position ");
        append_chars(&mut out, &sep);
        push_decimal(&mut out, self.position as u64);
        string_of(&out)
    }
}

impl EvalError {
    pub fn new(message: &str) -> (e: EvalError)
        ensures
            e@ == message@,
    {
        EvalError { message: message.to_owned() }
    }

    /// The text shown for this error: its message.
    pub fn to_text(&self) -> (s: String)
        ensures
            s@ == self@,
    {
        self.message.clone()
    }
}

impl EngineError {
    /// The text shown for this error.
    pub fn to_text(&self) -> (s: String)
        ensures
            s@ == self@.text(),
    {
        match self {
            EngineError::Parse(e) => {
                let mut out = chars_of("parse error: ");
                let inner = e.to_text();
                let tail = chars_of(inner.as_str());
                append_chars(&mut out, &tail);
                string_of(&out)
            },
            EngineError::Eval(e) => {
                let mut out = chars_of("eval error: ");
                let tail = chars_of(e.message.as_str());
                append_chars(&mut out, &tail);
                string_of(&out)
            },
        }
    }
}

impl From<ParseError> for EngineError {
    /// A parse error as an engine error.
    fn from(e: ParseError) -> (r: EngineError) {
        EngineError::Parse(e)
    }
}

impl vstd::std_specs::convert::FromSpecImpl<ParseError> for EngineError {
    open spec fn obeys_from_spec() -> bool {
        true
    }

    open spec fn from_spec(e: ParseError) -> EngineError {
        EngineError::Parse(e)
    }
}

impl From<EvalError> for EngineError {
    /// An evaluation error as an engine error.
    fn from(e: EvalError) -> (r: EngineError) {
        EngineError::Eval(e)
    }
}

impl vstd::std_specs::convert::FromSpecImpl<EvalError> for EngineError {
    open spec fn obeys_from_spec() -> bool {
        true
    }

    open spec fn from_spec(e: EvalError) -> EngineError {
        EngineError::Eval(e)
    }
}

} // verus!
